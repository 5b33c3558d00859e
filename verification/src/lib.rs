//! The logic of a clipboard bridge between X11 and Wayland.
//!
//! The bridge captures a complete [`snapshot`](crate::snapshot) of the content
//! on one side and shows it on the other. This library decides and computes;
//! whoever drives it talks to the two display servers, carries out what the
//! library asks for, and reports the outcome.
//!
//! - [`content`], [`text`]: the model of clipboard content.
//! - [`snapshot`], [`fingerprint`]: content in normal form and its digest.
//! - [`config`]: size limits, the transfer timeout and the reconnect delay.
//! - [`wire`], [`property`], [`receive`], [`request`]: receiving one X11 target.
//! - [`capture`]: capturing everything that either side offers.
//! - [`bridge`], [`events`], [`event_loop`], [`incr`]: the X11 worker.
//! - [`wayland`]: publishing on Wayland.
//! - [`sync`]: which side follows the other.

pub mod bridge;
pub mod capture;
pub mod config;
pub mod content;
pub mod event_loop;
pub mod events;
pub mod fingerprint;
pub mod incr;
pub mod property;
pub mod receive;
pub mod request;
pub mod snapshot;
pub mod sync;
pub mod text;
pub mod wayland;
pub mod wire;

pub use crate::config::Config;

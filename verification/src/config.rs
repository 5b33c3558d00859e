//! Limits on clipboard transfers and the delay between sessions.

use vstd::prelude::*;

verus! {

/// The number of bytes in one MiB.
pub const MIB: usize = 1024 * 1024;

/// The delay before the first new session, in seconds.
pub const INITIAL_RECONNECT_DELAY: u64 = 1;

/// The longest delay before a new session, in seconds.
pub const MAX_RECONNECT_DELAY: u64 = 30;

/// Why limits cannot be used.
#[derive(Clone, Copy, Debug, PartialEq, Eq, Structural)]
pub enum ConfigError {
    /// The size limit of a single target is zero.
    ZeroTargetSize,
    /// The size limit of a snapshot is zero.
    ZeroTotalSize,
    /// The transfer timeout is zero.
    ZeroTimeout,
    /// The size limit of a single target does not fit when counted in bytes.
    TargetSizeTooLarge,
    /// The size limit of a snapshot does not fit when counted in bytes.
    TotalSizeTooLarge,
}

impl ConfigError {
    /// What to tell the user.
    pub fn message(&self) -> (message: &'static str)
        ensures
            message@ == match *self {
                ConfigError::ZeroTargetSize => "max target size must be greater than zero"@,
                ConfigError::ZeroTotalSize => "max total size must be greater than zero"@,
                ConfigError::ZeroTimeout => "transfer timeout must be greater than zero"@,
                ConfigError::TargetSizeTooLarge => "--max-target-size-mib is too large"@,
                ConfigError::TotalSizeTooLarge => "--max-total-size-mib is too large"@,
            },
    {
        match *self {
            ConfigError::ZeroTargetSize => "max target size must be greater than zero",
            ConfigError::ZeroTotalSize => "max total size must be greater than zero",
            ConfigError::ZeroTimeout => "transfer timeout must be greater than zero",
            ConfigError::TargetSizeTooLarge => "--max-target-size-mib is too large",
            ConfigError::TotalSizeTooLarge => "--max-total-size-mib is too large",
        }
    }
}

/// The limits of [`Config`] as numbers.
pub struct ConfigView {
    pub max_target_bytes: nat,
    pub max_total_bytes: nat,
    pub transfer_timeout_nanos: nat,
}

/// Limits on clipboard transfers, all of them greater than zero.
#[derive(Clone, Copy)]
pub struct Config {
    max_target_bytes: usize,
    max_total_bytes: usize,
    transfer_timeout_nanos: u128,
}

impl View for Config {
    type V = ConfigView;

    closed spec fn view(&self) -> ConfigView {
        ConfigView {
            max_target_bytes: self.max_target_bytes as nat,
            max_total_bytes: self.max_total_bytes as nat,
            transfer_timeout_nanos: self.transfer_timeout_nanos as nat,
        }
    }
}

/// The outcome of checking three limits: the first that is zero is refused.
pub open spec fn checked_config(
    max_target_bytes: nat,
    max_total_bytes: nat,
    transfer_timeout_nanos: nat,
) -> Result<ConfigView, ConfigError> {
    if max_target_bytes == 0 {
        Err(ConfigError::ZeroTargetSize)
    } else if max_total_bytes == 0 {
        Err(ConfigError::ZeroTotalSize)
    } else if transfer_timeout_nanos == 0 {
        Err(ConfigError::ZeroTimeout)
    } else {
        Ok(ConfigView { max_target_bytes, max_total_bytes, transfer_timeout_nanos })
    }
}

/// Whether an executable result stands for a modelled one.
pub open spec fn config_result_matches(
    result: Result<Config, ConfigError>,
    expected: Result<ConfigView, ConfigError>,
) -> bool {
    match (result, expected) {
        (Ok(config), Ok(view)) => config@ == view,
        (Err(error), Err(expected_error)) => error == expected_error,
        _ => false,
    }
}

impl Config {
    /// Every limit is greater than zero.
    #[verifier::type_invariant]
    pub open spec fn well_formed(self) -> bool {
        &&& 0 < self@.max_target_bytes <= usize::MAX
        &&& 0 < self@.max_total_bytes <= usize::MAX
        &&& 0 < self@.transfer_timeout_nanos <= u128::MAX
    }

    /// Creates limits: sizes in bytes and a timeout in nanoseconds.
    pub fn new(
        max_target_bytes: usize,
        max_total_bytes: usize,
        transfer_timeout_nanos: u128,
    ) -> (result: Result<Self, ConfigError>)
        ensures
            config_result_matches(
                result,
                checked_config(
                    max_target_bytes as nat,
                    max_total_bytes as nat,
                    transfer_timeout_nanos as nat,
                ),
            ),
            result matches Ok(config) ==> config.well_formed(),
    {
        if max_target_bytes == 0 {
            return Err(ConfigError::ZeroTargetSize);
        }
        if max_total_bytes == 0 {
            return Err(ConfigError::ZeroTotalSize);
        }
        if transfer_timeout_nanos == 0 {
            return Err(ConfigError::ZeroTimeout);
        }
        Ok(Config { max_target_bytes, max_total_bytes, transfer_timeout_nanos })
    }

    /// The largest size accepted for a single target, in bytes.
    pub fn max_target_bytes(&self) -> (limit: usize)
        ensures
            limit == self@.max_target_bytes,
            self.well_formed(),
    {
        proof {
            use_type_invariant(self);
        }
        self.max_target_bytes
    }

    /// The largest size accepted for a whole snapshot, in bytes.
    pub fn max_total_bytes(&self) -> (limit: usize)
        ensures
            limit == self@.max_total_bytes,
            self.well_formed(),
    {
        proof {
            use_type_invariant(self);
        }
        self.max_total_bytes
    }

    /// The time that one transfer may take, in nanoseconds.
    pub fn transfer_timeout_nanos(&self) -> (timeout: u128)
        ensures
            timeout == self@.transfer_timeout_nanos,
            self.well_formed(),
    {
        proof {
            use_type_invariant(self);
        }
        self.transfer_timeout_nanos
    }

    /// The largest size to accept for one target when `captured` bytes of the
    /// snapshot are already there.
    pub fn target_limit(&self, captured: usize) -> (limit: usize)
        requires
            captured <= self@.max_total_bytes,
        ensures
            limit == target_limit_of(self@, captured as nat),
            self.well_formed(),
    {
        proof {
            use_type_invariant(self);
        }
        let remaining: usize = self.max_total_bytes - captured;
        if self.max_target_bytes < remaining {
            self.max_target_bytes
        } else {
            remaining
        }
    }
}

/// The smaller of the limit of a target and what is left of the limit of the
/// snapshot once `captured` bytes are there.
pub open spec fn target_limit_of(config: ConfigView, captured: nat) -> int {
    let remaining = config.max_total_bytes - captured;
    if config.max_target_bytes < remaining {
        config.max_target_bytes as int
    } else {
        remaining
    }
}

/// The limits that the command line gives.
pub open spec fn config_of_args(
    max_target_size_mib: nat,
    max_total_size_mib: nat,
    transfer_timeout_ms: nat,
) -> Result<ConfigView, ConfigError> {
    if max_target_size_mib * 1048576 > usize::MAX {
        Err(ConfigError::TargetSizeTooLarge)
    } else if max_total_size_mib * 1048576 > usize::MAX {
        Err(ConfigError::TotalSizeTooLarge)
    } else {
        checked_config(
            max_target_size_mib * 1048576,
            max_total_size_mib * 1048576,
            transfer_timeout_ms * 1000000,
        )
    }
}

/// Arguments are accepted exactly when none is zero and the sizes fit when
/// counted in bytes: then a size of so many MiB is that many times 1024 times
/// 1024 bytes, and a millisecond is a million nanoseconds.
pub proof fn law_arguments_are_converted(target_mib: nat, total_mib: nat, timeout_ms: nat)
    ensures
        config_of_args(target_mib, total_mib, timeout_ms) is Ok <==> {
            &&& 0 < target_mib * 1024 * 1024 <= usize::MAX
            &&& 0 < total_mib * 1024 * 1024 <= usize::MAX
            &&& 0 < timeout_ms
        },
        config_of_args(target_mib, total_mib, timeout_ms) matches Ok(config) ==> {
            &&& config.max_target_bytes == target_mib * 1024 * 1024
            &&& config.max_total_bytes == total_mib * 1024 * 1024
            &&& config.transfer_timeout_nanos == timeout_ms * 1000 * 1000
        },
        config_of_args(target_mib, total_mib, timeout_ms) matches Err(error) ==> {
            &&& (error is TargetSizeTooLarge <==> target_mib * 1024 * 1024 > usize::MAX)
            &&& (error is TotalSizeTooLarge <==> target_mib * 1024 * 1024 <= usize::MAX && total_mib
                * 1024 * 1024 > usize::MAX)
        },
{
}

/// Creates the limits that the command line gives: sizes in MiB and a timeout
/// in milliseconds.
pub fn config_from_args(
    max_target_size_mib: usize,
    max_total_size_mib: usize,
    transfer_timeout_ms: u64,
) -> (result: Result<Config, ConfigError>)
    ensures
        config_result_matches(
            result,
            config_of_args(
                max_target_size_mib as nat,
                max_total_size_mib as nat,
                transfer_timeout_ms as nat,
            ),
        ),
        result matches Ok(config) ==> config.well_formed(),
{
    let max_target_bytes: usize = match max_target_size_mib.checked_mul(MIB) {
        Some(bytes) => bytes,
        None => return Err(ConfigError::TargetSizeTooLarge),
    };
    let max_total_bytes: usize = match max_total_size_mib.checked_mul(MIB) {
        Some(bytes) => bytes,
        None => return Err(ConfigError::TotalSizeTooLarge),
    };
    Config::new(max_target_bytes, max_total_bytes, transfer_timeout_ms as u128 * 1000000)
}

/// The delay that follows a delay of `seconds`.
pub open spec fn next_delay(seconds: nat) -> nat {
    if seconds * 2 < MAX_RECONNECT_DELAY {
        seconds * 2
    } else {
        MAX_RECONNECT_DELAY as nat
    }
}

/// The delay before the session after `failures` failed ones.
pub open spec fn delay_after(failures: nat) -> nat
    decreases failures,
{
    if failures == 0 {
        INITIAL_RECONNECT_DELAY as nat
    } else {
        next_delay(delay_after((failures - 1) as nat))
    }
}

/// The delay before the next session, in whole seconds.
pub struct ReconnectDelay {
    seconds: u64,
}

impl View for ReconnectDelay {
    type V = nat;

    closed spec fn view(&self) -> nat {
        self.seconds as nat
    }
}

impl ReconnectDelay {
    /// The delay lies between the initial and the longest delay.
    #[verifier::type_invariant]
    pub open spec fn well_formed(self) -> bool {
        INITIAL_RECONNECT_DELAY <= self@ <= MAX_RECONNECT_DELAY
    }

    /// The delay of a bridge that just started.
    pub fn new() -> (delay: Self)
        ensures
            delay@ == INITIAL_RECONNECT_DELAY,
            delay.well_formed(),
    {
        ReconnectDelay { seconds: INITIAL_RECONNECT_DELAY }
    }

    /// The delay in seconds.
    pub fn seconds(&self) -> (seconds: u64)
        ensures
            seconds == self@,
            self.well_formed(),
    {
        proof {
            use_type_invariant(self);
        }
        self.seconds
    }

    /// Doubles the delay, up to the longest one.
    pub fn back_off(&mut self)
        ensures
            final(self)@ == next_delay(old(self)@),
            final(self).well_formed(),
    {
        proof {
            use_type_invariant(&*self);
        }
        let doubled: u64 = self.seconds * 2;
        let next: u64 = if doubled < MAX_RECONNECT_DELAY {
            doubled
        } else {
            MAX_RECONNECT_DELAY
        };
        *self = ReconnectDelay { seconds: next };
    }

    /// Goes back to the initial delay.
    pub fn reset(&mut self)
        ensures
            final(self)@ == INITIAL_RECONNECT_DELAY,
            final(self).well_formed(),
    {
        *self = ReconnectDelay { seconds: INITIAL_RECONNECT_DELAY };
    }
}

/// However many sessions fail in a row, the delay before the next one never
/// shrinks and stays between the initial and the longest delay; from the fifth
/// failure on it is the longest.
pub proof fn law_delay_grows_to_its_limit(failures: nat)
    ensures
        INITIAL_RECONNECT_DELAY <= delay_after(failures) <= delay_after(failures + 1)
            <= MAX_RECONNECT_DELAY,
        failures >= 5 ==> delay_after(failures) == MAX_RECONNECT_DELAY,
    decreases failures,
{
    if failures > 0 {
        law_delay_grows_to_its_limit((failures - 1) as nat);
    }
    if failures == 5 {
        reveal_with_fuel(delay_after, 6);
    }
}

/// Limits are accepted as they are exactly when none of them is zero; else the
/// error names the first one that is.
pub proof fn law_positive_limits_accepted(target: nat, total: nat, timeout: nat)
    ensures
        checked_config(target, total, timeout) is Ok <==> target > 0 && total > 0 && timeout > 0,
        checked_config(target, total, timeout) matches Ok(config) ==> {
            &&& config.max_target_bytes == target
            &&& config.max_total_bytes == total
            &&& config.transfer_timeout_nanos == timeout
        },
        checked_config(target, total, timeout) matches Err(error) ==> {
            &&& (error is ZeroTargetSize <==> target == 0)
            &&& (error is ZeroTotalSize <==> target > 0 && total == 0)
            &&& (error is ZeroTimeout <==> target > 0 && total > 0)
        },
{
}

/// A result that stands for a modelled one is of its kind, with the same limits
/// or the same error.
pub proof fn law_config_result(
    result: Result<Config, ConfigError>,
    expected: Result<ConfigView, ConfigError>,
)
    requires
        config_result_matches(result, expected),
    ensures
        result is Ok <==> expected is Ok,
        result is Ok ==> result->Ok_0@ == expected->Ok_0,
        result is Err ==> result->Err_0 == expected->Err_0,
{
}

/// What may still be received is the most that breaks neither limit.
pub proof fn law_target_limit_is_the_most(config: ConfigView, captured: nat, size: int)
    requires
        captured <= config.max_total_bytes,
        0 <= size,
    ensures
        size <= target_limit_of(config, captured) <==> size <= config.max_target_bytes && captured
            + size <= config.max_total_bytes,
{
}

/// The delay doubles, unless that is more than half a minute: then it is half
/// a minute. It starts at one second.
pub proof fn law_delay_doubles(seconds: nat)
    ensures
        delay_after(0) == 1,
        delay_after(seconds + 1) == next_delay(delay_after(seconds)),
        next_delay(seconds) <= 30,
        next_delay(seconds) == 2 * seconds || (next_delay(seconds) == 30 && 2 * seconds >= 30),
{
}

} // verus!

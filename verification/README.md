# xwayclip

xwayclip keeps the regular clipboard of X11 and Wayland in step, in both
directions. It captures every format that one side offers and shows the complete
snapshot on the other side.

The logic is a library whose functions carry contracts that Verus proves:

- what a snapshot holds and which fingerprint it has;
- how a target is received from another X11 client, in pieces and through the
  `INCR` protocol, within the size limits;
- how a capture goes from one advertised format to the next until it is complete;
- how the bridge answers requests for what it owns, and what it sends in chunks;
- which side has to follow the other, and when a change is only an echo.

The proof functions whose names begin with `law_` state what holds of the library
as a whole: that a large transfer arrives as it was sent, that a finished capture
is complete, that echoes are ignored, that clearing one side clears the other.

## Layout

- `src/` is the verified library. It performs no I/O: it says what to do next
  and takes note of what came of it.
- `app/` is the program around it: the command line, the two workers, and the
  connections to the display servers.
- `tests/` runs the library on concrete values.

The library trusts three calls: `blake3::hash`, `u32::from_ne_bytes` and
`String::from_utf8`. Each stands behind one function whose comment says what is
claimed of it.

## Usage

```sh
xwayclip
```

`xwayclip --help` lists the options. Set `RUST_LOG=xwayclip=debug` to follow
clipboard changes. The program logs MIME types and sizes, not clipboard contents;
that is up to `app/`, which is not verified.

# Luma Core

The wire protocol of the Luma smart glasses, as a verified library: it turns the bytes the glasses
send into typed events, and the actions an application wants into frames to write. It opens no
socket, holds no radio and reads no clock.

| | |
|---|---|
| `src/` | The library. Every function states in its contract what it returns, and Verus proves it. The laws that relate several functions are public proof functions at the end of each module. |
| `tests/` | Its tests, on frames captured from real sessions. |
| `app/` | Ordinary Rust around the library: a Bluetooth central (btleplug, tokio), an HTTP client for the gallery (ureq), the voice codec (libopus), and the surface for other languages (UniFFI). |

A client makes three kinds of call:

1. Write the bytes that a builder in `commands` returns to characteristic `AA13`, with response.
2. Feed every notification from `AA14` to a `parser::Parser` and act on the events it returns.
3. Feed every notification from `AA15` to a `reassembly::FileReassembler` when a file is expected.

The Wi-Fi side is split the same way: `fileapi` holds the URLs, the reply parsers and the size rule,
and `rtp`, `h264` and `aac` the layers of the live stream. Every duration the protocol needs is a
named constant in `timing`; the caller owns the timers.

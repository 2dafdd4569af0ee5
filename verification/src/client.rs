//! What a client decides, apart from its sockets, its radio and its codec.
//!
//! [`ble`] holds the decisions of a BLE central: which characteristics to use, how to route
//! notifications, and what each reply means to the operation that waits for it. [`fileapi`] holds
//! those of the Wi-Fi file client, and [`opus`] the audio framing round the codec. The caller
//! performs the input and output and hands back what came of it.
pub mod ble;
pub mod fileapi;
pub mod opus;

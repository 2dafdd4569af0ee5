//! The recommended durations, in milliseconds, named.
//!
//! Nothing here measures time: the client owns every timer, and this is what to set it to.
use vstd::prelude::*;

verus! {

/// From the link coming up to the unsolicited `0x95`.
pub const CAPABILITIES_PUSH_DELAY: u64 = 30;

/// From a `0x22` photo command to the image stream, typically.
pub const PHOTO_CAPTURE_TYPICAL: u64 = 2_400;

/// From a Wi-Fi open to the `0x25` that names the access point, typically.
pub const SSID_ARRIVAL_TYPICAL: u64 = 2_500;

/// The wait after the SSID arrives: the access point accepts no associations before it.
pub const SSID_SETTLE: u64 = 2_000;

/// How long a wake-word capture is silent before it is over.
pub const VOICE_IDLE_GAP: u64 = 1_200;

/// How long the microphone stays open at most.
pub const VOICE_HARD_CAP: u64 = 30_000;

/// Between the two `0x56` writes that close the microphone.
pub const VOICE_INTERRUPT_REPEAT_GAP: u64 = 500;

} // verus!

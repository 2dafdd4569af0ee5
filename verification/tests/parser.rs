//! Control bytes to events, on captured frames.

use luma_core::frame::{Residual, decode_device, encode_device};
use luma_core::opcodes::{
    AppCommand, DeviceUpload, Evidence, GestureAction, GestureSlot, VolumeChannel,
};
use luma_core::parser::{
    ActionSync, BatteryReading, BatterySource, Capabilities, CountSource, DeviceAction,
    DeviceEvent, Identity, MAX_PLAUSIBLE_RECORD_SECONDS, MIN_PLAUSIBLE_RECORD_SECONDS,
    MalformedReason, MediaCount, Orientation, Parser, SwitchReport, SwitchStates, Versions,
    VoiceFeatures, Volumes, WifiCredentials, WifiService, parse,
};
use luma_core::voice::{EndCause, VoiceEvent};

/// A captured voice frame: forty payload bytes.
const VOICE: &str = "ac55002a464b410516aed2dea71b251b88ee731dbd78b1d8b1c98f\
                     d34a354f35796e124b53043ab2000000000077";

const BURST: &[&str] = &[
    "ac550003013132",   // LED '1'
    "ac55000402003c3e", // record 60 s
    "ac550003043135",   // wear detect '1'
    "ac550003063137",   // voice command '1'
    "ac550003073037",   // swipe forward '0'
    "ac550003083139",   // swipe back '1'
    "ac55000309323b",   // single tap '2'
    "ac550003103444",   // double tap '4'
    "ac550003113344",   // triple tap '3'
    "ac550003613091",   // orientation '0'
];

const CONNECT: &[&str] = &[
    "ac550006950000040ba4",       // capability push, ~30 ms after link-up
    "ac550008591a071b140334e0",   // phone-time echo
    "ac550009550104080103010269", // versions
    "ac55000a645431000030333033af", // identity
    "ac550005173a300182",         // battery 100 %, charging
    "ac550003013132",             // ── 0x48 burst ──
    "ac5500040200b4b6",
    "ac550003043135",
    "ac550003063137",
    "ac550003073037",
    "ac550003083139",
    "ac55000309323b",
    "ac550003103444",
    "ac550003113344",
    "ac550003613091",
    "ac55000c450000000000000001000046", // action sync, music playing
    "ac550005690b0b0f8e",               // volumes
    "ac55000442001254",                 // 18 files waiting
];

fn hex(s: &str) -> Vec<u8> {
    let s: String = s.chars().filter(|c| !c.is_whitespace()).collect();
    assert!(s.len() % 2 == 0, "hex literal must be byte-aligned");
    (0..s.len() / 2)
        .map(|i| u8::from_str_radix(&s[i * 2..i * 2 + 2], 16).expect("valid hex"))
        .collect()
}

/// Decode a frame lifted verbatim from a capture, and assert on the way through that it
/// re-encodes byte-for-byte — so a typo in a golden vector fails here rather than
/// producing a confidently wrong event.
fn event(frame_hex: &str) -> DeviceEvent {
    let bytes = hex(frame_hex);
    let frame = decode_device(&bytes).unwrap_or_else(|e| panic!("{frame_hex}: {e:?}"));
    assert_eq!(
        encode_device(frame.cmd, &frame.data),
        bytes,
        "{frame_hex} does not round-trip"
    );
    parse(&frame)
}

fn battery(e: DeviceEvent) -> BatteryReading {
    match e {
        DeviceEvent::Battery(b) => b,
        other => panic!("expected a battery reading, got {other:?}"),
    }
}

/// The strongest evidence in this file: two different encodings of the SAME quantity,
/// captured from the same units minutes apart, agreeing.
///
/// `eyevue_1` charging in the high forties, `eyevue_2` charging in the mid sixties,
/// `glassx_1` discharging through the low twenties — in each capture the ASCII `0x17`
/// reply and the raw `0x53` push track one another. A field-order or encoding mistake
/// in either decoder breaks the agreement, which is why this is one test and not two.
#[test]
fn the_two_battery_encodings_agree_across_three_captures() {
    // (0x17 read-reply frame, 0x53 push frame, percent, charging, capture) — every
    // string below is verbatim from a capture, both columns.
    let pairs: &[(&str, &str, u8, bool, &str)] = &[
        ("ac5500051734390185", "ac55000453013185", 49, true, "eyevue_1"),
        ("ac550005173530017d", "ac55000453013286", 50, true, "eyevue_1"),
        ("ac5500051736340182", "ac55000453014094", 64, true, "eyevue_2"),
        ("ac550005173232007b", "ac55000453001669", 22, false, "glassx_1"),
    ];
    for (read, push, percent, charging, capture) in pairs {
        let r = battery(event(read));
        assert_eq!(r.percent, *percent, "{capture} read reply");
        assert_eq!(r.charging, *charging, "{capture} read reply");
        assert_eq!(r.source, BatterySource::ReadReply);

        let p = battery(event(push));
        assert_eq!(p.percent, *percent, "{capture} push");
        assert_eq!(p.charging, *charging, "{capture} push");
        assert_eq!(p.source, BatterySource::Push);

        // The encodings differ in every respect except the answer. The read carries
        // the percentage as two `0x30 + n` digits with charging LAST; the push carries
        // it as one raw byte with charging FIRST. Reading either layout with the
        // other's rules yields a number that still looks like a battery.
        let (read, push) = (hex(read), hex(push));
        assert_eq!((read[5] - b'0') * 10 + (read[6] - b'0'), *percent);
        assert_eq!(read[7], u8::from(*charging));
        assert_eq!(push[6], *percent);
        assert_eq!(push[5], u8::from(*charging));
    }
}

/// Every distinct `0x53` push in the captures, decoded. Three units, two charge
/// directions, eleven distinct payloads — and the percent is a RAW byte in all of them,
/// which is the field `0x17` encodes as ASCII.
#[test]
fn every_captured_battery_push_decodes_with_the_fields_in_push_order() {
    let cases: &[(&str, u8, bool)] = &[
        ("ac55000453013185", 49, true),  // eyevue_1
        ("ac55000453013286", 50, true),  // eyevue_1
        ("ac55000453013387", 51, true),  // eyevue_1
        ("ac55000453014094", 64, true),  // eyevue_2
        ("ac55000453014195", 65, true),  // eyevue_2
        ("ac55000453014296", 66, true),  // eyevue_2
        ("ac55000453001467", 20, false), // glassx_1
        ("ac55000453001568", 21, false), // glassx_1
        ("ac55000453001669", 22, false), // glassx_1
        ("ac5500045300176a", 23, false), // glassx_1
        ("ac5500045300186b", 24, false), // glassx_1
    ];
    for (h, percent, charging) in cases {
        let b = battery(event(h));
        assert_eq!((b.percent, b.charging), (*percent, *charging), "{h}");
    }
}

/// The bug that froze the readout. At 100 % the tens digit overflows `'9'` to `0x3A`;
/// a text parse returns nothing for `':'` and drops the frame, so the battery sticks at
/// whatever it last read. 44 consecutive replies in `client_1`/`_2`/`_3` are this frame.
#[test]
fn one_hundred_percent_arrives_as_a_digit_overflow_and_still_decodes() {
    let b = battery(event("ac550005173a300182"));
    assert_eq!(b.percent, 100);
    assert!(b.charging);
    // The tens byte is not an ASCII digit at all — that is the whole point.
    assert!(!hex("ac550005173a300182")[5].is_ascii_digit());
}

#[test]
fn an_impossible_battery_percentage_is_malformed_rather_than_clamped() {
    // 0x17: tens = 10, ones = 5 → 105 %.
    let bytes = encode_device(AppCommand::GetBattery.code(), &[0x3A, 0x35, 0x01]);
    assert!(matches!(
        parse(&decode_device(&bytes).unwrap()),
        DeviceEvent::Malformed {
            reason: MalformedReason::OutOfRange,
            ..
        }
    ));
    // 0x17: a byte below '0' would underflow a naive subtraction.
    let bytes = encode_device(AppCommand::GetBattery.code(), &[0x20, 0x30, 0x00]);
    assert!(matches!(
        parse(&decode_device(&bytes).unwrap()),
        DeviceEvent::Malformed { .. }
    ));
    // 0x53: raw 200 %.
    let bytes = encode_device(DeviceUpload::ChargeBattery.code(), &[0x01, 200]);
    assert!(matches!(
        parse(&decode_device(&bytes).unwrap()),
        DeviceEvent::Malformed {
            reason: MalformedReason::OutOfRange,
            ..
        }
    ));
    // Short payloads say so, and say how short.
    let bytes = encode_device(AppCommand::GetBattery.code(), &[0x34, 0x39]);
    assert_eq!(
        parse(&decode_device(&bytes).unwrap()),
        DeviceEvent::Malformed {
            cmd: 0x17,
            data: vec![0x34, 0x39],
            reason: MalformedReason::TooShort { need: 3 },
        }
    );
}

#[test]
fn the_captured_version_and_identity_frames_decode_to_the_unit_under_test() {
    assert_eq!(
        event("ac550009550104080103010269"),
        DeviceEvent::Versions(Versions {
            bt: [1, 4, 8],
            isp: [1, 3, 1],
            hardware: 2,
        })
    );
    // 8 bytes, 4 + 4, NUL-padded: "T1\0\0" then "0303".
    assert_eq!(
        event("ac55000a645431000030333033af"),
        DeviceEvent::Identity(Identity {
            project: "T1".into(),
            customer: "0303".into(),
        })
    );
}

/// The capability word is carried, not interpreted. Seventeen frames across six
/// captures, one distinct value — which pins the hardware, not the bit meanings.
#[test]
fn the_capability_word_is_kept_opaque() {
    let e = event("ac550006950000040ba4");
    let DeviceEvent::Capabilities(c) = e else {
        panic!("expected capabilities, got {e:?}");
    };
    assert_eq!(c.raw, 0x0000_040B);
    assert_eq!(c.raw, Capabilities::KNOWN_E09);
    assert!(c.is_known_configuration());
    // Big-endian, and it matters: read the other way this word is 0x0B040000.
    assert_ne!(c.raw, u32::from_le_bytes([0x00, 0x00, 0x04, 0x0B]));
    // Four bits are set and the vendor shows four true flags — recorded as an
    // observation, deliberately not turned into a mapping.
    assert_eq!(c.raw.count_ones(), 4);
    // A different unit is not an error, just an unknown configuration.
    assert!(!Capabilities { raw: 0 }.is_known_configuration());
}

#[test]
fn the_voice_disable_bitmap_is_reported_as_all_enabled_only_at_zero() {
    assert_eq!(
        event("ac550003710071"),
        DeviceEvent::VoiceFeatures(VoiceFeatures { raw: 0 })
    );
    assert!(VoiceFeatures { raw: 0 }.all_enabled());
    assert!(!VoiceFeatures { raw: 0x01 }.all_enabled());
}

/// Two-byte BIG-endian, taken from seven captures. `0x0012` is 18, not 4,608.
#[test]
fn captured_media_counts_are_big_endian() {
    for (h, n) in [
        ("ac55000442000648", 6u16),
        ("ac55000442000749", 7),
        ("ac5500044200084a", 8),
        ("ac55000442000f51", 15),
        ("ac55000442001052", 16),
        ("ac55000442001254", 18),
        ("ac55000442001355", 19),
    ] {
        assert_eq!(
            event(h),
            DeviceEvent::MediaCount(MediaCount {
                count: n,
                source: CountSource::Push,
            }),
            "{h}"
        );
    }
}

#[test]
fn the_file_count_read_reply_is_labelled_inferred_because_no_capture_holds_one() {
    let bytes = encode_device(AppCommand::GetFileCount.code(), &[0x00, 0x0F]);
    assert_eq!(
        parse(&decode_device(&bytes).unwrap()),
        DeviceEvent::MediaCount(MediaCount {
            count: 15,
            source: CountSource::ReadReply,
        })
    );
}

/// The reply ORDER is what this pins. `eyevue_1` wrote `70 01 07`, `70 00 06`,
/// `70 02 06` — media, system, call — and read back `06 07 06`, which is
/// `[system, media, call]` and not the order the writes went out in.
#[test]
fn the_captured_volume_reply_is_system_media_call() {
    let e = event("ac550005690607067c");
    let DeviceEvent::Volumes(v) = e else {
        panic!("expected volumes, got {e:?}");
    };
    assert_eq!((v.system, v.media, v.call), (6, 7, 6));
    assert_eq!(v.level(VolumeChannel::System), 6);
    assert_eq!(v.level(VolumeChannel::Media), 7);
    assert_eq!(v.level(VolumeChannel::Call), 6);
    // The scale is not normalised. Captured levels run to 0x10 with no maximum ever
    // observed, so dividing by a guessed maximum here would be a slider that lies.
    let e = event("ac550005690c100f94");
    assert_eq!(
        e,
        DeviceEvent::Volumes(Volumes {
            system: 0x0C,
            media: 0x10,
            call: 0x0F,
        })
    );
}

#[test]
fn the_captured_ssid_has_no_nul_terminator_despite_the_spec() {
    let bytes = hex("ac55000f2544482d5477492d34363431453467");
    let frame = decode_device(&bytes).expect("ssid frame decodes");
    assert_eq!(frame.data.len(), 13);
    assert!(!frame.data.contains(&0), "no terminator on this firmware");

    let e = parse(&frame);
    let DeviceEvent::WifiCredentials(w) = e else {
        panic!("expected credentials, got {e:?}");
    };
    assert_eq!(w.ssid, "DH-TwI-4641E4");
    assert_eq!(w.passphrase(), "12345678");

    // A NUL-padded variant — which no capture holds — decodes to the same SSID, which
    // is the entire reason the defensive cleaning is kept.
    let padded = encode_device(DeviceUpload::WifiName.code(), b"DH-TwI-4641E4\0\0\0");
    assert_eq!(parse(&decode_device(&padded).unwrap()), DeviceEvent::WifiCredentials(w));
}

#[test]
fn an_ssid_that_cleans_to_nothing_is_malformed_rather_than_joinable() {
    let bytes = encode_device(DeviceUpload::WifiName.code(), &[0x00, 0x00, 0x00]);
    assert!(matches!(
        parse(&decode_device(&bytes).unwrap()),
        DeviceEvent::Malformed {
            reason: MalformedReason::NotText,
            ..
        }
    ));
}

/// Both Wi-Fi opens ack with `01`, NOT the `0x30`/`0x31` mode byte the app sent. Code
/// that reads its own mode back out of the ack is reading a constant, and the two
/// captures below are what says so.
#[test]
fn the_wifi_open_ack_is_zero_one_not_the_mode_byte_we_sent() {
    assert_eq!(
        event("ac55000339013a"),
        DeviceEvent::WifiOpening {
            serves: WifiService::Files,
            raw: 0x01,
        }
    );
    assert_eq!(
        event("ac550003670168"),
        DeviceEvent::WifiOpening {
            serves: WifiService::Live,
            raw: 0x01,
        }
    );
    assert_eq!(WifiService::Files.command(), AppCommand::OpenWifiFiles);
    assert_eq!(WifiService::Live.command(), AppCommand::OpenWifiLive);
}

#[test]
fn every_captured_action_sync_pattern_decodes_to_the_flags_that_fired() {
    let cases: &[(&str, &[DeviceAction], &str)] = &[
        ("ac55000c450000000000000000000045", &[], "idle, 35 frames"),
        (
            "ac55000c450100000000000000000046",
            &[DeviceAction::TakePhoto],
            "photo — eyevue_1, eyevue_2, glassx_1",
        ),
        (
            "ac55000c450001000000000000000046",
            &[DeviceAction::AudioRecord],
            "voice recording — eyevue_1, eyevue_2, glassx_1",
        ),
        (
            "ac55000c450000010000000000000046",
            &[DeviceAction::VideoRecord],
            "video — eyevue_1",
        ),
        (
            "ac55000c450000000000000001000046",
            &[DeviceAction::PlayPause],
            "music playing — 17 frames, 5 captures",
        ),
        (
            "ac55000c450000000000000000000146",
            &[DeviceAction::ImportingMode],
            "wi-fi session open — eyevue_1, eyevue_4",
        ),
        (
            "ac55000c450000000100000001000047",
            &[DeviceAction::VolumeUp, DeviceAction::PlayPause],
            "touchpad volume up while playing — eyevue_3, client_1",
        ),
        (
            "ac55000c450000000001000001000047",
            &[DeviceAction::VolumeDown, DeviceAction::PlayPause],
            "touchpad volume down while playing — eyevue_3, client_1",
        ),
    ];
    for (h, expect, why) in cases {
        let e = event(h);
        let DeviceEvent::ActionSync(a) = e else {
            panic!("{why}: expected action sync, got {e:?}");
        };
        assert_eq!(a.active(), *expect, "{why}");
    }
}

/// Three of the ten flags have never been set on any device we hold, across all 85
/// captured frames. They stay in the enum — the byte position is real — but they are
/// labelled, because a UI bound to one renders a state the hardware has never reported.
#[test]
fn the_three_action_flags_that_have_never_fired_are_labelled_client_only() {
    let unproven: Vec<DeviceAction> = DeviceAction::ALL
        .into_iter()
        .filter(|a| a.evidence() != Evidence::Capture)
        .collect();
    assert_eq!(
        unproven,
        vec![
            DeviceAction::NodHead,
            DeviceAction::ShakeHead,
            DeviceAction::WearingDetection,
        ]
    );
    assert_eq!(DeviceAction::ImportingMode.index(), 9);
    assert_eq!(DeviceAction::from_index(9), Some(DeviceAction::ImportingMode));
    assert_eq!(DeviceAction::from_index(10), None);
}

#[test]
fn a_nine_byte_action_sync_is_malformed_rather_than_guessed_at() {
    let bytes = encode_device(DeviceUpload::ActionSync.code(), &[0u8; 9]);
    assert_eq!(
        parse(&decode_device(&bytes).unwrap()),
        DeviceEvent::Malformed {
            cmd: 0x45,
            data: vec![0; 9],
            reason: MalformedReason::TooShort { need: 10 },
        }
    );
}

#[test]
fn the_captured_switch_burst_fills_every_field_including_all_five_gestures() {
    let mut states = SwitchStates::new();
    let mut parser = Parser::new();
    let blob: Vec<u8> = BURST.iter().flat_map(|h| hex(h)).collect();
    let events = parser.push(&blob);
    assert_eq!(events.len(), 10, "the burst is ten frames");
    for e in &events {
        assert!(states.ingest(e), "every burst frame is a settings frame: {e:?}");
    }

    assert_eq!(states.led(), Some(1));
    assert_eq!(states.record_seconds(), Some(60));
    assert_eq!(states.wear_detection(), Some(true));
    assert_eq!(states.voice_command(), Some(true));
    assert_eq!(states.orientation(), Some(Orientation::Portrait));
    assert_eq!(states.gesture(GestureSlot::SwipeForward), Some(GestureAction::VolumeDown));
    assert_eq!(states.gesture(GestureSlot::SwipeBack), Some(GestureAction::VolumeUp));
    assert_eq!(states.gesture(GestureSlot::SingleTap), Some(GestureAction::PlayPause));
    assert_eq!(states.gesture(GestureSlot::DoubleTap), Some(GestureAction::PreviousTrack));
    assert_eq!(states.gesture(GestureSlot::TripleTap), Some(GestureAction::NextTrack));
    assert!(states.is_complete());
    // No frame in the burst is keyed 0x48 — the request opcode never comes back.
    assert!(!blob.windows(5).any(|w| w[0] == 0xAC && w[1] == 0x55 && w[4] == 0x48));
}

#[test]
fn a_burst_missing_its_gesture_frames_is_not_complete_here() {
    let mut states = SwitchStates::new();
    for h in [
        "ac550003013132",
        "ac55000402003c3e",
        "ac550003043135",
        "ac550003063137",
        "ac550003613091",
    ] {
        states.ingest(&event(h));
    }
    assert_eq!(states.led(), Some(1));
    assert_eq!(states.orientation(), Some(Orientation::Portrait));
    // …and we still do not know what a double tap does.
    assert!(!states.is_complete());
    assert_eq!(states.gesture(GestureSlot::DoubleTap), None);
}

#[test]
fn the_five_gesture_frames_decode_and_are_exactly_the_android_gap() {
    let cases: [(&str, GestureSlot, GestureAction); 5] = [
        ("ac550003073037", GestureSlot::SwipeForward, GestureAction::VolumeDown),
        ("ac550003083139", GestureSlot::SwipeBack, GestureAction::VolumeUp),
        ("ac55000309323b", GestureSlot::SingleTap, GestureAction::PlayPause),
        ("ac550003103444", GestureSlot::DoubleTap, GestureAction::PreviousTrack),
        ("ac550003113344", GestureSlot::TripleTap, GestureAction::NextTrack),
    ];
    for (h, slot, action) in cases {
        assert_eq!(
            event(h),
            DeviceEvent::GestureBinding {
                slot,
                action: Some(action),
                raw: action.ascii(),
            },
            "{h}"
        );
    }
    // The captured defaults, in burst order, are the '0 1 2 4 3' every unit reports.
    let raws: Vec<u8> = cases.iter().map(|(_, _, a)| a.ascii()).collect();
    assert_eq!(raws, GestureSlot::CAPTURED_DEFAULTS);
}

/// A binding outside the known set keeps its byte and reports no action. Guessing here
/// would tell the user their double tap skips a track when nobody knows what it does.
#[test]
fn an_unmapped_gesture_value_keeps_its_byte_instead_of_guessing() {
    let bytes = encode_device(AppCommand::SetGestureDoubleTap.code(), b"9");
    assert_eq!(
        parse(&decode_device(&bytes).unwrap()),
        DeviceEvent::GestureBinding {
            slot: GestureSlot::DoubleTap,
            action: None,
            raw: b'9',
        }
    );
    let mut states = SwitchStates::new();
    states.ingest(&parse(&decode_device(&bytes).unwrap()));
    assert_eq!(states.gesture(GestureSlot::DoubleTap), None);
    assert_eq!(states.gesture_raw(GestureSlot::DoubleTap), Some(b'9'));
}

#[test]
fn all_three_captured_led_levels_decode_and_a_fourth_is_out_of_range() {
    assert_eq!(event("ac550003013031"), DeviceEvent::Switch(SwitchReport::Led(0)));
    assert_eq!(event("ac550003013132"), DeviceEvent::Switch(SwitchReport::Led(1)));
    assert_eq!(event("ac550003013233"), DeviceEvent::Switch(SwitchReport::Led(2)));
    let bytes = encode_device(AppCommand::SetLed.code(), b"3");
    assert!(matches!(
        parse(&decode_device(&bytes).unwrap()),
        DeviceEvent::Malformed {
            reason: MalformedReason::OutOfRange,
            ..
        }
    ));
}

/// `0x02` is the one burst value that is a 2-byte integer rather than an ASCII digit.
/// All three captured durations, plus the guard that stops a corrupt one being adopted
/// and then written back to the hardware by the settings slider.
#[test]
fn record_duration_is_big_endian_seconds_and_implausible_values_are_not_adopted() {
    for (h, secs) in [
        ("ac55000402003c3e", 60u16),
        ("ac55000402005a5c", 90),
        ("ac5500040200b4b6", 180),
    ] {
        assert_eq!(
            event(h),
            DeviceEvent::Switch(SwitchReport::RecordSeconds(secs)),
            "{h}"
        );
    }
    let mut states = SwitchStates::new();
    // The decode is honest about what arrived…
    let bytes = encode_device(AppCommand::SetRecordDuration.code(), &[0xFF, 0xFF]);
    let e = parse(&decode_device(&bytes).unwrap());
    assert_eq!(e, DeviceEvent::Switch(SwitchReport::RecordSeconds(65535)));
    assert!(states.ingest(&e));
    assert_eq!(states.record_seconds(), None);
    assert!(states.ingest(&event("ac55000402003c3e")));
    assert_eq!(states.record_seconds(), Some(60));
}

#[test]
fn binary_settings_reject_a_value_that_is_neither_zero_nor_one() {
    assert_eq!(
        event("ac550003043135"),
        DeviceEvent::Switch(SwitchReport::WearDetection(true))
    );
    assert_eq!(
        event("ac550003063137"),
        DeviceEvent::Switch(SwitchReport::VoiceCommand(true))
    );
    assert_eq!(
        event("ac550003613091"),
        DeviceEvent::Switch(SwitchReport::Orientation(Orientation::Portrait))
    );
    // Landscape has never been captured — the encoding is the same field, inverted.
    let bytes = encode_device(AppCommand::Orientation.code(), b"1");
    assert_eq!(
        parse(&decode_device(&bytes).unwrap()),
        DeviceEvent::Switch(SwitchReport::Orientation(Orientation::Landscape))
    );
    for cmd in [AppCommand::WearDetection.code(), AppCommand::VoiceCommand.code(), AppCommand::Orientation.code()] {
        let bytes = encode_device(cmd, b"2");
        assert!(
            matches!(
                parse(&decode_device(&bytes).unwrap()),
                DeviceEvent::Malformed {
                    reason: MalformedReason::OutOfRange,
                    ..
                }
            ),
            "{cmd:#04x} accepted a third value"
        );
    }
    // A raw 0/1 decodes too, for a firmware variant that omits the ASCII offset.
    let bytes = encode_device(AppCommand::WearDetection.code(), &[0x00]);
    assert_eq!(
        parse(&decode_device(&bytes).unwrap()),
        DeviceEvent::Switch(SwitchReport::WearDetection(false))
    );
}

#[test]
fn a_captured_voice_frame_is_carried_verbatim_and_opens_a_capture() {
    let mut parser = Parser::new();
    assert!(!parser.is_capturing());

    // 0x97 opens the capture.
    let events = parser.push(&hex("ac550003970198"));
    assert_eq!(events, vec![DeviceEvent::Voice(VoiceEvent::Started)]);
    assert!(parser.is_capturing());

    let events = parser.push(&hex(VOICE));
    let [DeviceEvent::Voice(VoiceEvent::Packet(p))] = events.as_slice() else {
        panic!("expected one packet, got {events:?}");
    };
    assert_eq!(p.payload.len(), 40, "every captured voice payload is 40 bytes");
    assert_eq!(p.payload[0], 0x4B, "Opus TOC — parsed, never decoded, in this crate");
    assert_eq!(p.index, 0);

    // Bare `parse` cannot do this and says so rather than guessing: the frame comes
    // back as a routing instruction.
    let frame = decode_device(&hex(VOICE)).unwrap();
    assert!(matches!(parse(&frame), DeviceEvent::VoiceFrame { cmd: 0x46, .. }));
}

/// A `0x46` with no preceding `0x97` recovers the capture rather than dropping the
/// utterance. On this firmware the stream does not restart, so a dropped head is a
/// dropped wake word.
///
/// The rule itself lives in the voice machine and is tested there; this asserts the
/// [`Parser`] seam actually routes through it, which is the property that keeps the
/// rule from being written a second time.
#[test]
fn a_voice_chunk_with_no_start_packet_recovers_the_capture() {
    let mut parser = Parser::new();
    let events = parser.push(&hex(VOICE));
    assert_eq!(events.len(), 2);
    assert_eq!(events[0], DeviceEvent::Voice(VoiceEvent::StartedRecovered));
    assert!(matches!(
        events[1],
        DeviceEvent::Voice(VoiceEvent::Packet(_))
    ));
    assert!(parser.is_capturing());

    // The second chunk is just a packet — recovery happens once.
    let events = parser.push(&hex(VOICE));
    assert_eq!(events.len(), 1);
}

/// `0x99` is never sent by this firmware, and when it is synthesised (by a test, or a
/// future firmware) it must not END a capture that never began — that would flush an
/// empty utterance into the recogniser. It is reported as ignored rather than dropped,
/// so a router's coverage stays assertable.
#[test]
fn a_voice_end_with_no_capture_open_reports_ignored_rather_than_an_end() {
    let mut parser = Parser::new();
    let end = encode_device(DeviceUpload::VoiceUploadEnd.code(), &[0x00]);
    assert_eq!(parser.push(&end), vec![DeviceEvent::Voice(VoiceEvent::Ignored)]);

    parser.push(&hex("ac550003970198"));
    assert_eq!(
        parser.push(&end),
        vec![DeviceEvent::Voice(VoiceEvent::Ended(EndCause::DeviceSignalled))]
    );
    assert!(!parser.is_capturing());
    assert_eq!(parser.push(&end), vec![DeviceEvent::Voice(VoiceEvent::Ignored)]);
}

/// The mic closes on an app WRITE, so the parser has to be told. Nothing inbound
/// announces it: four captures totalling 14,636 voice frames contain no `0x99` and no
/// gap, and a parser that waits to observe the close waits forever.
#[test]
fn only_an_app_side_close_ends_the_capture_from_the_parsers_point_of_view() {
    let mut parser = Parser::new();
    parser.push(&hex("ac550003970198"));
    assert!(parser.is_capturing());
    assert_eq!(
        parser.close_voice(EndCause::Interrupted),
        vec![DeviceEvent::Voice(VoiceEvent::Ended(EndCause::Interrupted))]
    );
    assert!(!parser.is_capturing());
    // Closing again says nothing happened rather than inventing a second end.
    assert_eq!(
        parser.close_voice(EndCause::Interrupted),
        vec![DeviceEvent::Voice(VoiceEvent::Ignored)]
    );

    // Reset clears the capture state as well as the frame buffer — a stale "capturing"
    // across a reconnect swallows the next session's recovered start.
    parser.push(&hex("ac550003970198"));
    parser.push(&[0xAC, 0x55, 0x00]);
    assert_eq!(parser.buffered(), &[0xAC, 0x55, 0x00]);
    parser.reset();
    assert!(!parser.is_capturing());
    assert!(parser.buffered().is_empty());
}

#[test]
fn an_abandon_frame_drops_the_open_capture() {
    let mut parser = Parser::new();
    parser.push(&hex("ac550003970198"));
    let bytes = encode_device(DeviceUpload::AbandonVoice.code(), &[0x00]);
    assert_eq!(parser.push(&bytes), vec![DeviceEvent::VoiceAbandoned]);
    assert!(!parser.is_capturing());
}

/// Setter echoes carry no state and arrive as acks with their payload intact. Every
/// frame below is a real capture line — including `0x24`, whose echo is `00` where
/// `0x23`'s is `01`, which is the kind of asymmetry a hand-written expectation gets
/// wrong.
#[test]
fn captured_setter_echoes_arrive_as_typed_acks() {
    let cases: &[(&str, AppCommand, &[u8])] = &[
        ("ac550003220123", AppCommand::TakePhoto, &[0x01]),
        ("ac550003230124", AppCommand::StartVideo, &[0x01]),
        ("ac550003240024", AppCommand::StopVideo, &[0x00]),
        ("ac550003300131", AppCommand::SwitchMusic, &[0x01]),
        ("ac550003310031", AppCommand::PlayPause, &[0x00]),
        ("ac550003320133", AppCommand::Volume, &[0x01]),
        ("ac550003340135", AppCommand::VoiceRecording, &[0x01]),
        ("ac550003560056", AppCommand::InterruptVoice, &[0x00]),
        ("ac55000444300175", AppCommand::FileDownloadComplete, &[0x30, 0x01]),
        (
            "ac550008591a071b122812e1",
            AppCommand::SendPhoneTime,
            &[0x1A, 0x07, 0x1B, 0x12, 0x28, 0x12],
        ),
    ];
    for (h, command, data) in cases {
        assert_eq!(
            event(h),
            DeviceEvent::Ack {
                command: *command,
                data: data.to_vec(),
            },
            "{h}"
        );
    }
}

/// The `0x36` probe reply. It is an ACK that echoes the index it was given — and the
/// payload is kept precisely because for this opcode the echoed byte is the entire
/// result. No data ever follows it; the ack exists and the data path does not.
#[test]
fn the_image_pull_probe_reply_keeps_the_echoed_index() {
    for index in [0x00u8, 0x01, 0x02, 0x05] {
        let bytes = encode_device(AppCommand::PullImage.code(), &[index]);
        assert_eq!(
            parse(&decode_device(&bytes).unwrap()),
            DeviceEvent::Ack {
                command: AppCommand::PullImage,
                data: vec![index],
            }
        );
    }
    assert_eq!(AppCommand::PullImage.evidence(), Evidence::DeviceProbe);
}

/// A byte in neither table is reported with its payload, not dropped. That is what
/// makes probing an unknown opcode possible without first enshrining it — and the
/// `0xEE`/`0xDE` controls in the documented probe method are exactly this path.
#[test]
fn an_unknown_opcode_is_reported_with_its_bytes_rather_than_guessed() {
    for cmd in [0xEEu8, 0xDE, 0x03, 0x16, 0x35, 0x43, 0x50] {
        let bytes = encode_device(cmd, &[0x12, 0x34]);
        assert_eq!(
            parse(&decode_device(&bytes).unwrap()),
            DeviceEvent::Unrecognised {
                cmd,
                data: vec![0x12, 0x34],
            },
            "{cmd:#04x}"
        );
    }
}

/// Every opcode either decodes to a typed event or is explicitly an ack — nothing in
/// the union falls into `Unrecognised`, which is what "one table, no thirteenth gap"
/// means in practice.
#[test]
fn no_opcode_in_either_table_decodes_as_unrecognised() {
    for cmd in AppCommand::ALL
        .iter()
        .map(|c| c.code())
        .chain(DeviceUpload::ALL.iter().map(|u| u.code()))
    {
        // A generous payload so no decode fails for length; the point is the dispatch.
        let bytes = encode_device(cmd, &[0x30; 16]);
        let e = parse(&decode_device(&bytes).unwrap());
        assert!(
            !matches!(e, DeviceEvent::Unrecognised { .. }),
            "{cmd:#04x} fell through the dispatch: {e:?}"
        );
    }
}

#[test]
fn the_captured_connect_sequence_parses_end_to_end_from_one_blob() {
    let blob: Vec<u8> = CONNECT.iter().flat_map(|h| hex(h)).collect();

    let mut parser = Parser::new();
    let (events, residual) = parser.push_detailed(&blob);
    assert_eq!(events.len(), CONNECT.len());
    assert_eq!(residual, Residual::Empty);
    assert!(!events.iter().any(|e| matches!(
        e,
        DeviceEvent::Malformed { .. } | DeviceEvent::Unrecognised { .. }
    )));

    let mut states = SwitchStates::new();
    for e in &events {
        states.ingest(e);
    }
    assert!(states.is_complete(), "the burst filled every field");
    assert_eq!(states.record_seconds(), Some(180));
    assert_eq!(states.gesture(GestureSlot::TripleTap), Some(GestureAction::NextTrack));

    assert!(events.contains(&DeviceEvent::Battery(BatteryReading {
        percent: 100,
        charging: true,
        source: BatterySource::ReadReply,
    })));
    assert!(events.contains(&DeviceEvent::Capabilities(Capabilities {
        raw: Capabilities::KNOWN_E09,
    })));
    assert!(events.contains(&DeviceEvent::Volumes(Volumes {
        system: 0x0B,
        media: 0x0B,
        call: 0x0F,
    })));
    assert!(events.contains(&DeviceEvent::MediaCount(MediaCount {
        count: 18,
        source: CountSource::Push,
    })));

    for cut in 1..blob.len() {
        let mut parser = Parser::new();
        let mut got = parser.push(&blob[..cut]);
        got.extend(parser.push(&blob[cut..]));
        assert_eq!(got, events, "split at {cut}");
    }
}

/// `AA15` interleaves `52 58` file bytes with control frames, so bytes that are not
/// ours come BACK rather than being dropped — dropping them loses image data.
#[test]
fn file_stream_bytes_are_handed_back_instead_of_parsed() {
    let mut parser = Parser::new();
    let mut stream = hex("ac550003970198");
    stream.extend_from_slice(&[0x52, 0x58, 0x00, 0x07]);
    let (events, residual) = parser.push_detailed(&stream);
    assert_eq!(events, vec![DeviceEvent::Voice(VoiceEvent::Started)]);
    assert_eq!(residual, Residual::Foreign(vec![0x52, 0x58, 0x00, 0x07]));
}

#[test]
fn every_percentage_reads_the_same_in_both_encodings() {
    for percent in 0..=100u8 {
        let read = encode_device(0x17, &[0x30 + percent / 10, 0x30 + percent % 10, 0x01]);
        let push = encode_device(0x53, &[0x01, percent]);
        let r = battery(parse(&decode_device(&read).unwrap()));
        let p = battery(parse(&decode_device(&push).unwrap()));
        assert_eq!((r.percent, r.charging), (percent, true));
        assert_eq!((p.percent, p.charging), (percent, true));
    }
}

#[test]
fn a_malformed_frame_comes_back_whole() {
    let bytes = encode_device(0x64, &[0x54, 0x31]);
    assert_eq!(
        parse(&decode_device(&bytes).unwrap()),
        DeviceEvent::Malformed {
            cmd: 0x64,
            data: vec![0x54, 0x31],
            reason: MalformedReason::TooShort { need: 8 },
        }
    );
    let bytes = encode_device(0x64, &[0x54, 0xFF, 0, 0, 0x30, 0x33, 0x30, 0x33]);
    assert!(matches!(
        parse(&decode_device(&bytes).unwrap()),
        DeviceEvent::Malformed { reason: MalformedReason::NotText, .. }
    ));
}

#[test]
fn the_pushes_without_a_payload_have_their_own_events() {
    let event_of = |cmd: u8, data: &[u8]| parse(&decode_device(&encode_device(cmd, data)).unwrap());
    assert_eq!(event_of(0x51, &[0x00]), DeviceEvent::AiBroadcastCancelled);
    assert_eq!(event_of(0x52, &[0x00]), DeviceEvent::HdImageFailed);
}

#[test]
fn the_settings_fill_in_any_order_and_other_events_leave_them_alone() {
    let mut states = SwitchStates::new();
    for h in BURST.iter().rev() {
        assert!(!states.is_complete());
        assert!(states.ingest(&event(h)));
        let before = states.clone();
        assert!(!states.ingest(&event("ac55000453013185")));
        assert_eq!(states, before);
    }
    assert!(states.is_complete());
    states.ingest(&event("ac550003013233"));
    assert!(states.is_complete(), "what is reported stays reported");
    assert_eq!(states.led(), Some(2));
    states.reset();
    assert_eq!(states, SwitchStates::new());
}

#[test]
fn the_plausible_durations_are_one_second_to_one_hour() {
    for (seconds, kept) in [(0u16, false), (1, true), (3600, true), (3601, false)] {
        let mut states = SwitchStates::new();
        let data = seconds.to_be_bytes();
        states.ingest(&parse(&decode_device(&encode_device(0x02, &data)).unwrap()));
        assert_eq!(states.record_seconds().is_some(), kept, "{seconds}");
    }
    assert_eq!(MIN_PLAUSIBLE_RECORD_SECONDS, 1);
    assert_eq!(MAX_PLAUSIBLE_RECORD_SECONDS, 3600);
}

#[test]
fn the_flags_of_an_action_sync_round_trip() {
    let mut flags = [0u8; 10];
    flags[0] = 1;
    flags[9] = 1;
    let sync = ActionSync::from_flags(&flags);
    assert!(sync.is_active(DeviceAction::TakePhoto));
    assert!(!sync.is_active(DeviceAction::VideoRecord));
    assert_eq!(sync.raw(), 0x0201);
    assert_eq!(sync.active(), vec![DeviceAction::TakePhoto, DeviceAction::ImportingMode]);
}

#[test]
fn a_field_is_cut_at_its_nul_and_trimmed() {
    let bytes = encode_device(0x25, b" \x01DH-1 \0junk");
    let e = parse(&decode_device(&bytes).unwrap());
    assert_eq!(e, DeviceEvent::WifiCredentials(WifiCredentials { ssid: "DH-1".into() }));
}

//! What the Bluetooth client decides.

use luma_core::client::ble::{
    BleError, CONTROL_ID, CaptureStep, Characteristics, EVENT_BUFFER, FILE_ID, GlassesEvent,
    HANDSHAKE_BUDGET, HANDSHAKE_WRITE_GAP, Handshake, HandshakeStep, NO_RSSI, PHOTO_BUDGET,
    PhotoStep, Pump, SERVICE_ID, SSID_BUDGET, Signal, WRITE_ID, WifiStep, capture_step,
    choose_characteristics, handshake_reads, handshake_writes, listen_window,
    microphone_close_writes, photo_step, strongest_first, wifi_step,
};
use luma_core::frame::{Frame, decode_app, encode_device};
use luma_core::parser::{
    BatteryReading, BatterySource, DeviceEvent, Volumes, WifiCredentials, parse,
};
use luma_core::reassembly::{FileAbort, FileEvent, FileOpcode, ReassembledFile, encode_file_frame};
use luma_core::voice::{EndCause, VoiceEvent, VoicePacket};

#[test]
fn the_client_looks_for_the_characteristics_the_gatt_table_names() {
    assert_eq!(SERVICE_ID, 0xAA12);
    assert_eq!(luma_core::gatt::SERVICE, "AA12");
    assert_eq!(luma_core::gatt::WRITE, "AA13");
    assert_eq!(luma_core::gatt::NOTIFY_ALL, ["AA14", "AA15"]);
    assert!(luma_core::gatt::WRITE_WITH_RESPONSE, "AA13 takes a Write Request");
}

#[test]
fn the_voice_defaults_are_the_timing_constants_and_not_local_numbers() {
    assert_eq!(luma_core::timing::VOICE_IDLE_GAP, 1200);
    assert_eq!(luma_core::timing::VOICE_HARD_CAP / 1000, 30);
    assert_eq!(luma_core::timing::VOICE_INTERRUPT_REPEAT_GAP, 500);
    assert_eq!(luma_core::timing::SSID_SETTLE / 1000, 2);
}

#[test]
fn an_incomplete_handshake_says_which_read_did_not_answer() {
    let mut h = Handshake::default();
    assert!(!h.is_complete());
    h.battery = Some(BatteryReading {
        percent: 100,
        charging: true,
        source: BatterySource::ReadReply,
    });
    assert!(!h.is_complete(), "one field is not a handshake");
    assert!(h.versions.is_none());
}

#[test]
fn the_event_buffer_holds_about_twenty_seconds_of_the_voice_stream() {
    assert!(
        EVENT_BUFFER >= 50 * 15,
        "a slow subscriber gets a real window"
    );
}

fn device(event: DeviceEvent) -> Signal {
    Signal::Event(GlassesEvent::Device(event))
}

#[test]
fn the_strongest_unit_comes_first_and_a_silent_one_last() {
    let rssi = [Some(-80), None, Some(-40), Some(-80), Some(-127)];
    assert_eq!(strongest_first(&rssi), vec![2, 0, 3, 1, 4]);
    assert_eq!(strongest_first(&[]), Vec::<usize>::new());
    assert_eq!(NO_RSSI, -127);
}

#[test]
fn a_connection_needs_the_write_and_the_control_characteristic() {
    let names = ["aa15", "aa13", "aa14"];
    let ids = [Some(FILE_ID), Some(WRITE_ID), Some(CONTROL_ID)];
    assert_eq!(
        choose_characteristics(&names, &ids),
        Some(Characteristics { write: 1, control: 2, file: Some(0) })
    );
    assert_eq!(choose_characteristics(&names[..2], &ids[..2]), None);
    assert_eq!(
        choose_characteristics(&names[1..], &ids[1..]),
        Some(Characteristics { write: 0, control: 1, file: None })
    );
    assert_eq!(choose_characteristics(&["aa14"], &[Some(CONTROL_ID)]), None);
}

#[test]
fn each_channel_goes_to_its_own_decoder() {
    let mut pump = Pump::new();
    let control = encode_device(0x97, &[0x01]);
    assert_eq!(
        pump.route(Some(CONTROL_ID), &control),
        vec![GlassesEvent::Device(DeviceEvent::Voice(VoiceEvent::Started))]
    );
    let file = encode_file_frame(FileOpcode::Info.code(), &[0, 0, 0, 4, 0x02]);
    assert_eq!(
        pump.route(Some(FILE_ID), &file),
        vec![GlassesEvent::File(FileEvent::Started { declared_total: 4, file_type: 0x02 })]
    );
    assert!(pump.route(Some(WRITE_ID), &control).is_empty());
    assert!(pump.route(None, &control).is_empty());
}

#[test]
fn a_handshake_is_done_when_every_read_has_answered() {
    let answers: [(u8, Vec<u8>); 16] = [
        (0x71, vec![0x00]),
        (0x69, vec![6, 7, 6]),
        (0x95, vec![0, 0, 4, 0x0B]),
        (0x17, vec![0x34, 0x39, 0x01]),
        (0x64, b"T1\0\x000303".to_vec()),
        (0x55, vec![1, 4, 8, 1, 3, 1, 2]),
        (0x61, b"0".to_vec()),
        (0x11, b"3".to_vec()),
        (0x10, b"4".to_vec()),
        (0x09, b"2".to_vec()),
        (0x08, b"1".to_vec()),
        (0x07, b"0".to_vec()),
        (0x06, b"1".to_vec()),
        (0x04, b"1".to_vec()),
        (0x02, vec![0x00, 0x3C]),
        (0x01, b"1".to_vec()),
    ];
    let mut h = Handshake::default();
    for (i, (cmd, data)) in answers.iter().enumerate() {
        assert!(!h.is_complete());
        assert_eq!(h.step(Signal::Lagged), HandshakeStep::Wait);
        let next = h.step(device(parse(&Frame::new(*cmd, data.clone()))));
        let want = if i + 1 == answers.len() { HandshakeStep::Done } else { HandshakeStep::Wait };
        assert_eq!(next, want, "{cmd:#04x}");
    }
    assert!(h.is_complete());
    assert_eq!(h.volumes, Some(Volumes { system: 6, media: 7, call: 6 }));
    assert_eq!(Handshake::default().step(Signal::TimedOut), HandshakeStep::Done);
    assert_eq!(Handshake::default().step(Signal::Closed), HandshakeStep::Lost);
    assert_eq!(
        Handshake::default().step(Signal::Event(GlassesEvent::Disconnected)),
        HandshakeStep::Lost
    );
}

#[test]
fn the_connection_sequence_reads_eight_things() {
    let codes: Vec<u8> =
        handshake_reads().iter().map(|f| decode_app(f).unwrap().cmd).collect();
    assert_eq!(codes, vec![0x55, 0x64, 0x17, 0x45, 0x48, 0x69, 0x95, 0x71]);
    assert_eq!(HANDSHAKE_BUDGET, 8_000);
    assert_eq!(HANDSHAKE_WRITE_GAP, 120);
}

#[test]
fn waiting_for_the_image_ends_with_the_image_or_a_reason() {
    let file = ReassembledFile { file_type: 0x02, data: vec![0xFF, 0xD8] };
    assert_eq!(
        photo_step(Signal::Event(GlassesEvent::File(FileEvent::Completed(file))), 5),
        PhotoStep::Image(vec![0xFF, 0xD8])
    );
    assert_eq!(
        photo_step(
            Signal::Event(GlassesEvent::File(FileEvent::Aborted(FileAbort::NoFileInfo))),
            5
        ),
        PhotoStep::Failed(BleError::Gatt {
            operation: "AI image".into(),
            detail: "the transfer aborted".into(),
        })
    );
    assert_eq!(
        photo_step(device(DeviceEvent::HdImageFailed), 5),
        PhotoStep::Failed(BleError::Gatt {
            operation: "AI image".into(),
            detail: "the device reported 0x52, image failed".into(),
        })
    );
    assert_eq!(photo_step(Signal::Closed, 5), PhotoStep::Failed(BleError::Disconnected));
    assert_eq!(
        photo_step(Signal::TimedOut, PHOTO_BUDGET),
        PhotoStep::Failed(BleError::Timeout { waiting_for: "the AI image".into(), after: 9_600 })
    );
    assert_eq!(photo_step(Signal::Lagged, 5), PhotoStep::Wait);
    assert_eq!(photo_step(device(DeviceEvent::VoiceAbandoned), 5), PhotoStep::Wait);
}

#[test]
fn waiting_for_the_access_point_ends_with_its_name_or_a_reason() {
    assert_eq!(
        wifi_step(device(DeviceEvent::WifiCredentials(WifiCredentials { ssid: "DH".into() })), 5),
        WifiStep::Joinable("DH".into())
    );
    assert_eq!(
        wifi_step(Signal::TimedOut, SSID_BUDGET),
        WifiStep::Failed(BleError::Timeout {
            waiting_for: "the SSID (0x25)".into(),
            after: 15_000,
        })
    );
    assert_eq!(
        wifi_step(Signal::Event(GlassesEvent::Disconnected), 5),
        WifiStep::Failed(BleError::Disconnected)
    );
    assert_eq!(wifi_step(device(DeviceEvent::HdImageFailed), 5), WifiStep::Wait);
}

#[test]
fn a_capture_collects_packets_until_it_is_closed() {
    let packet = VoicePacket { payload: vec![0x48], toc: None, index: 0 };
    let mut packets = Vec::new();
    let heard = device(DeviceEvent::Voice(VoiceEvent::Packet(packet.clone())));
    assert_eq!(capture_step(&mut packets, heard), CaptureStep::Heard);
    assert_eq!(capture_step(&mut packets, Signal::Lagged), CaptureStep::Listen);
    let started = device(DeviceEvent::Voice(VoiceEvent::Started));
    assert_eq!(capture_step(&mut packets, started), CaptureStep::Listen);
    let ended = device(DeviceEvent::Voice(VoiceEvent::Ended(EndCause::DeviceSignalled)));
    assert_eq!(capture_step(&mut packets, ended), CaptureStep::Close);
    assert_eq!(capture_step(&mut packets, Signal::TimedOut), CaptureStep::Close);
    assert_eq!(capture_step(&mut packets, Signal::Closed), CaptureStep::Lost);
    assert_eq!(packets, vec![packet]);
}

#[test]
fn listening_ends_with_the_silence_or_the_cap() {
    assert_eq!(listen_window(1_200, 30_000, 0, 0), Some(1_200));
    assert_eq!(listen_window(1_200, 30_000, 1_000, 5_000), Some(200));
    assert_eq!(listen_window(1_200, 30_000, 0, 29_500), Some(500));
    assert_eq!(listen_window(1_200, 30_000, 1_200, 5_000), None);
    assert_eq!(listen_window(1_200, 30_000, 0, 30_000), None);
}

#[test]
fn the_connection_sequence_ends_with_the_phones_time() {
    let frames = handshake_writes(2026, 7, 14, 9, 30, 59);
    let codes: Vec<u8> = frames.iter().map(|f| decode_app(f).unwrap().cmd).collect();
    assert_eq!(codes, vec![0x55, 0x64, 0x17, 0x45, 0x48, 0x69, 0x95, 0x71, 0x59]);
    assert_eq!(decode_app(&frames[8]).unwrap().data, vec![26, 7, 14, 9, 30, 59]);
    assert_eq!(frames[..8], handshake_reads()[..]);
}

#[test]
fn closing_the_microphone_takes_two_writes() {
    let frames = microphone_close_writes();
    let codes: Vec<u8> = frames.iter().map(|f| decode_app(f).unwrap().cmd).collect();
    assert_eq!(codes, vec![0x56, 0x56]);
}

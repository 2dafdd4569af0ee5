//! The command builders.

use luma_core::commands::{
    LedLevel, answer_hangup, enter_upgrade, factory_reset, file_download_complete,
    file_download_partial, get_battery, get_capabilities, get_device_status, get_file_count,
    get_project_name, get_switch_states, get_versions, get_voice_disable_state, get_volumes,
    interrupt_voice, open_wifi, play_pause, power_off_isp, reboot, retransmit_voice,
    send_isp_version, send_phone_time, set_gesture, set_led, set_offline_voice_language,
    set_orientation, set_record_duration, set_voice_command, set_volume, set_wear_detection,
    start_video, stop_video, switch_music, take_photo, voice_recording, volume_step,
};
use luma_core::frame::decode_app;
use luma_core::opcodes::{AppCommand, GestureAction, GestureSlot, VolumeChannel};
use luma_core::parser::{
    BatteryReading, BatterySource, DeviceEvent, Orientation, Parser, SwitchReport, WifiService,
    parse,
};

/// The captured outbound frame, byte for byte. capture `client_1` writes all three LED
/// levels; this is the middle one.
#[test]
fn set_led_matches_the_captured_frame() {
    assert_eq!(
        set_led(LedLevel::Mid),
        vec![0xAB, 0x55, 0x00, 0x03, 0x01, 0x31, 0x32]
    );
}

/// The two boolean conventions are NOT the same byte, and this is the test that says so.
/// A settings write that used the media encoding would send `0x01`, which the firmware
/// accepts and reads as neither on nor off.
#[test]
fn settings_booleans_are_ascii_and_media_booleans_are_raw() {
    assert_eq!(
        decode_app(&set_voice_command(true)).unwrap().data,
        vec![0x31]
    );
    assert_eq!(
        decode_app(&set_wear_detection(false)).unwrap().data,
        vec![0x30]
    );
    assert_eq!(decode_app(&play_pause(true)).unwrap().data, vec![0x01]);
    assert_eq!(
        decode_app(&voice_recording(false)).unwrap().data,
        vec![0x00]
    );
}

#[test]
fn record_duration_is_two_byte_big_endian() {
    // 60 s and 180 s, both captured.
    assert_eq!(
        decode_app(&set_record_duration(60)).unwrap().data,
        vec![0x00, 0x3C]
    );
    assert_eq!(
        decode_app(&set_record_duration(180)).unwrap().data,
        vec![0x00, 0xB4]
    );
}

/// Plain hex, not BCD. A BCD encoder would put `0x26` here for year 26 and set the clock
/// to a garbage date.
#[test]
fn phone_time_is_plain_hex_not_bcd() {
    let f = decode_app(&send_phone_time(2026, 7, 27, 18, 40, 18)).unwrap();
    assert_eq!(f.data, vec![0x1A, 0x07, 0x1B, 0x12, 0x28, 0x12]);
}

#[test]
fn both_wifi_services_open_through_one_builder() {
    assert_eq!(
        decode_app(&open_wifi(WifiService::Files, false))
            .unwrap()
            .cmd,
        0x39
    );
    assert_eq!(
        decode_app(&open_wifi(WifiService::Live, false))
            .unwrap()
            .cmd,
        0x67
    );
    assert_eq!(
        decode_app(&open_wifi(WifiService::Live, true))
            .unwrap()
            .data,
        vec![0x31]
    );
}

/// The three `0x44` forms differ only in two payload bytes and mean entirely different
/// things to the device; pinned together so one cannot be edited into another.
#[test]
fn the_three_download_completions_stay_distinct() {
    assert_eq!(
        decode_app(&file_download_complete()).unwrap().data,
        vec![0x30, 0x00]
    );
    assert_eq!(decode_app(&power_off_isp()).unwrap().data, vec![0x30, 0x01]);
    assert_eq!(
        decode_app(&file_download_partial(7)).unwrap().data,
        vec![0x31, 0x07]
    );
}

#[test]
fn no_payload_reads_carry_the_mandated_filler() {
    for frame in [
        get_battery(),
        get_versions(),
        get_project_name(),
        get_switch_states(),
    ] {
        assert_eq!(decode_app(&frame).unwrap().data, vec![0x00]);
    }
    assert_eq!(
        get_battery(),
        vec![0xAB, 0x55, 0x00, 0x03, 0x17, 0x00, 0x17]
    );
}

/// A gesture setter and its slot share a byte, and the value is the action's ASCII digit —
/// the captured defaults round-trip through the setter.
#[test]
fn gesture_setters_round_trip_the_captured_defaults() {
    for (slot, want) in GestureSlot::ALL
        .into_iter()
        .zip(GestureSlot::CAPTURED_DEFAULTS)
    {
        let action = GestureAction::from_value(want).expect("a captured default maps");
        let f = decode_app(&set_gesture(slot, action)).unwrap();
        assert_eq!(f.cmd, slot.code());
        assert_eq!(f.data, vec![want]);
    }
}

#[test]
fn volume_addresses_one_channel_at_a_time_and_carries_the_level_verbatim() {
    // The captured slider writes: `70 01 07`, `70 00 06`, `70 02 06`.
    assert_eq!(
        decode_app(&set_volume(VolumeChannel::Media, 0x07))
            .unwrap()
            .data,
        vec![0x01, 0x07]
    );
    assert_eq!(
        decode_app(&set_volume(VolumeChannel::System, 0x06))
            .unwrap()
            .data,
        vec![0x00, 0x06]
    );
    assert_eq!(
        decode_app(&set_volume(VolumeChannel::Call, 0x06))
            .unwrap()
            .data,
        vec![0x02, 0x06]
    );
}

#[test]
fn led_levels_round_trip_the_burst_encoding() {
    for level in LedLevel::ALL {
        assert_eq!(LedLevel::from_level(level.ascii() - b'0'), Some(level));
    }
    assert_eq!(LedLevel::from_level(3), None, "no clamp");
}

/// Every builder produces a frame that decodes — checksum, length and all — so a
/// hand-edited payload cannot ship a frame nothing can read back.
#[test]
fn every_builder_emits_a_decodable_frame() {
    let frames = [
        take_photo(true),
        start_video(),
        stop_video(),
        voice_recording(true),
        get_file_count(),
        open_wifi(WifiService::Files, false),
        file_download_complete(),
        file_download_partial(3),
        power_off_isp(),
        switch_music(true),
        play_pause(false),
        volume_step(true),
        answer_hangup(false),
        set_volume(VolumeChannel::Call, 8),
        get_volumes(),
        interrupt_voice(),
        retransmit_voice(),
        get_voice_disable_state(),
        set_led(LedLevel::High),
        set_record_duration(90),
        set_wear_detection(true),
        set_voice_command(false),
        set_orientation(Orientation::Landscape),
        set_offline_voice_language(true),
        set_gesture(GestureSlot::DoubleTap, GestureAction::NextTrack),
        send_phone_time(2026, 1, 1, 0, 0, 0),
        get_switch_states(),
        get_device_status(),
        get_battery(),
        get_versions(),
        get_project_name(),
        get_capabilities(),
        factory_reset(),
        reboot(),
        enter_upgrade(true),
        send_isp_version(1, 3, 1),
    ];
    for f in &frames {
        let decoded = decode_app(f).expect("builder output decodes");
        assert!(
            AppCommand::from_code(decoded.cmd).is_some(),
            "builder emitted an opcode outside the table: {:#04x}",
            decoded.cmd
        );
        assert!(!decoded.data.is_empty(), "no command has an empty payload");
    }
}

#[test]
fn the_two_flag_conventions_never_send_the_same_byte() {
    for on in [false, true] {
        let setting = decode_app(&set_wear_detection(on)).unwrap().data;
        for start in [false, true] {
            assert_ne!(setting, decode_app(&voice_recording(start)).unwrap().data);
        }
    }
}

#[test]
fn an_echo_reports_the_setting_that_was_sent() {
    let sent = decode_app(&set_record_duration(180)).unwrap();
    assert_eq!(
        parse(&sent),
        DeviceEvent::Switch(SwitchReport::RecordSeconds(180))
    );
    let sent = decode_app(&set_led(LedLevel::High)).unwrap();
    assert_eq!(parse(&sent), DeviceEvent::Switch(SwitchReport::Led(2)));
    let sent = decode_app(&set_orientation(Orientation::Landscape)).unwrap();
    assert_eq!(
        parse(&sent),
        DeviceEvent::Switch(SwitchReport::Orientation(Orientation::Landscape))
    );
}

#[test]
fn each_payload_is_the_documented_one() {
    let data = |frame: Vec<u8>| decode_app(&frame).unwrap().data;
    assert_eq!(data(take_photo(false)), vec![0x30]);
    assert_eq!(data(take_photo(true)), vec![0x31]);
    assert_eq!(data(enter_upgrade(false)), vec![0x30]);
    assert_eq!(data(send_isp_version(1, 3, 1)), vec![1, 3, 1]);
    assert_eq!(data(send_phone_time(2000, 1, 2, 3, 4, 5)), vec![0, 1, 2, 3, 4, 5]);
}

#[test]
fn a_command_goes_out_and_its_reply_comes_back() {
    assert_eq!(take_photo(false), vec![0xAB, 0x55, 0x00, 0x03, 0x22, 0x30, 0x52]);
    assert_eq!(get_battery(), vec![0xAB, 0x55, 0x00, 0x03, 0x17, 0x00, 0x17]);
    let mut parser = Parser::new();
    let reply = [0xACu8, 0x55, 0x00, 0x05, 0x17, 0x3A, 0x30, 0x01, 0x82];
    assert_eq!(
        parser.push(&reply),
        vec![DeviceEvent::Battery(BatteryReading {
            percent: 100,
            charging: true,
            source: BatterySource::ReadReply,
        })]
    );
}

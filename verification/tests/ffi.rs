//! The boundary to other languages.

use luma_core::ffi::{
    FfiGlassesBatterySource, FfiGlassesCommand, FfiGlassesDecodeError, FfiGlassesDecoded,
    FfiGlassesDeviceAction, FfiGlassesEndCause, FfiGlassesEvent, FfiGlassesEvidence,
    FfiGlassesFileAbort, FfiGlassesFileEvent, FfiGlassesFileKind, FfiGlassesFrame,
    FfiGlassesGestureAction, FfiGlassesGestureSlot, FfiGlassesMalformedReason,
    FfiGlassesOrientation, FfiGlassesResidual, FfiGlassesVoiceEvent, FfiGlassesVolumeChannel,
    GlassesDeframer, GlassesFileReassembler, GlassesParser, GlassesSwitchStates,
    GlassesVoiceStream, glasses_all_commands, glasses_checksum, glasses_command_code,
    glasses_command_evidence, glasses_command_from_code, glasses_decode_app,
    glasses_decode_device, glasses_device_action_evidence, glasses_device_actions,
    glasses_encode_command, glasses_encode_device, glasses_encode_file_frame,
    glasses_frame_overhead, glasses_gatt, glasses_gesture_action_from_value,
    glasses_gesture_action_value, glasses_gesture_actions, glasses_gesture_slot_command,
    glasses_gesture_slots, glasses_get_battery, glasses_is_drivable, glasses_led_level_from_value,
    glasses_led_level_value, glasses_led_levels, glasses_max_file_bytes, glasses_max_length_field,
    glasses_parse_frame, glasses_parse_opus_toc, glasses_set_gesture, glasses_set_led,
    glasses_set_voice_command, glasses_set_volume, glasses_switch_state_burst_order,
    glasses_vendor_named_unimplemented, glasses_voice_bits_per_sample, glasses_voice_channels,
    glasses_voice_sample_rate_hz, glasses_volume_channel_code, glasses_volume_channels,
    glasses_wifi_passphrase,
};
use luma_core::frame::encode_device;
use luma_core::opcodes::{AppCommand, GestureAction, GestureSlot, VolumeChannel};

/// The whole inbound path in one pass, on the bytes a real device sends.
#[test]
fn a_control_stream_crosses_the_boundary_as_typed_events() {
    let mut p = GlassesParser::new();
    // `ac 55 00 04 17 34 39 01` — 49 %, charging. Captured.
    let events = p.push(encode_device(0x17, &[0x34, 0x39, 0x01]));
    assert_eq!(
        events,
        vec![FfiGlassesEvent::Battery {
            percent: 49,
            charging: true,
            source: FfiGlassesBatterySource::ReadReply,
        }]
    );
}

#[test]
fn the_switch_state_burst_accumulates_inside_the_parser() {
    let mut p = GlassesParser::new();
    let burst: [(u8, Vec<u8>); 10] = [
        (0x01, vec![b'1']),
        (0x02, vec![0x00, 0x3C]),
        (0x04, vec![b'1']),
        (0x06, vec![b'1']),
        (0x07, vec![b'0']),
        (0x08, vec![b'1']),
        (0x09, vec![b'2']),
        (0x10, vec![b'4']),
        (0x11, vec![b'3']),
        (0x61, vec![b'0']),
    ];
    for (cmd, data) in &burst {
        assert!(!p.switch_states().is_complete, "not complete until the last frame");
        p.push(encode_device(*cmd, data));
    }
    let s = p.switch_states();
    assert!(s.is_complete, "all ten fields, gestures included");
    assert_eq!(s.led, Some(1));
    assert_eq!(s.record_seconds, Some(60));
    assert_eq!(s.wear_detection, Some(true));
    assert_eq!(s.voice_command, Some(true));
    assert_eq!(s.orientation, Some(FfiGlassesOrientation::Portrait));
    assert_eq!(
        s.gestures,
        vec![
            Some(FfiGlassesGestureAction::VolumeDown),
            Some(FfiGlassesGestureAction::VolumeUp),
            Some(FfiGlassesGestureAction::PlayPause),
            Some(FfiGlassesGestureAction::PreviousTrack),
            Some(FfiGlassesGestureAction::NextTrack),
        ]
    );
}

#[test]
fn the_burst_order_is_exported_and_contains_no_zero_x48() {
    let order = glasses_switch_state_burst_order();
    assert_eq!(order.len(), 10);
    assert!(!order.contains(&FfiGlassesCommand::GetSwitchStates));
    assert_eq!(
        order.iter().filter(|c| glasses_command_code(**c) >= 0x07 && glasses_command_code(**c) <= 0x11).count(),
        5,
        "the five gesture slots are in the burst"
    );
}

/// The `AA15` demux: control frames come back as events and the `52 58` bytes come back as
/// `Foreign` for the file reassembler. Dropping that residual loses image data.
#[test]
fn the_file_channel_hands_foreign_bytes_back_for_the_reassembler() {
    let mut p = GlassesParser::new();
    let mut files = GlassesFileReassembler::new();

    let mut chunk = encode_device(0x53, &[0x01, 0x40]); // battery push, 64 %
    chunk.extend(glasses_encode_file_frame(0x97, vec![0, 0, 0, 4, 0x02])); // 4-byte HD image
    let parsed = p.push_detailed(chunk);
    assert_eq!(
        parsed.events,
        vec![FfiGlassesEvent::Battery {
            percent: 0x40,
            charging: true,
            source: FfiGlassesBatterySource::Push,
        }]
    );
    let FfiGlassesResidual::Foreign { bytes } = parsed.residual else {
        panic!("the 52 58 stream must come back, not be dropped: {:?}", parsed.residual);
    };
    assert_eq!(
        files.push(bytes),
        vec![FfiGlassesFileEvent::Started {
            declared_total: 4,
            file_type: 0x02
        }]
    );

    files.push(glasses_encode_file_frame(0x98, vec![0, 0, 0, 0, 1, 2, 3, 4]));
    assert_eq!(
        files.push(glasses_encode_file_frame(0x99, vec![0x00])),
        vec![FfiGlassesFileEvent::Completed {
            file_type: 0x02,
            kind: Some(FfiGlassesFileKind::HdImage),
            data: vec![1, 2, 3, 4],
        }]
    );
}

#[test]
fn a_voice_capture_opens_on_the_wire_and_closes_only_when_told() {
    let mut p = GlassesParser::new();
    assert!(!p.is_capturing());
    assert_eq!(p.push(encode_device(0x97, &[0x00])).len(), 1);
    assert!(p.is_capturing());

    let events = p.push(encode_device(0x46, &[0x48, 0x01, 0x02]));
    let FfiGlassesEvent::Voice {
        event: FfiGlassesVoiceEvent::Packet { packet },
    } = &events[0]
    else {
        panic!("expected a packet, got {events:?}");
    };
    assert_eq!(packet.index, 0);
    assert_eq!(packet.payload, vec![0x48, 0x01, 0x02]);

    let closed = p.close_voice(FfiGlassesEndCause::Interrupted);
    assert_eq!(
        closed,
        vec![FfiGlassesEvent::Voice {
            event: FfiGlassesVoiceEvent::Ended {
                cause: FfiGlassesEndCause::Interrupted
            }
        }]
    );
    assert!(!p.is_capturing());
}

/// A `0x46` with no preceding `0x97` recovers the lost start rather than dropping the
/// utterance, and the recovery arrives BEFORE the packet in the same call.
#[test]
fn a_lost_voice_start_is_recovered_in_order() {
    let mut p = GlassesParser::new();
    let events = p.push(encode_device(0x46, &[0x48, 0x01]));
    assert!(matches!(
        events.as_slice(),
        [
            FfiGlassesEvent::Voice {
                event: FfiGlassesVoiceEvent::StartedRecovered
            },
            FfiGlassesEvent::Voice {
                event: FfiGlassesVoiceEvent::Packet { .. }
            }
        ]
    ));
}

#[test]
fn action_sync_index_nine_is_importing_mode() {
    assert_eq!(
        glasses_device_actions().last(),
        Some(&FfiGlassesDeviceAction::ImportingMode)
    );
    let mut p = GlassesParser::new();
    let mut flags = [0u8; 10];
    flags[9] = 1;
    let events = p.push(encode_device(0x45, &flags));
    assert_eq!(
        events,
        vec![FfiGlassesEvent::ActionSync {
            active: vec![FfiGlassesDeviceAction::ImportingMode],
            raw: 1 << 9,
        }]
    );
}

/// The three flags no device has ever set stay marked as such, so a UI binding on one is a
/// visible choice rather than an accident.
#[test]
fn the_never_observed_action_flags_are_marked_client_only() {
    for a in [
        FfiGlassesDeviceAction::NodHead,
        FfiGlassesDeviceAction::ShakeHead,
        FfiGlassesDeviceAction::WearingDetection,
    ] {
        assert_eq!(glasses_device_action_evidence(a), FfiGlassesEvidence::ClientOnly);
    }
    assert_eq!(
        glasses_device_action_evidence(FfiGlassesDeviceAction::ImportingMode),
        FfiGlassesEvidence::Capture
    );
}

#[test]
fn every_opcode_round_trips_by_wire_byte() {
    let all = glasses_all_commands();
    assert_eq!(all.len(), AppCommand::ALL.len());
    for cmd in all {
        let code = glasses_command_code(cmd);
        assert_eq!(glasses_command_from_code(code), Some(cmd));
    }
    assert_eq!(glasses_command_from_code(0xEE), None, "an unknown byte is a real answer");
}

#[test]
fn the_encoders_round_trip_through_the_decoders() {
    let frame = glasses_encode_command(FfiGlassesCommand::GetBattery, Vec::new());
    assert_eq!(frame, vec![0xAB, 0x55, 0x00, 0x03, 0x17, 0x00, 0x17]);
    assert_eq!(
        glasses_decode_app(frame),
        FfiGlassesDecoded::Frame {
            frame: FfiGlassesFrame {
                cmd: 0x17,
                data: vec![0x00]
            }
        }
    );
    // A corrupt checksum is reported, not thrown, and stays distinguishable from a
    // truncation — the deframer waits on one and resyncs on the other.
    let mut bad = encode_device(0x17, &[0x34, 0x39, 0x01]);
    *bad.last_mut().unwrap() ^= 0xFF;
    assert_eq!(
        glasses_decode_device(bad),
        FfiGlassesDecoded::Failed {
            reason: FfiGlassesDecodeError::ChecksumMismatch
        }
    );
}

#[test]
fn the_gatt_table_states_the_write_mode() {
    let g = glasses_gatt();
    assert_eq!(g.service, "AA12");
    assert_eq!(g.write, "AA13");
    assert_eq!(g.notify_all, vec!["AA14", "AA15"]);
    assert!(g.write_with_response, "every captured write is an ATT Write Request");
    assert!(glasses_is_drivable(vec!["AA13".into(), "AA14".into()]));
    assert!(!glasses_is_drivable(vec!["AA14".into(), "AA15".into()]));
}

/// The builders and the parser agree on the wire in both directions: what we send for a
/// setting is what the device echoes back for it.
#[test]
fn a_setting_write_and_its_echo_are_the_same_bytes() {
    let sent = glasses_set_voice_command(true);
    let FfiGlassesDecoded::Frame { frame } = glasses_decode_app(sent) else {
        panic!("our own frame must decode");
    };
    let mut p = GlassesParser::new();
    p.push(encode_device(frame.cmd, &frame.data));
    assert_eq!(p.switch_states().voice_command, Some(true));
}

#[test]
fn a_reported_led_level_maps_back_to_the_setter_enum() {
    for level in glasses_led_levels() {
        let reported = glasses_led_level_value(level);
        assert_eq!(glasses_led_level_from_value(reported), Some(level));

        // …and the reported value is what the PARSER produces for our own setter's bytes.
        let FfiGlassesDecoded::Frame { frame } = glasses_decode_app(glasses_set_led(level)) else {
            panic!("our own frame must decode");
        };
        let mut p = GlassesParser::new();
        p.push(encode_device(frame.cmd, &frame.data));
        assert_eq!(p.switch_states().led, Some(reported));
    }
    assert_eq!(glasses_led_level_from_value(3), None, "no silent clamp");
}

/// The same round trip for a gesture binding: the raw byte the burst reports is the byte
/// our setter writes, and both sides agree through the exported inverse pair.
#[test]
fn a_reported_gesture_binding_maps_back_to_the_setter_enum() {
    let actions = glasses_gesture_actions();
    assert_eq!(actions.len(), 5);
    for action in actions {
        let wire = glasses_gesture_action_value(action);
        assert_eq!(glasses_gesture_action_from_value(wire), Some(action));

        for slot in glasses_gesture_slots() {
            let FfiGlassesDecoded::Frame { frame } =
                glasses_decode_app(glasses_set_gesture(slot, action))
            else {
                panic!("our own frame must decode");
            };
            let mut p = GlassesParser::new();
            p.push(encode_device(frame.cmd, &frame.data));
            let s = p.switch_states();
            let i = glasses_gesture_slots().iter().position(|x| *x == slot).unwrap();
            assert_eq!(s.gestures[i], Some(action));
            assert_eq!(s.gestures_raw[i], Some(wire));
        }
    }
}

#[test]
fn the_volume_channel_list_is_the_reply_order() {
    let channels = glasses_volume_channels();
    assert_eq!(
        channels,
        vec![
            FfiGlassesVolumeChannel::System,
            FfiGlassesVolumeChannel::Media,
            FfiGlassesVolumeChannel::Call
        ]
    );
    assert_eq!(
        channels.iter().map(|c| glasses_volume_channel_code(*c)).collect::<Vec<_>>(),
        vec![0x00, 0x01, 0x02]
    );

    let mut p = GlassesParser::new();
    let events = p.push(encode_device(0x69, &[0x06, 0x07, 0x06]));
    assert_eq!(
        events,
        vec![FfiGlassesEvent::Volumes {
            system: 0x06,
            media: 0x07,
            call: 0x06
        }]
    );
    assert_eq!(
        glasses_set_volume(FfiGlassesVolumeChannel::Media, 0x07),
        vec![0xAB, 0x55, 0x00, 0x04, 0x70, 0x01, 0x07, 0x78]
    );
}

#[test]
fn the_standalone_accumulator_matches_the_parsers() {
    let mut s = GlassesSwitchStates::new();
    assert!(s.ingest_frame(0x01, vec![b'2']), "a settings frame is consumed");
    assert!(!s.ingest_frame(0x53, vec![0x01, 0x40]), "a battery push is not");
    assert_eq!(s.snapshot().led, Some(2));
    assert!(!s.is_complete());
    s.reset();
    assert_eq!(s.snapshot().led, None);
}

#[test]
fn every_table_of_the_boundary_round_trips() {
    for c in glasses_all_commands() {
        assert_eq!(FfiGlassesCommand::from(AppCommand::from(c)), c);
        assert_eq!(
            glasses_command_evidence(c),
            FfiGlassesEvidence::from(AppCommand::from(c).evidence())
        );
    }
    for s in glasses_gesture_slots() {
        assert_eq!(FfiGlassesGestureSlot::from(GestureSlot::from(s)), s);
        assert_eq!(
            glasses_command_code(glasses_gesture_slot_command(s)),
            GestureSlot::from(s).code()
        );
    }
    for a in glasses_gesture_actions() {
        assert_eq!(FfiGlassesGestureAction::from(GestureAction::from(a)), a);
    }
    for c in glasses_volume_channels() {
        assert_eq!(FfiGlassesVolumeChannel::from(VolumeChannel::from(c)), c);
    }
    assert_eq!(glasses_device_actions().len(), 10);
    assert_eq!(glasses_vendor_named_unimplemented().len(), 5);
}

#[test]
fn nothing_is_lost_at_the_boundary() {
    assert_eq!(
        glasses_parse_frame(0xEE, vec![1, 2]),
        FfiGlassesEvent::Unrecognised { cmd: 0xEE, data: vec![1, 2] }
    );
    assert_eq!(
        glasses_parse_frame(0x53, vec![1]),
        FfiGlassesEvent::Malformed {
            cmd: 0x53,
            data: vec![1],
            reason: FfiGlassesMalformedReason::TooShort { need: 2 },
        }
    );
}

#[test]
fn a_deframer_crosses_with_its_residual() {
    let mut d = GlassesDeframer::device();
    let mut chunk = glasses_encode_device(0x97, vec![0x01]);
    chunk.extend_from_slice(&[0xAC, 0x55]);
    let r = d.push_detailed(chunk);
    assert_eq!(r.frames, vec![FfiGlassesFrame { cmd: 0x97, data: vec![0x01] }]);
    assert_eq!(r.residual, FfiGlassesResidual::PartialFrame { buffered: 2 });
    assert_eq!(d.buffered(), 2);
    d.reset();
    assert_eq!(d.buffered(), 0);
    let mut a = GlassesDeframer::app();
    assert_eq!(
        a.push(glasses_get_battery()),
        vec![FfiGlassesFrame { cmd: 0x17, data: vec![0x00] }]
    );
}

#[test]
fn a_voice_stream_crosses_with_its_packets() {
    let mut s = GlassesVoiceStream::new();
    assert_eq!(s.handle(0x97, vec![0x01]), vec![FfiGlassesVoiceEvent::Started]);
    assert_eq!(s.handle(0x46, vec![0x48]).len(), 1);
    assert_eq!(s.packets_in_capture(), 1);
    assert_eq!(
        s.close(FfiGlassesEndCause::IdleTimeout),
        vec![FfiGlassesVoiceEvent::Ended { cause: FfiGlassesEndCause::IdleTimeout }]
    );
    assert!(!s.is_capturing());
    let toc = glasses_parse_opus_toc(vec![0x48]).unwrap();
    assert_eq!(toc.frame_duration_us, 20_000);
    assert_eq!(
        (glasses_voice_sample_rate_hz(), glasses_voice_bits_per_sample(), glasses_voice_channels()),
        (16_000, 16, 1)
    );
}

#[test]
fn a_transfer_crosses_with_its_progress() {
    let mut files = GlassesFileReassembler::new();
    files.handle_frame(0x97, vec![0, 0, 0, 4, 0x02]);
    files.push(glasses_encode_file_frame(0x98, vec![0, 0, 0, 2, 9]));
    let p = files.progress();
    assert_eq!((p.received, p.declared_total, p.first_gap), (1, 4, Some(0)));
    assert_eq!(
        files.handle_frame(0x99, vec![0x00]),
        vec![FfiGlassesFileEvent::Aborted {
            abort: FfiGlassesFileAbort::Incomplete {
                received: 1,
                declared_total: 4,
                first_gap: Some(0),
            }
        }]
    );
    assert!(!files.has_buffered_frame_data());
    assert_eq!(glasses_max_file_bytes(), 16 * 1024 * 1024);
    assert_eq!(glasses_wifi_passphrase(), "12345678");
    assert_eq!((glasses_frame_overhead(), glasses_max_length_field()), (4, 4096));
    assert_eq!(glasses_checksum(0xFF, vec![0x01]), 0x00);
}

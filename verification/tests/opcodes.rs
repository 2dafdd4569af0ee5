//! The opcode vocabulary.

use luma_core::opcodes::{
    AppCommand, DeviceUpload, Evidence, GestureAction, GestureSlot, SWITCH_STATE_BURST_ORDER,
    VENDOR_NAMED_UNIMPLEMENTED, VolumeChannel,
};

#[test]
fn the_app_command_set_is_exactly_the_forty_one_union_bytes() {
    let mut got: Vec<u8> = AppCommand::ALL.iter().map(|c| c.code()).collect();
    got.sort_unstable();
    assert_eq!(
        got,
        vec![
            0x01, 0x02, 0x04, 0x06, 0x07, 0x08, 0x09, 0x10, 0x11, 0x14, 0x17, 0x22, 0x23,
            0x24, 0x30, 0x31, 0x32, 0x33, 0x34, 0x36, 0x37, 0x39, 0x40, 0x44, 0x45, 0x48,
            0x55, 0x56, 0x57, 0x59, 0x60, 0x61, 0x62, 0x63, 0x64, 0x65, 0x67, 0x69, 0x70,
            0x71, 0x95,
        ]
    );
    // No duplicate discriminants — two names on one byte would make `from_code` pick
    // whichever came first in the array, silently.
    let mut dedup = got.clone();
    dedup.dedup();
    assert_eq!(dedup.len(), AppCommand::ALL.len());
}

#[test]
fn the_device_upload_set_is_exactly_the_twelve_push_bytes() {
    let mut got: Vec<u8> = DeviceUpload::ALL.iter().map(|c| c.code()).collect();
    got.sort_unstable();
    assert_eq!(
        got,
        vec![0x25, 0x42, 0x45, 0x46, 0x49, 0x51, 0x52, 0x53, 0x69, 0x96, 0x97, 0x99]
    );
}

#[test]
fn slot_ids_are_decimal_looking_not_hex_sixteen_seventeen() {
    assert_eq!(GestureSlot::DoubleTap.code(), 0x10);
    assert_eq!(GestureSlot::TripleTap.code(), 0x11);
    // The five ids are contiguous as *slots* 7…11, so the run is 07 08 09 10 11.
    let codes: Vec<u8> = GestureSlot::ALL.iter().map(|g| g.code()).collect();
    assert_eq!(codes, vec![0x07, 0x08, 0x09, 0x10, 0x11]);
    assert!(!codes.contains(&0x16) && !codes.contains(&0x17));
    // 0x17 is the battery read — the collision a hex reading would cause.
    assert_eq!(AppCommand::GetBattery.code(), 0x17);
}

/// Slot ids and their setter commands are the same byte. Stated as a test because
/// `GestureSlot::command` is the seam a burst accumulator will route through.
#[test]
fn gesture_slots_and_their_setter_commands_share_a_byte() {
    for slot in GestureSlot::ALL {
        assert_eq!(slot.code(), slot.command().code());
        assert_eq!(AppCommand::from_code(slot.code()), Some(slot.command()));
    }
}

/// The captured factory-default bindings, in burst order. If a future capture reads
/// anything else, either the unit is not at defaults or the slot mapping is wrong — and
/// this is where that shows up.
#[test]
fn captured_gesture_defaults_are_zero_one_two_four_three() {
    assert_eq!(GestureSlot::CAPTURED_DEFAULTS, *b"01243");
    let decoded: Vec<GestureAction> = GestureSlot::CAPTURED_DEFAULTS
        .iter()
        .map(|b| GestureAction::from_value(*b).expect("captured default is in range"))
        .collect();
    assert_eq!(
        decoded,
        vec![
            GestureAction::VolumeDown,
            GestureAction::VolumeUp,
            GestureAction::PlayPause,
            GestureAction::PreviousTrack,
            GestureAction::NextTrack,
        ]
    );
}

/// ASCII is what every captured firmware sends; a raw ordinal is accepted as a variant
/// tolerance. An out-of-range byte is `None`, never a clamp — clamping would report a
/// corrupt binding as "volume down" and the user would see a plausible lie.
#[test]
fn gesture_action_decodes_ascii_and_raw_but_never_clamps() {
    assert_eq!(GestureAction::from_value(b'2'), Some(GestureAction::PlayPause));
    assert_eq!(GestureAction::from_value(2), Some(GestureAction::PlayPause));
    assert_eq!(GestureAction::PlayPause.ascii(), 0x32);
    assert_eq!(GestureAction::from_value(b'5'), None);
    assert_eq!(GestureAction::from_value(0xFF), None);
}

/// The burst is ten frames in a fixed order, and `0x62` is not one of them. An
/// accumulator that waits for an offline-voice-language frame never completes.
#[test]
fn the_switch_state_burst_is_ten_frames_and_excludes_offline_voice_lang() {
    assert_eq!(SWITCH_STATE_BURST_ORDER.len(), 10);
    assert_eq!(SWITCH_STATE_BURST_ORDER[0], AppCommand::SetLed);
    assert_eq!(SWITCH_STATE_BURST_ORDER[9], AppCommand::Orientation);
    assert!(!SWITCH_STATE_BURST_ORDER.contains(&AppCommand::OfflineVoiceLang));
    // The five gesture slots sit in the middle, contiguous, in slot order.
    assert_eq!(
        &SWITCH_STATE_BURST_ORDER[4..9],
        &GestureSlot::ALL.map(GestureSlot::command)
    );
}

/// Two bytes are shared across directions. A router that assumes `cmd` identifies the
/// direction gets `0x45` and `0x69` wrong, and `0x69` is the one that matters — a
/// volume READ reply looks exactly like a volume read REQUEST on the byte alone.
#[test]
fn zero_x45_and_zero_x69_are_deliberately_shared_across_directions() {
    assert_eq!(AppCommand::GetDeviceStatus.code(), DeviceUpload::ActionSync.code());
    assert_eq!(AppCommand::GetVolumes.code(), DeviceUpload::Volumes.code());
    let shared: Vec<u8> = AppCommand::ALL
        .iter()
        .map(|c| c.code())
        .filter(|c| DeviceUpload::from_code(*c).is_some())
        .collect();
    assert_eq!(shared, vec![0x45, 0x69], "exactly two bytes are two-way");
}

#[test]
fn evidence_levels_do_not_round_upward() {
    // Never observed anywhere: sending these is a guess.
    for c in [
        AppCommand::FactoryReset,
        AppCommand::Reboot,
        AppCommand::EnterUpgrade,
        AppCommand::OfflineVoiceLang,
    ] {
        assert_eq!(c.evidence(), Evidence::ClientOnly, "{c:?}");
    }
    // Probed against hardware, absent from every capture. `PullImage` acks and delivers
    // nothing; `PullThumbnailStatus` is silent. Neither is Capture.
    assert_eq!(AppCommand::PullImage.evidence(), Evidence::DeviceProbe);
    assert_eq!(AppCommand::PullThumbnailStatus.evidence(), Evidence::DeviceProbe);
    assert_eq!(AppCommand::GetCapabilities.evidence(), Evidence::Capture);
    assert_eq!(AppCommand::OpenWifiLive.evidence(), Evidence::Capture);
    assert_eq!(AppCommand::SetVolume.evidence(), Evidence::Capture);
    // A session that waits for 0x99 hangs; the level says so.
    assert_eq!(DeviceUpload::VoiceUploadEnd.evidence(), Evidence::ClientOnly);
    assert_eq!(DeviceUpload::VoiceData.evidence(), Evidence::Capture);
}

#[test]
fn the_evidence_census_matches_the_documented_counts() {
    let count = |want: Evidence| {
        AppCommand::ALL.iter().filter(|c| c.evidence() == want).count()
            + DeviceUpload::ALL.iter().filter(|u| u.evidence() == want).count()
    };
    assert_eq!(count(Evidence::Capture), 39);
    assert_eq!(count(Evidence::DeviceProbe), 2);
    assert_eq!(count(Evidence::ClientOnly), 12);
    assert_eq!(AppCommand::ALL.len() + DeviceUpload::ALL.len(), 53);
}

/// Vendor-named bytes stay OUT of the enum. `from_code` must not recognise one, or a
/// future caller reads recognition as permission to send it.
#[test]
fn vendor_named_unimplemented_opcodes_are_not_recognised() {
    for (code, name) in VENDOR_NAMED_UNIMPLEMENTED {
        assert_eq!(
            AppCommand::from_code(code),
            None,
            "{name} ({code:#04x}) is a name in a table, not a command"
        );
    }
}

#[test]
fn from_code_round_trips_every_variant_and_rejects_the_probe_controls() {
    for c in AppCommand::ALL {
        assert_eq!(AppCommand::from_code(c.code()), Some(c));
    }
    for u in DeviceUpload::ALL {
        assert_eq!(DeviceUpload::from_code(u.code()), Some(u));
    }
    assert_eq!(AppCommand::from_code(0xEE), None);
    assert_eq!(AppCommand::from_code(0xDE), None);
}

#[test]
fn volume_channels_are_pinned_to_the_capture_order() {
    assert_eq!(VolumeChannel::System.code(), 0x00);
    assert_eq!(VolumeChannel::Media.code(), 0x01);
    assert_eq!(VolumeChannel::Call.code(), 0x02);
    assert_eq!(VolumeChannel::from_code(0x03), None);
}

#[test]
fn both_forms_of_a_gesture_value_give_the_action() {
    for action in GestureAction::ALL {
        assert_eq!(GestureAction::from_value(action.ascii()), Some(action));
        assert_eq!(GestureAction::from_value(action.ordinal()), Some(action));
    }
}

#[test]
fn the_lists_ascend_by_wire_byte() {
    let commands: Vec<u8> = AppCommand::ALL.iter().map(|c| c.code()).collect();
    let uploads: Vec<u8> = DeviceUpload::ALL.iter().map(|c| c.code()).collect();
    assert!(commands.windows(2).all(|w| w[0] < w[1]));
    assert!(uploads.windows(2).all(|w| w[0] < w[1]));
}

#[test]
fn a_command_says_what_backs_it() {
    assert_eq!(AppCommand::GetBattery.evidence(), Evidence::Capture);
    assert_eq!(AppCommand::FactoryReset.evidence(), Evidence::ClientOnly);
}

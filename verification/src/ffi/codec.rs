//! The frame codec and the command builders, as they cross the boundary.
//!
//! The payload conventions are [`crate::commands`]'.
use crate::commands;
use crate::ffi::vocabulary;
use crate::ffi::vocabulary::FfiGlassesCommand;
use crate::ffi::vocabulary::FfiGlassesDecodeError;
use crate::ffi::vocabulary::FfiGlassesGestureAction;
use crate::ffi::vocabulary::FfiGlassesGestureSlot;
use crate::ffi::vocabulary::FfiGlassesLedLevel;
use crate::ffi::vocabulary::FfiGlassesOrientation;
use crate::ffi::vocabulary::FfiGlassesVolumeChannel;
use crate::ffi::vocabulary::FfiGlassesWifiService;
use crate::frame;
use crate::frame::DecodeError;
use crate::frame::Frame;
use crate::frame::FrameView;
use crate::frame::APP_HEADER;
use crate::frame::DEVICE_HEADER;
use crate::opcodes::AppCommand;
use crate::opcodes::GestureAction;
use crate::opcodes::GestureSlot;
use crate::opcodes::VolumeChannel;
use crate::parser::Orientation;
use crate::parser::WifiCredentials;
use crate::parser::WifiService;
use vstd::prelude::*;
use vstd::slice::slice_to_vec;

verus! {

/// One decoded frame: the opcode byte and its payload, verbatim.
#[derive(Debug, Clone, PartialEq, Eq)]
pub struct FfiGlassesFrame {
    pub cmd: u8,
    pub data: Vec<u8>,
}

impl View for FfiGlassesFrame {
    type V = FrameView;

    open spec fn view(&self) -> FrameView {
        FrameView { cmd: self.cmd, data: self.data@ }
    }
}

impl From<&Frame> for FfiGlassesFrame {
    fn from(frame: &Frame) -> (r: Self)
        ensures
            r@ == frame@,
    {
        FfiGlassesFrame { cmd: frame.cmd, data: slice_to_vec(frame.data.as_slice()) }
    }
}

impl vstd::std_specs::convert::FromSpecImpl<&Frame> for FfiGlassesFrame {
    /// What `from` gives is stated of its contents, in its own contract.
    open spec fn obeys_from_spec() -> bool {
        false
    }

    open spec fn from_spec(frame: &Frame) -> Self {
        arbitrary()
    }
}

/// Decode outcome: a total value, never a thrown error.
#[derive(Debug, Clone, PartialEq, Eq)]
pub enum FfiGlassesDecoded {
    Frame { frame: FfiGlassesFrame },
    Failed { reason: FfiGlassesDecodeError },
}

/// What a decode result is on the boundary.
pub open spec fn is_decoded(d: FfiGlassesDecoded, model: Result<FrameView, DecodeError>) -> bool {
    match d {
        FfiGlassesDecoded::Frame { frame } => model == Ok::<FrameView, DecodeError>(frame@),
        FfiGlassesDecoded::Failed { reason } => model matches Err(e) && reason
            == vocabulary::decode_error_out(e),
    }
}

fn decoded(r: Result<Frame, DecodeError>) -> (d: FfiGlassesDecoded)
    ensures
        match r {
            Ok(f) => d matches FfiGlassesDecoded::Frame { frame } && frame@ == f@,
            Err(e) => d == (FfiGlassesDecoded::Failed { reason: vocabulary::decode_error_out(e) }),
        },
{
    match r {
        Ok(f) => FfiGlassesDecoded::Frame { frame: FfiGlassesFrame::from(&f) },
        Err(e) => FfiGlassesDecoded::Failed { reason: FfiGlassesDecodeError::from(e) },
    }
}

/// `(cmd + sum of data) & 0xFF`: the frame checksum. Header and length are outside it.
pub fn glasses_checksum(cmd: u8, data: Vec<u8>) -> (sum: u8)
    ensures
        sum == frame::checksum_of(cmd, data@),
{
    frame::checksum(cmd, data.as_slice())
}

/// Build an app to device frame with a raw opcode byte, so that an unrecognised opcode can be
/// probed. An empty payload becomes the `0x00` filler.
pub fn glasses_encode(cmd: u8, data: Vec<u8>) -> (bytes: Vec<u8>)
    ensures
        bytes@ == frame::frame_bytes(
            APP_HEADER,
            FrameView { cmd, data: frame::or_filler(data@) },
        ),
{
    frame::encode(cmd, data.as_slice())
}

/// [`glasses_encode`] with a typed opcode.
pub fn glasses_encode_command(cmd: FfiGlassesCommand, data: Vec<u8>) -> (bytes: Vec<u8>)
    ensures
        bytes@ == commands::command_bytes(vocabulary::command_in(cmd), data@),
{
    frame::encode_command(AppCommand::from(cmd), data.as_slice())
}

/// Build a device to app frame, for tests, fixtures and replay tooling.
pub fn glasses_encode_device(cmd: u8, data: Vec<u8>) -> (bytes: Vec<u8>)
    ensures
        bytes@ == frame::frame_bytes(
            DEVICE_HEADER,
            FrameView { cmd, data: frame::or_filler(data@) },
        ),
{
    frame::encode_device(cmd, data.as_slice())
}

/// Decode exactly one device to app frame from the front of `bytes`. Trailing bytes are ignored.
pub fn glasses_decode_device(bytes: Vec<u8>) -> (d: FfiGlassesDecoded)
    ensures
        is_decoded(d, frame::decode_result(DEVICE_HEADER, bytes@)),
{
    decoded(frame::decode_device(bytes.as_slice()))
}

/// Decode exactly one app to device frame.
pub fn glasses_decode_app(bytes: Vec<u8>) -> (d: FfiGlassesDecoded)
    ensures
        is_decoded(d, frame::decode_result(APP_HEADER, bytes@)),
{
    decoded(frame::decode_app(bytes.as_slice()))
}

/// The 4-byte envelope overhead: 2 magic + 2 length.
pub fn glasses_frame_overhead() -> (n: u32)
    ensures
        n == frame::FRAME_OVERHEAD,
{
    frame::FRAME_OVERHEAD as u32
}

/// The largest length field the deframer will wait on.
pub fn glasses_max_length_field() -> (n: u32)
    ensures
        n == frame::MAX_LENGTH_FIELD,
{
    frame::MAX_LENGTH_FIELD as u32
}

// ---- capture -----------------------------------------------------------------------

/// `0x22`: take a photo. `for_ai` adds the full-resolution still the AI path wants (`0x31`),
/// against `0x30` for a plain photo.
pub fn glasses_take_photo(for_ai: bool) -> (bytes: Vec<u8>)
    ensures
        bytes@ == commands::command_bytes(
            AppCommand::TakePhoto,
            seq![commands::ascii_flag_of(for_ai)],
        ),
{
    commands::take_photo(for_ai)
}

/// `0x23`: start a video recording. Payload is the protocol's `0x00` filler.
pub fn glasses_start_video() -> (bytes: Vec<u8>)
    ensures
        bytes@ == commands::command_bytes(AppCommand::StartVideo, Seq::empty()),
{
    commands::start_video()
}

/// `0x24`: stop it.
pub fn glasses_stop_video() -> (bytes: Vec<u8>)
    ensures
        bytes@ == commands::command_bytes(AppCommand::StopVideo, Seq::empty()),
{
    commands::stop_video()
}

/// `0x34`: start / stop an on-device audio recording, as a raw flag.
pub fn glasses_voice_recording(start: bool) -> (bytes: Vec<u8>)
    ensures
        bytes@ == commands::command_bytes(
            AppCommand::VoiceRecording,
            seq![commands::raw_flag_of(start)],
        ),
{
    commands::voice_recording(start)
}

/// `0x40`: how many photos and videos the device is holding. The reply is a `0x42`, not a `0x40`.
pub fn glasses_get_file_count() -> (bytes: Vec<u8>)
    ensures
        bytes@ == commands::command_bytes(AppCommand::GetFileCount, Seq::empty()),
{
    commands::get_file_count()
}

// ---- Wi-Fi -------------------------------------------------------------------------

/// `0x39` (files) / `0x67` (live): raise the SoftAP. `p2p` selects `0x31` over `0x30`.
pub fn glasses_open_wifi(service: FfiGlassesWifiService, p2p: bool) -> (bytes: Vec<u8>)
    ensures
        bytes@ == commands::command_bytes(
            vocabulary::service_in(service).command(),
            seq![commands::ascii_flag_of(p2p)],
        ),
{
    commands::open_wifi(WifiService::from(service), p2p)
}

/// `0x44 30 00`: everything transferred, clear the thumbnail count.
pub fn glasses_file_download_complete() -> (bytes: Vec<u8>)
    ensures
        bytes@ == commands::command_bytes(AppCommand::FileDownloadComplete, seq![0x30, 0x00]),
{
    commands::file_download_complete()
}

/// `0x44 31 <n>`: partial. The device subtracts `downloaded` from its own count, powers the ISP off
/// and re-reports the remainder.
pub fn glasses_file_download_partial(downloaded: u8) -> (bytes: Vec<u8>)
    ensures
        bytes@ == commands::command_bytes(
            AppCommand::FileDownloadComplete,
            seq![0x31, downloaded],
        ),
{
    commands::file_download_partial(downloaded)
}

/// `0x44 30 01`: power the ISP back off without touching the thumbnail count. The teardown for a
/// Wi-Fi session that downloaded nothing; skipping it leaves the glasses in SoftAP-waiting mode.
pub fn glasses_power_off_isp() -> (bytes: Vec<u8>)
    ensures
        bytes@ == commands::command_bytes(AppCommand::FileDownloadComplete, seq![0x30, 0x01]),
{
    commands::power_off_isp()
}

// ---- media and call: raw flags, not ASCII ------------------------------------------

/// `0x30`: previous (`0x00`) / next (`0x01`) track.
pub fn glasses_switch_music(next: bool) -> (bytes: Vec<u8>)
    ensures
        bytes@ == commands::command_bytes(
            AppCommand::SwitchMusic,
            seq![commands::raw_flag_of(next)],
        ),
{
    commands::switch_music(next)
}

/// `0x31`: play (`0x01`) / pause (`0x00`).
pub fn glasses_play_pause(play: bool) -> (bytes: Vec<u8>)
    ensures
        bytes@ == commands::command_bytes(
            AppCommand::PlayPause,
            seq![commands::raw_flag_of(play)],
        ),
{
    commands::play_pause(play)
}

/// `0x32`: volume up (`0x01`) / down (`0x00`), the step command. Not to be confused with
/// [`glasses_set_volume`] (`0x70`), which sets one channel's absolute level.
pub fn glasses_volume_step(up: bool) -> (bytes: Vec<u8>)
    ensures
        bytes@ == commands::command_bytes(AppCommand::Volume, seq![commands::raw_flag_of(up)]),
{
    commands::volume_step(up)
}

/// `0x33`: answer (`0x01`) / hang up (`0x00`).
pub fn glasses_answer_hangup(answer: bool) -> (bytes: Vec<u8>)
    ensures
        bytes@ == commands::command_bytes(
            AppCommand::AnswerHangup,
            seq![commands::raw_flag_of(answer)],
        ),
{
    commands::answer_hangup(answer)
}

/// `0x70`: set one output level. `level` is carried verbatim, because its scale is not pinned.
pub fn glasses_set_volume(channel: FfiGlassesVolumeChannel, level: u8) -> (bytes: Vec<u8>)
    ensures
        bytes@ == commands::command_bytes(
            AppCommand::SetVolume,
            seq![vocabulary::channel_in(channel).code(), level],
        ),
{
    commands::set_volume(VolumeChannel::from(channel), level)
}

/// `0x69`: read all three levels back. Reply order is `[system, media, call]`.
pub fn glasses_get_volumes() -> (bytes: Vec<u8>)
    ensures
        bytes@ == commands::command_bytes(AppCommand::GetVolumes, Seq::empty()),
{
    commands::get_volumes()
}

// ---- voice -------------------------------------------------------------------------

/// `0x56`: interrupt the voice transmission. The only thing that closes the device mic.
pub fn glasses_interrupt_voice() -> (bytes: Vec<u8>)
    ensures
        bytes@ == commands::command_bytes(AppCommand::InterruptVoice, Seq::empty()),
{
    commands::interrupt_voice()
}

/// `0x57`: ask for a retransmit.
pub fn glasses_retransmit_voice() -> (bytes: Vec<u8>)
    ensures
        bytes@ == commands::command_bytes(AppCommand::RetransmitVoice, Seq::empty()),
{
    commands::retransmit_voice()
}

/// `0x71`: read which voice features are disabled. `0x00` back means the wake word is live.
pub fn glasses_get_voice_disable_state() -> (bytes: Vec<u8>)
    ensures
        bytes@ == commands::command_bytes(AppCommand::GetVoiceDisableState, Seq::empty()),
{
    commands::get_voice_disable_state()
}

// ---- settings: ASCII flags ---------------------------------------------------------

/// `0x01`: indicator-LED brightness.
pub fn glasses_set_led(level: FfiGlassesLedLevel) -> (bytes: Vec<u8>)
    ensures
        bytes@ == commands::command_bytes(
            AppCommand::SetLed,
            seq![vocabulary::led_in(level).ascii()],
        ),
{
    commands::set_led(commands::LedLevel::from(level))
}

/// `0x02`: record duration in seconds, two bytes big-endian. The one setting whose value is not an
/// ASCII digit.
pub fn glasses_set_record_duration(seconds: u16) -> (bytes: Vec<u8>)
    ensures
        bytes@ == commands::command_bytes(
            AppCommand::SetRecordDuration,
            seq![(seconds / 256) as u8, (seconds % 256) as u8],
        ),
{
    commands::set_record_duration(seconds)
}

/// `0x04`: wear detection on/off.
pub fn glasses_set_wear_detection(on: bool) -> (bytes: Vec<u8>)
    ensures
        bytes@ == commands::command_bytes(
            AppCommand::WearDetection,
            seq![commands::ascii_flag_of(on)],
        ),
{
    commands::set_wear_detection(on)
}

/// `0x06`: voice command / wake word on/off.
pub fn glasses_set_voice_command(on: bool) -> (bytes: Vec<u8>)
    ensures
        bytes@ == commands::command_bytes(
            AppCommand::VoiceCommand,
            seq![commands::ascii_flag_of(on)],
        ),
{
    commands::set_voice_command(on)
}

/// `0x61`: capture orientation.
pub fn glasses_set_orientation(orientation: FfiGlassesOrientation) -> (bytes: Vec<u8>)
    ensures
        bytes@ == commands::command_bytes(
            AppCommand::Orientation,
            seq![commands::orientation_digit(vocabulary::orientation_in(orientation))],
        ),
{
    commands::set_orientation(Orientation::from(orientation))
}

/// `0x62`: offline voice language, raw `0x00` Chinese / `0x01` English.
pub fn glasses_set_offline_voice_language(english: bool) -> (bytes: Vec<u8>)
    ensures
        bytes@ == commands::command_bytes(
            AppCommand::OfflineVoiceLang,
            seq![commands::raw_flag_of(english)],
        ),
{
    commands::set_offline_voice_language(english)
}

/// `0x07`-`0x11`: bind one touchpad gesture slot to an action.
pub fn glasses_set_gesture(
    slot: FfiGlassesGestureSlot,
    action: FfiGlassesGestureAction,
) -> (bytes: Vec<u8>)
    ensures
        bytes@ == commands::command_bytes(
            vocabulary::slot_in(slot).command(),
            seq![vocabulary::gesture_in(action).ascii()],
        ),
{
    commands::set_gesture(GestureSlot::from(slot), GestureAction::from(action))
}

// ---- device ------------------------------------------------------------------------

/// `0x59`: push the phone's wall clock as `YY MM DD HH MM SS` in plain hex, not BCD.
pub fn glasses_send_phone_time(
    year: u16,
    month: u8,
    day: u8,
    hour: u8,
    minute: u8,
    second: u8,
) -> (bytes: Vec<u8>)
    ensures
        bytes@ == commands::command_bytes(
            AppCommand::SendPhoneTime,
            seq![(year % 100) as u8, month, day, hour, minute, second],
        ),
{
    commands::send_phone_time(year, month, day, hour, minute, second)
}

/// `0x48`: read the switch states. The reply is a ten-frame burst, never a `0x48` frame; feed it to
/// `GlassesSwitchStates`.
pub fn glasses_get_switch_states() -> (bytes: Vec<u8>)
    ensures
        bytes@ == commands::command_bytes(AppCommand::GetSwitchStates, Seq::empty()),
{
    commands::get_switch_states()
}

/// `0x45`: read the ten action-sync flags.
pub fn glasses_get_device_status() -> (bytes: Vec<u8>)
    ensures
        bytes@ == commands::command_bytes(AppCommand::GetDeviceStatus, Seq::empty()),
{
    commands::get_device_status()
}

/// `0x17`: battery. The reply's two digits are ASCII and overflow `'9'` to `0x3A` at 100 %.
pub fn glasses_get_battery() -> (bytes: Vec<u8>)
    ensures
        bytes@ == commands::command_bytes(AppCommand::GetBattery, Seq::empty()),
{
    commands::get_battery()
}

/// `0x55`: bt / isp firmware versions and the hardware revision.
pub fn glasses_get_versions() -> (bytes: Vec<u8>)
    ensures
        bytes@ == commands::command_bytes(AppCommand::GetVersions, Seq::empty()),
{
    commands::get_versions()
}

/// `0x64`: project and customer codes.
pub fn glasses_get_project_name() -> (bytes: Vec<u8>)
    ensures
        bytes@ == commands::command_bytes(AppCommand::GetProjectName, Seq::empty()),
{
    commands::get_project_name()
}

/// `0x95`: the 4-byte capability word. Also arrives unsolicited after every link-up.
pub fn glasses_get_capabilities() -> (bytes: Vec<u8>)
    ensures
        bytes@ == commands::command_bytes(AppCommand::GetCapabilities, Seq::empty()),
{
    commands::get_capabilities()
}

/// `0x14`: factory reset.
pub fn glasses_factory_reset() -> (bytes: Vec<u8>)
    ensures
        bytes@ == commands::command_bytes(AppCommand::FactoryReset, Seq::empty()),
{
    commands::factory_reset()
}

/// `0x60`: reboot.
pub fn glasses_reboot() -> (bytes: Vec<u8>)
    ensures
        bytes@ == commands::command_bytes(AppCommand::Reboot, Seq::empty()),
{
    commands::reboot()
}

/// `0x63`: enter upgrade mode; `p2p` selects `0x31` over `0x30`, as with the Wi-Fi opens.
pub fn glasses_enter_upgrade(p2p: bool) -> (bytes: Vec<u8>)
    ensures
        bytes@ == commands::command_bytes(
            AppCommand::EnterUpgrade,
            seq![commands::ascii_flag_of(p2p)],
        ),
{
    commands::enter_upgrade(p2p)
}

/// `0x65`: report the just-flashed ISP version after a successful OTA.
pub fn glasses_send_isp_version(major: u8, minor: u8, patch: u8) -> (bytes: Vec<u8>)
    ensures
        bytes@ == commands::command_bytes(AppCommand::SendIspVersion, seq![major, minor, patch]),
{
    commands::send_isp_version(major, minor, patch)
}

/// The factory-fixed SoftAP passphrase, the same for both Wi-Fi modes. It is not on the wire.
pub fn glasses_wifi_passphrase() -> (s: String)
    ensures
        s@ == WifiCredentials::PASSPHRASE@,
{
    String::from_str(WifiCredentials::PASSPHRASE)
}

/// What each command without a payload that crosses the boundary sends: its opcode and one zero
/// byte.
pub proof fn lemma_what_bare_commands_send(bytes: Vec<u8>)
    ensures
        call_ensures(glasses_start_video, (), bytes) ==> commands::sends(bytes@, 0x23, seq![0u8]),
        call_ensures(glasses_stop_video, (), bytes) ==> commands::sends(bytes@, 0x24, seq![0u8]),
        call_ensures(glasses_get_file_count, (), bytes)
            ==> commands::sends(bytes@, 0x40, seq![0u8]),
        call_ensures(glasses_get_volumes, (), bytes) ==> commands::sends(bytes@, 0x69, seq![0u8]),
        call_ensures(glasses_interrupt_voice, (), bytes)
            ==> commands::sends(bytes@, 0x56, seq![0u8]),
        call_ensures(glasses_retransmit_voice, (), bytes)
            ==> commands::sends(bytes@, 0x57, seq![0u8]),
        call_ensures(glasses_get_voice_disable_state, (), bytes)
            ==> commands::sends(bytes@, 0x71, seq![0u8]),
        call_ensures(glasses_get_switch_states, (), bytes)
            ==> commands::sends(bytes@, 0x48, seq![0u8]),
        call_ensures(glasses_get_device_status, (), bytes)
            ==> commands::sends(bytes@, 0x45, seq![0u8]),
        call_ensures(glasses_get_battery, (), bytes) ==> commands::sends(bytes@, 0x17, seq![0u8]),
        call_ensures(glasses_get_versions, (), bytes) ==> commands::sends(bytes@, 0x55, seq![0u8]),
        call_ensures(glasses_get_project_name, (), bytes)
            ==> commands::sends(bytes@, 0x64, seq![0u8]),
        call_ensures(glasses_get_capabilities, (), bytes)
            ==> commands::sends(bytes@, 0x95, seq![0u8]),
        call_ensures(glasses_factory_reset, (), bytes) ==> commands::sends(bytes@, 0x14, seq![0u8]),
        call_ensures(glasses_reboot, (), bytes) ==> commands::sends(bytes@, 0x60, seq![0u8]),
{
    commands::lemma_sends(AppCommand::StartVideo, Seq::empty());
    commands::lemma_sends(AppCommand::StopVideo, Seq::empty());
    commands::lemma_sends(AppCommand::GetFileCount, Seq::empty());
    commands::lemma_sends(AppCommand::GetVolumes, Seq::empty());
    commands::lemma_sends(AppCommand::InterruptVoice, Seq::empty());
    commands::lemma_sends(AppCommand::RetransmitVoice, Seq::empty());
    commands::lemma_sends(AppCommand::GetVoiceDisableState, Seq::empty());
    commands::lemma_sends(AppCommand::GetSwitchStates, Seq::empty());
    commands::lemma_sends(AppCommand::GetDeviceStatus, Seq::empty());
    commands::lemma_sends(AppCommand::GetBattery, Seq::empty());
    commands::lemma_sends(AppCommand::GetVersions, Seq::empty());
    commands::lemma_sends(AppCommand::GetProjectName, Seq::empty());
    commands::lemma_sends(AppCommand::GetCapabilities, Seq::empty());
    commands::lemma_sends(AppCommand::FactoryReset, Seq::empty());
    commands::lemma_sends(AppCommand::Reboot, Seq::empty());
}

/// What each command with a flag that crosses the boundary sends: settings an ASCII digit, media
/// and calls a raw one.
pub proof fn lemma_what_flag_commands_send(on: bool, bytes: Vec<u8>)
    ensures
        call_ensures(glasses_take_photo, (on,), bytes) ==> commands::sends(
            bytes@,
            0x22,
            seq![
                if on {
                    0x31u8
                } else {
                    0x30
                },
            ],
        ),
        call_ensures(glasses_set_wear_detection, (on,), bytes) ==> commands::sends(
            bytes@,
            0x04,
            seq![
                if on {
                    0x31u8
                } else {
                    0x30
                },
            ],
        ),
        call_ensures(glasses_set_voice_command, (on,), bytes) ==> commands::sends(
            bytes@,
            0x06,
            seq![
                if on {
                    0x31u8
                } else {
                    0x30
                },
            ],
        ),
        call_ensures(glasses_enter_upgrade, (on,), bytes) ==> commands::sends(
            bytes@,
            0x63,
            seq![
                if on {
                    0x31u8
                } else {
                    0x30
                },
            ],
        ),
        call_ensures(glasses_voice_recording, (on,), bytes) ==> commands::sends(
            bytes@,
            0x34,
            seq![
                if on {
                    1u8
                } else {
                    0
                },
            ],
        ),
        call_ensures(glasses_switch_music, (on,), bytes) ==> commands::sends(
            bytes@,
            0x30,
            seq![
                if on {
                    1u8
                } else {
                    0
                },
            ],
        ),
        call_ensures(glasses_play_pause, (on,), bytes) ==> commands::sends(
            bytes@,
            0x31,
            seq![
                if on {
                    1u8
                } else {
                    0
                },
            ],
        ),
        call_ensures(glasses_volume_step, (on,), bytes) ==> commands::sends(
            bytes@,
            0x32,
            seq![
                if on {
                    1u8
                } else {
                    0
                },
            ],
        ),
        call_ensures(glasses_answer_hangup, (on,), bytes) ==> commands::sends(
            bytes@,
            0x33,
            seq![
                if on {
                    1u8
                } else {
                    0
                },
            ],
        ),
        call_ensures(glasses_set_offline_voice_language, (on,), bytes) ==> commands::sends(
            bytes@,
            0x62,
            seq![
                if on {
                    1u8
                } else {
                    0
                },
            ],
        ),
{
    commands::lemma_sends(AppCommand::TakePhoto, seq![commands::ascii_flag_of(on)]);
    commands::lemma_sends(AppCommand::WearDetection, seq![commands::ascii_flag_of(on)]);
    commands::lemma_sends(AppCommand::VoiceCommand, seq![commands::ascii_flag_of(on)]);
    commands::lemma_sends(AppCommand::EnterUpgrade, seq![commands::ascii_flag_of(on)]);
    commands::lemma_sends(AppCommand::VoiceRecording, seq![commands::raw_flag_of(on)]);
    commands::lemma_sends(AppCommand::SwitchMusic, seq![commands::raw_flag_of(on)]);
    commands::lemma_sends(AppCommand::PlayPause, seq![commands::raw_flag_of(on)]);
    commands::lemma_sends(AppCommand::Volume, seq![commands::raw_flag_of(on)]);
    commands::lemma_sends(AppCommand::AnswerHangup, seq![commands::raw_flag_of(on)]);
    commands::lemma_sends(AppCommand::OfflineVoiceLang, seq![commands::raw_flag_of(on)]);
}

/// What each command with a choice that crosses the boundary sends: the service and the gesture
/// choose the opcode, the channel, the level, the orientation and the action the byte.
pub proof fn lemma_what_choices_send(
    service: FfiGlassesWifiService,
    p2p: bool,
    channel: FfiGlassesVolumeChannel,
    volume: u8,
    level: FfiGlassesLedLevel,
    orientation: FfiGlassesOrientation,
    slot: FfiGlassesGestureSlot,
    action: FfiGlassesGestureAction,
    bytes: Vec<u8>,
)
    ensures
        call_ensures(glasses_open_wifi, (service, p2p), bytes) ==> commands::sends(
            bytes@,
            match service {
                FfiGlassesWifiService::Files => 0x39,
                FfiGlassesWifiService::Live => 0x67,
            },
            seq![
                if p2p {
                    0x31u8
                } else {
                    0x30
                },
            ],
        ),
        call_ensures(glasses_set_volume, (channel, volume), bytes) ==> commands::sends(
            bytes@,
            0x70,
            seq![
                match channel {
                    FfiGlassesVolumeChannel::System => 0u8,
                    FfiGlassesVolumeChannel::Media => 1,
                    FfiGlassesVolumeChannel::Call => 2,
                },
                volume,
            ],
        ),
        call_ensures(glasses_set_led, (level,), bytes) ==> commands::sends(
            bytes@,
            0x01,
            seq![
                match level {
                    FfiGlassesLedLevel::Low => 0x30u8,
                    FfiGlassesLedLevel::Mid => 0x31,
                    FfiGlassesLedLevel::High => 0x32,
                },
            ],
        ),
        call_ensures(glasses_set_orientation, (orientation,), bytes) ==> commands::sends(
            bytes@,
            0x61,
            seq![
                match orientation {
                    FfiGlassesOrientation::Portrait => 0x30u8,
                    FfiGlassesOrientation::Landscape => 0x31,
                },
            ],
        ),
        call_ensures(glasses_set_gesture, (slot, action), bytes) ==> commands::sends(
            bytes@,
            match slot {
                FfiGlassesGestureSlot::SwipeForward => 0x07,
                FfiGlassesGestureSlot::SwipeBack => 0x08,
                FfiGlassesGestureSlot::SingleTap => 0x09,
                FfiGlassesGestureSlot::DoubleTap => 0x10,
                FfiGlassesGestureSlot::TripleTap => 0x11,
            },
            seq![
                match action {
                    FfiGlassesGestureAction::VolumeDown => 0x30u8,
                    FfiGlassesGestureAction::VolumeUp => 0x31,
                    FfiGlassesGestureAction::PlayPause => 0x32,
                    FfiGlassesGestureAction::NextTrack => 0x33,
                    FfiGlassesGestureAction::PreviousTrack => 0x34,
                },
            ],
        ),
{
    commands::lemma_sends(
        vocabulary::service_in(service).command(),
        seq![commands::ascii_flag_of(p2p)],
    );
    commands::lemma_sends(
        AppCommand::SetVolume,
        seq![vocabulary::channel_in(channel).code(), volume],
    );
    commands::lemma_sends(AppCommand::SetLed, seq![vocabulary::led_in(level).ascii()]);
    commands::lemma_sends(
        AppCommand::Orientation,
        seq![commands::orientation_digit(vocabulary::orientation_in(orientation))],
    );
    commands::lemma_sends(
        vocabulary::slot_in(slot).command(),
        seq![vocabulary::gesture_in(action).ascii()],
    );
}

/// What each command with numbers that crosses the boundary sends: seconds most significant byte
/// first, the year without its century, and every other number as it is.
pub proof fn lemma_what_numbers_send(
    seconds: u16,
    year: u16,
    first: u8,
    second: u8,
    third: u8,
    fourth: u8,
    fifth: u8,
    bytes: Vec<u8>,
)
    ensures
        call_ensures(glasses_file_download_complete, (), bytes)
            ==> commands::sends(bytes@, 0x44, seq![0x30u8, 0]),
        call_ensures(glasses_power_off_isp, (), bytes)
            ==> commands::sends(bytes@, 0x44, seq![0x30u8, 1]),
        call_ensures(glasses_file_download_partial, (first,), bytes) ==> commands::sends(
            bytes@,
            0x44,
            seq![0x31u8, first],
        ),
        call_ensures(glasses_set_record_duration, (seconds,), bytes) ==> bytes@.len() == 8 && commands::sends(
            bytes@,
            0x02,
            bytes@.subrange(5, 7),
        ) && bytes@[5] * 256 + bytes@[6] == seconds,
        call_ensures(glasses_send_phone_time, (year, first, second, third, fourth, fifth), bytes)
            ==> bytes@.len() == 12 && commands::sends(bytes@, 0x59, bytes@.subrange(5, 11))
            && bytes@.subrange(6, 11) == seq![first, second, third, fourth, fifth] && bytes@[5]
            == year % 100,
        call_ensures(glasses_send_isp_version, (first, second, third), bytes) ==> commands::sends(
            bytes@,
            0x65,
            seq![first, second, third],
        ),
{
    commands::lemma_sends(AppCommand::FileDownloadComplete, seq![0x30u8, 0x00]);
    commands::lemma_sends(AppCommand::FileDownloadComplete, seq![0x30u8, 0x01]);
    commands::lemma_sends(AppCommand::FileDownloadComplete, seq![0x31u8, first]);
    let duration = seq![(seconds / 256) as u8, (seconds % 256) as u8];
    commands::lemma_sends(AppCommand::SetRecordDuration, duration);
    let sent = commands::command_bytes(AppCommand::SetRecordDuration, duration);
    assert(sent.subrange(5, 7)[0] == sent[5] && sent.subrange(5, 7)[1] == sent[6]);
    let time = seq![(year % 100) as u8, first, second, third, fourth, fifth];
    commands::lemma_sends(AppCommand::SendPhoneTime, time);
    let sent = commands::command_bytes(AppCommand::SendPhoneTime, time);
    assert(sent.subrange(5, 11)[0] == sent[5]);
    assert(sent.subrange(6, 11) =~= sent.subrange(5, 11).subrange(1, 6));
    assert(time.subrange(1, 6) =~= seq![first, second, third, fourth, fifth]);
    commands::lemma_sends(AppCommand::SendIspVersion, seq![first, second, third]);
}

} // verus!

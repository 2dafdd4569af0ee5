//! App to device command builders: the payload conventions, once.
//!
//! [`crate::frame::encode_command`] owns the envelope. This module owns the bytes inside it:
//!
//! | Family | Encoding | Example |
//! |---|---|---|
//! | Settings (`0x01`, `0x04`, `0x06`, `0x61`, `0x39`, `0x63`) | ASCII digits | on = `0x31`, off = `0x30` |
//! | Media / call (`0x30`, `0x31`, `0x32`, `0x33`, `0x34`) | raw 0/1 | play = `0x01`, pause = `0x00` |
//! | Record duration (`0x02`) | 2-byte big-endian integer | 60 s = `00 3C` |
//! | Volume (`0x70`) | raw channel + raw level | `70 01 07` |
//! | Phone time (`0x59`) | plain hex, not BCD | 2026-07-27 = `1A 07 1B ...` |
//!
//! Two of those look alike and are not: `set_voice_command(true)` sends `0x31` and
//! `play_pause(true)` sends `0x01`. Getting them backwards produces a well-formed frame the
//! firmware drops in silence.
use crate::frame;
use crate::frame::encode_command;
use crate::frame::FrameView;
use crate::frame::APP_HEADER;
use crate::opcodes::AppCommand;
use crate::opcodes::GestureAction;
use crate::opcodes::GestureSlot;
use crate::opcodes::VolumeChannel;
use crate::parser;
use crate::parser::DeviceEventView;
use crate::parser::Orientation;
use crate::parser::SwitchReport;
use crate::parser::WifiService;
use vstd::prelude::*;

verus! {

/// The bytes of a command with this payload. An empty payload is sent as one zero byte.
pub open spec fn command_bytes(cmd: AppCommand, data: Seq<u8>) -> Seq<u8> {
    frame::frame_bytes(APP_HEADER, FrameView { cmd: cmd.code(), data: frame::or_filler(data) })
}

/// ASCII `'1'` / `'0'`: the settings-family flag.
pub open spec fn ascii_flag_of(on: bool) -> u8 {
    if on {
        0x31
    } else {
        0x30
    }
}

/// Raw `0x01` / `0x00`: the media and call family flag.
pub open spec fn raw_flag_of(on: bool) -> u8 {
    if on {
        1
    } else {
        0
    }
}

/// The ASCII digit of an orientation.
pub open spec fn orientation_digit(orientation: Orientation) -> u8 {
    match orientation {
        Orientation::Portrait => 0x30,
        Orientation::Landscape => 0x31,
    }
}

fn ascii_flag(on: bool) -> (b: u8)
    ensures
        b == ascii_flag_of(on),
{
    if on {
        0x31
    } else {
        0x30
    }
}

fn raw_flag(on: bool) -> (b: u8)
    ensures
        b == raw_flag_of(on),
{
    if on {
        1
    } else {
        0
    }
}

/// A command without a payload.
fn bare(cmd: AppCommand) -> (bytes: Vec<u8>)
    ensures
        bytes@ == command_bytes(cmd, Seq::empty()),
{
    let none: [u8; 0] = [];
    assert(none@ =~= Seq::empty());
    encode_command(cmd, none.as_slice())
}

/// A command with one payload byte.
fn with_byte(cmd: AppCommand, byte: u8) -> (bytes: Vec<u8>)
    ensures
        bytes@ == command_bytes(cmd, seq![byte]),
{
    let data: [u8; 1] = [byte];
    assert(data@ =~= seq![byte]);
    encode_command(cmd, data.as_slice())
}

/// A command with two payload bytes.
fn with_two_bytes(cmd: AppCommand, first: u8, second: u8) -> (bytes: Vec<u8>)
    ensures
        bytes@ == command_bytes(cmd, seq![first, second]),
{
    let data: [u8; 2] = [first, second];
    assert(data@ =~= seq![first, second]);
    encode_command(cmd, data.as_slice())
}

/// Indicator-LED brightness. There is no "off" level.
#[derive(Debug, Clone, Copy, PartialEq, Eq, PartialOrd, Ord, Hash, Structural)]
pub enum LedLevel {
    /// Wire `'0'`.
    Low,
    /// Wire `'1'`.
    Mid,
    /// Wire `'2'`.
    High,
}

impl LedLevel {
    pub const ALL: [LedLevel; 3] = [LedLevel::Low, LedLevel::Mid, LedLevel::High];

    pub open spec fn spec_ascii(self) -> u8 {
        match self {
            LedLevel::Low => 0x30,
            LedLevel::Mid => 0x31,
            LedLevel::High => 0x32,
        }
    }

    /// The ASCII byte that goes on the wire.
    #[verifier::when_used_as_spec(spec_ascii)]
    pub fn ascii(self) -> (byte: u8)
        ensures
            byte == self.ascii(),
    {
        match self {
            LedLevel::Low => 0x30,
            LedLevel::Mid => 0x31,
            LedLevel::High => 0x32,
        }
    }

    /// From the `0..=2` level a `0x01` burst frame decodes to
    /// ([`SwitchReport::Led`](crate::parser::SwitchReport::Led)). Nothing above 2 rather than a
    /// clamp: a clamp would push an out-of-range setting back to the hardware as a plausible one.
    pub fn from_level(level: u8) -> (r: Option<LedLevel>)
        ensures
            match r {
                Some(l) => l.ascii() == 0x30 + level,
                None => level > 2,
            },
    {
        if level == 0 {
            Some(LedLevel::Low)
        } else if level == 1 {
            Some(LedLevel::Mid)
        } else if level == 2 {
            Some(LedLevel::High)
        } else {
            None
        }
    }
}

// ---- capture -----------------------------------------------------------------------

/// `0x22`: take a photo. `for_ai` adds the full-resolution still the AI path wants (`0x31`),
/// against `0x30` for a plain photo.
pub fn take_photo(for_ai: bool) -> (bytes: Vec<u8>)
    ensures
        bytes@ == command_bytes(AppCommand::TakePhoto, seq![ascii_flag_of(for_ai)]),
{
    with_byte(AppCommand::TakePhoto, ascii_flag(for_ai))
}

/// `0x23`: start a video recording. Payload is the protocol's `0x00` filler.
pub fn start_video() -> (bytes: Vec<u8>)
    ensures
        bytes@ == command_bytes(AppCommand::StartVideo, Seq::empty()),
{
    bare(AppCommand::StartVideo)
}

/// `0x24`: stop it.
pub fn stop_video() -> (bytes: Vec<u8>)
    ensures
        bytes@ == command_bytes(AppCommand::StopVideo, Seq::empty()),
{
    bare(AppCommand::StopVideo)
}

/// `0x34`: start / stop an on-device audio recording, as a raw flag.
pub fn voice_recording(start: bool) -> (bytes: Vec<u8>)
    ensures
        bytes@ == command_bytes(AppCommand::VoiceRecording, seq![raw_flag_of(start)]),
{
    with_byte(AppCommand::VoiceRecording, raw_flag(start))
}

/// `0x40`: how many photos and videos the device is holding. The reply is a `0x42`, not a `0x40`.
pub fn get_file_count() -> (bytes: Vec<u8>)
    ensures
        bytes@ == command_bytes(AppCommand::GetFileCount, Seq::empty()),
{
    bare(AppCommand::GetFileCount)
}

// ---- Wi-Fi -------------------------------------------------------------------------

/// `0x39` (files) / `0x67` (live): raise the SoftAP. `p2p` selects `0x31` over `0x30`.
///
/// One function over [`WifiService`] rather than two, because the pair is the same command with a
/// different byte. The SSID arrives separately in a `0x25`.
pub fn open_wifi(service: WifiService, p2p: bool) -> (bytes: Vec<u8>)
    ensures
        bytes@ == command_bytes(service.command(), seq![ascii_flag_of(p2p)]),
{
    with_byte(service.command(), ascii_flag(p2p))
}

/// `0x44 30 00`: everything transferred, clear the thumbnail count.
pub fn file_download_complete() -> (bytes: Vec<u8>)
    ensures
        bytes@ == command_bytes(AppCommand::FileDownloadComplete, seq![0x30, 0x00]),
{
    with_two_bytes(AppCommand::FileDownloadComplete, 0x30, 0x00)
}

/// `0x44 31 <n>`: partial. The device subtracts `downloaded` from its own count, powers the ISP off
/// and re-reports the remainder.
pub fn file_download_partial(downloaded: u8) -> (bytes: Vec<u8>)
    ensures
        bytes@ == command_bytes(AppCommand::FileDownloadComplete, seq![0x31, downloaded]),
{
    with_two_bytes(AppCommand::FileDownloadComplete, 0x31, downloaded)
}

/// `0x44 30 01`: power the ISP back off without touching the thumbnail count. The teardown for a
/// Wi-Fi session that downloaded nothing; skipping it leaves the glasses in SoftAP-waiting mode.
pub fn power_off_isp() -> (bytes: Vec<u8>)
    ensures
        bytes@ == command_bytes(AppCommand::FileDownloadComplete, seq![0x30, 0x01]),
{
    with_two_bytes(AppCommand::FileDownloadComplete, 0x30, 0x01)
}

// ---- media and call: raw flags, not ASCII ------------------------------------------

/// `0x30`: previous (`0x00`) / next (`0x01`) track.
pub fn switch_music(next: bool) -> (bytes: Vec<u8>)
    ensures
        bytes@ == command_bytes(AppCommand::SwitchMusic, seq![raw_flag_of(next)]),
{
    with_byte(AppCommand::SwitchMusic, raw_flag(next))
}

/// `0x31`: play (`0x01`) / pause (`0x00`).
pub fn play_pause(play: bool) -> (bytes: Vec<u8>)
    ensures
        bytes@ == command_bytes(AppCommand::PlayPause, seq![raw_flag_of(play)]),
{
    with_byte(AppCommand::PlayPause, raw_flag(play))
}

/// `0x32`: volume up (`0x01`) / down (`0x00`), the step command. Not to be confused with
/// [`set_volume`] (`0x70`), which sets one channel's absolute level.
pub fn volume_step(up: bool) -> (bytes: Vec<u8>)
    ensures
        bytes@ == command_bytes(AppCommand::Volume, seq![raw_flag_of(up)]),
{
    with_byte(AppCommand::Volume, raw_flag(up))
}

/// `0x33`: answer (`0x01`) / hang up (`0x00`).
pub fn answer_hangup(answer: bool) -> (bytes: Vec<u8>)
    ensures
        bytes@ == command_bytes(AppCommand::AnswerHangup, seq![raw_flag_of(answer)]),
{
    with_byte(AppCommand::AnswerHangup, raw_flag(answer))
}

/// `0x70`: set one output level. `level` is carried verbatim, because its scale is not pinned.
pub fn set_volume(channel: VolumeChannel, level: u8) -> (bytes: Vec<u8>)
    ensures
        bytes@ == command_bytes(AppCommand::SetVolume, seq![channel.code(), level]),
{
    with_two_bytes(AppCommand::SetVolume, channel.code(), level)
}

/// `0x69`: read all three levels back. Reply order is `[system, media, call]`.
pub fn get_volumes() -> (bytes: Vec<u8>)
    ensures
        bytes@ == command_bytes(AppCommand::GetVolumes, Seq::empty()),
{
    bare(AppCommand::GetVolumes)
}

// ---- voice -------------------------------------------------------------------------

/// `0x56`: interrupt the voice transmission. The only thing that closes the device mic.
pub fn interrupt_voice() -> (bytes: Vec<u8>)
    ensures
        bytes@ == command_bytes(AppCommand::InterruptVoice, Seq::empty()),
{
    bare(AppCommand::InterruptVoice)
}

/// `0x57`: ask for a retransmit.
pub fn retransmit_voice() -> (bytes: Vec<u8>)
    ensures
        bytes@ == command_bytes(AppCommand::RetransmitVoice, Seq::empty()),
{
    bare(AppCommand::RetransmitVoice)
}

/// `0x71`: read which voice features are disabled. `0x00` back means the wake word is live.
pub fn get_voice_disable_state() -> (bytes: Vec<u8>)
    ensures
        bytes@ == command_bytes(AppCommand::GetVoiceDisableState, Seq::empty()),
{
    bare(AppCommand::GetVoiceDisableState)
}

// ---- settings: ASCII flags ---------------------------------------------------------

/// `0x01`: indicator-LED brightness.
pub fn set_led(level: LedLevel) -> (bytes: Vec<u8>)
    ensures
        bytes@ == command_bytes(AppCommand::SetLed, seq![level.ascii()]),
{
    with_byte(AppCommand::SetLed, level.ascii())
}

/// `0x02`: record duration in seconds, two bytes big-endian. The one setting whose value is not an
/// ASCII digit.
pub fn set_record_duration(seconds: u16) -> (bytes: Vec<u8>)
    ensures
        bytes@ == command_bytes(
            AppCommand::SetRecordDuration,
            seq![(seconds / 256) as u8, (seconds % 256) as u8],
        ),
{
    with_two_bytes(AppCommand::SetRecordDuration, (seconds / 256) as u8, (seconds % 256) as u8)
}

/// `0x04`: wear detection on/off.
pub fn set_wear_detection(on: bool) -> (bytes: Vec<u8>)
    ensures
        bytes@ == command_bytes(AppCommand::WearDetection, seq![ascii_flag_of(on)]),
{
    with_byte(AppCommand::WearDetection, ascii_flag(on))
}

/// `0x06`: voice command / wake word on/off.
pub fn set_voice_command(on: bool) -> (bytes: Vec<u8>)
    ensures
        bytes@ == command_bytes(AppCommand::VoiceCommand, seq![ascii_flag_of(on)]),
{
    with_byte(AppCommand::VoiceCommand, ascii_flag(on))
}

/// `0x61`: capture orientation.
pub fn set_orientation(orientation: Orientation) -> (bytes: Vec<u8>)
    ensures
        bytes@ == command_bytes(AppCommand::Orientation, seq![orientation_digit(orientation)]),
{
    let byte: u8 = match orientation {
        Orientation::Portrait => 0x30,
        Orientation::Landscape => 0x31,
    };
    with_byte(AppCommand::Orientation, byte)
}

/// `0x62`: offline voice language, raw `0x00` Chinese / `0x01` English.
pub fn set_offline_voice_language(english: bool) -> (bytes: Vec<u8>)
    ensures
        bytes@ == command_bytes(AppCommand::OfflineVoiceLang, seq![raw_flag_of(english)]),
{
    with_byte(AppCommand::OfflineVoiceLang, raw_flag(english))
}

/// `0x07`-`0x11`: bind one touchpad gesture slot to an action.
pub fn set_gesture(slot: GestureSlot, action: GestureAction) -> (bytes: Vec<u8>)
    ensures
        bytes@ == command_bytes(slot.command(), seq![action.ascii()]),
{
    with_byte(slot.command(), action.ascii())
}

// ---- device ------------------------------------------------------------------------

/// `0x59`: push the phone's wall clock as `YY MM DD HH MM SS` in plain hex, not BCD.
///
/// Components rather than an instant, because this crate reads no clock. `year` is a full year; only
/// its last two digits go on the wire.
pub fn send_phone_time(
    year: u16,
    month: u8,
    day: u8,
    hour: u8,
    minute: u8,
    second: u8,
) -> (bytes: Vec<u8>)
    ensures
        bytes@ == command_bytes(
            AppCommand::SendPhoneTime,
            seq![(year % 100) as u8, month, day, hour, minute, second],
        ),
{
    let data: [u8; 6] = [(year % 100) as u8, month, day, hour, minute, second];
    assert(data@ =~= seq![(year % 100) as u8, month, day, hour, minute, second]);
    encode_command(AppCommand::SendPhoneTime, data.as_slice())
}

/// `0x48`: read the switch states. The reply is a ten-frame burst, never a `0x48` frame; feed it to
/// [`SwitchStates`](crate::parser::SwitchStates).
pub fn get_switch_states() -> (bytes: Vec<u8>)
    ensures
        bytes@ == command_bytes(AppCommand::GetSwitchStates, Seq::empty()),
{
    bare(AppCommand::GetSwitchStates)
}

/// `0x45`: read the ten action-sync flags.
pub fn get_device_status() -> (bytes: Vec<u8>)
    ensures
        bytes@ == command_bytes(AppCommand::GetDeviceStatus, Seq::empty()),
{
    bare(AppCommand::GetDeviceStatus)
}

/// `0x17`: battery. The reply's two digits are ASCII and overflow `'9'` to `0x3A` at 100 %.
pub fn get_battery() -> (bytes: Vec<u8>)
    ensures
        bytes@ == command_bytes(AppCommand::GetBattery, Seq::empty()),
{
    bare(AppCommand::GetBattery)
}

/// `0x55`: bt / isp firmware versions and the hardware revision.
pub fn get_versions() -> (bytes: Vec<u8>)
    ensures
        bytes@ == command_bytes(AppCommand::GetVersions, Seq::empty()),
{
    bare(AppCommand::GetVersions)
}

/// `0x64`: project and customer codes.
pub fn get_project_name() -> (bytes: Vec<u8>)
    ensures
        bytes@ == command_bytes(AppCommand::GetProjectName, Seq::empty()),
{
    bare(AppCommand::GetProjectName)
}

/// `0x95`: the 4-byte capability word. Also arrives unsolicited after every link-up.
pub fn get_capabilities() -> (bytes: Vec<u8>)
    ensures
        bytes@ == command_bytes(AppCommand::GetCapabilities, Seq::empty()),
{
    bare(AppCommand::GetCapabilities)
}

/// `0x14`: factory reset.
pub fn factory_reset() -> (bytes: Vec<u8>)
    ensures
        bytes@ == command_bytes(AppCommand::FactoryReset, Seq::empty()),
{
    bare(AppCommand::FactoryReset)
}

/// `0x60`: reboot.
pub fn reboot() -> (bytes: Vec<u8>)
    ensures
        bytes@ == command_bytes(AppCommand::Reboot, Seq::empty()),
{
    bare(AppCommand::Reboot)
}

/// `0x63`: enter upgrade mode; `p2p` selects `0x31` over `0x30`, as with the Wi-Fi opens.
pub fn enter_upgrade(p2p: bool) -> (bytes: Vec<u8>)
    ensures
        bytes@ == command_bytes(AppCommand::EnterUpgrade, seq![ascii_flag_of(p2p)]),
{
    with_byte(AppCommand::EnterUpgrade, ascii_flag(p2p))
}

/// `0x65`: report the just-flashed ISP version after a successful OTA.
pub fn send_isp_version(major: u8, minor: u8, patch: u8) -> (bytes: Vec<u8>)
    ensures
        bytes@ == command_bytes(AppCommand::SendIspVersion, seq![major, minor, patch]),
{
    let data: [u8; 3] = [major, minor, patch];
    assert(data@ =~= seq![major, minor, patch]);
    encode_command(AppCommand::SendIspVersion, data.as_slice())
}

// ---- laws -----------------------------------------------------------------------------

/// Every command decodes, checksum, length and all, to its own opcode and a payload that is never
/// empty. Each builder makes such bytes.
pub proof fn lemma_commands_decode(cmd: AppCommand, data: Seq<u8>)
    requires
        data.len() + 2 <= frame::MAX_LENGTH_FIELD,
    ensures
        ({
            let sent = FrameView { cmd: cmd.code(), data: frame::or_filler(data) };
            &&& frame::decode_result(APP_HEADER, command_bytes(cmd, data)) == Ok::<
                FrameView,
                frame::DecodeError,
            >(sent)
            &&& AppCommand::of_code(sent.cmd) == Some(cmd)
            &&& sent.data.len() >= 1
        }),
{
    let sent = FrameView { cmd: cmd.code(), data: frame::or_filler(data) };
    frame::lemma_decode_undoes_encode(APP_HEADER, sent, Seq::empty());
    assert(command_bytes(cmd, data) + Seq::empty() =~= command_bytes(cmd, data));
}

/// The two flag conventions never send the same byte.
pub proof fn lemma_flag_conventions_differ(a: bool, b: bool)
    ensures
        ascii_flag_of(a) != raw_flag_of(b),
{
}

/// The level that a burst reports gives back the level that was set.
pub proof fn lemma_led_level_round_trip(level: LedLevel)
    ensures
        parser::event_of(
            FrameView { cmd: AppCommand::SetLed.code(), data: seq![level.ascii()] },
        ) == DeviceEventView::Switch(SwitchReport::Led((level.ascii() - 0x30) as u8)),
{
}

/// The device echoes a setting with the setter's own opcode and payload, and the echo reports what
/// was set.
pub proof fn lemma_an_echo_reports_the_setting(
    seconds: u16,
    on: bool,
    orientation: Orientation,
    slot: GestureSlot,
    action: GestureAction,
)
    ensures
        parser::event_of(
            FrameView {
                cmd: AppCommand::SetRecordDuration.code(),
                data: seq![(seconds / 256) as u8, (seconds % 256) as u8],
            },
        ) == DeviceEventView::Switch(SwitchReport::RecordSeconds(seconds)),
        parser::event_of(
            FrameView { cmd: AppCommand::WearDetection.code(), data: seq![ascii_flag_of(on)] },
        ) == DeviceEventView::Switch(SwitchReport::WearDetection(on)),
        parser::event_of(
            FrameView { cmd: AppCommand::VoiceCommand.code(), data: seq![ascii_flag_of(on)] },
        ) == DeviceEventView::Switch(SwitchReport::VoiceCommand(on)),
        parser::event_of(
            FrameView {
                cmd: AppCommand::Orientation.code(),
                data: seq![orientation_digit(orientation)],
            },
        ) == DeviceEventView::Switch(SwitchReport::Orientation(orientation)),
        parser::event_of(
            FrameView { cmd: slot.command().code(), data: seq![action.ascii()] },
        ) == (DeviceEventView::GestureBinding { slot, action: Some(action), raw: action.ascii() }),
{
}

/// What stands where in a command: `AB 55`, how many bytes follow the four first ones, most
/// significant byte first, the opcode, the data or one zero byte for none, and the sum of opcode
/// and data, modulo 256.
pub proof fn lemma_what_stands_where_in_a_command(cmd: AppCommand, data: Seq<u8>)
    requires
        data.len() < 0xFFFE,
    ensures
        ({
            let bytes = command_bytes(cmd, data);
            let sent = if data.len() == 0 {
                seq![0u8]
            } else {
                data
            };
            &&& bytes.len() == sent.len() + 6
            &&& bytes[0] == 0xAB
            &&& bytes[1] == 0x55
            &&& bytes[2] * 256 + bytes[3] == bytes.len() - 4
            &&& bytes[4] == cmd.code()
            &&& bytes.subrange(5, bytes.len() - 1) == sent
            &&& bytes.last() == frame::checksum_of(cmd.code(), sent)
        }),
{
    let sent = frame::or_filler(data);
    let bytes = command_bytes(cmd, data);
    frame::lemma_what_stands_where_in_a_frame(APP_HEADER, cmd.code(), sent);
    assert(bytes.subrange(5, bytes.len() - 1) =~= sent);
}

/// The two ways of writing a flag, and the digits of the light levels and the orientations.
pub proof fn lemma_how_flags_and_levels_are_written(on: bool, level: LedLevel, o: Orientation)
    ensures
        ascii_flag_of(on) == 0x30 + raw_flag_of(on),
        raw_flag_of(on) == (if on {
            1int
        } else {
            0
        }),
        level == LedLevel::Low <==> level.ascii() == 0x30,
        level == LedLevel::Mid <==> level.ascii() == 0x31,
        level == LedLevel::High <==> level.ascii() == 0x32,
        orientation_digit(o) == (if o == Orientation::Landscape {
            0x31int
        } else {
            0x30
        }),
{
}

/// `bytes` are a command of opcode `code` with this payload: `AB 55`, the length of what follows,
/// the opcode, the payload and their sum.
pub open spec fn sends(bytes: Seq<u8>, code: u8, data: Seq<u8>) -> bool {
    &&& bytes.len() == data.len() + 6
    &&& bytes[0] == 0xAB
    &&& bytes[1] == 0x55
    &&& bytes[2] * 256 + bytes[3] == data.len() + 2
    &&& bytes[4] == code
    &&& bytes.subrange(5, bytes.len() - 1) == data
    &&& bytes.last() == frame::checksum_of(code, data)
}

/// Every command is sent with its opcode, and with one zero byte where it has no payload.
pub proof fn lemma_sends(cmd: AppCommand, data: Seq<u8>)
    requires
        data.len() < 0xFFFE,
    ensures
        sends(
            command_bytes(cmd, data),
            cmd.code(),
            if data.len() == 0 {
                seq![0u8]
            } else {
                data
            },
        ),
{
    lemma_what_stands_where_in_a_command(cmd, data);
}

/// What each command without a payload sends: its opcode and one zero byte.
pub proof fn lemma_what_bare_commands_send(bytes: Vec<u8>)
    ensures
        call_ensures(start_video, (), bytes) ==> sends(bytes@, 0x23, seq![0u8]),
        call_ensures(stop_video, (), bytes) ==> sends(bytes@, 0x24, seq![0u8]),
        call_ensures(get_file_count, (), bytes) ==> sends(bytes@, 0x40, seq![0u8]),
        call_ensures(get_volumes, (), bytes) ==> sends(bytes@, 0x69, seq![0u8]),
        call_ensures(interrupt_voice, (), bytes) ==> sends(bytes@, 0x56, seq![0u8]),
        call_ensures(retransmit_voice, (), bytes) ==> sends(bytes@, 0x57, seq![0u8]),
        call_ensures(get_voice_disable_state, (), bytes) ==> sends(bytes@, 0x71, seq![0u8]),
        call_ensures(get_switch_states, (), bytes) ==> sends(bytes@, 0x48, seq![0u8]),
        call_ensures(get_device_status, (), bytes) ==> sends(bytes@, 0x45, seq![0u8]),
        call_ensures(get_battery, (), bytes) ==> sends(bytes@, 0x17, seq![0u8]),
        call_ensures(get_versions, (), bytes) ==> sends(bytes@, 0x55, seq![0u8]),
        call_ensures(get_project_name, (), bytes) ==> sends(bytes@, 0x64, seq![0u8]),
        call_ensures(get_capabilities, (), bytes) ==> sends(bytes@, 0x95, seq![0u8]),
        call_ensures(factory_reset, (), bytes) ==> sends(bytes@, 0x14, seq![0u8]),
        call_ensures(reboot, (), bytes) ==> sends(bytes@, 0x60, seq![0u8]),
{
    lemma_sends(AppCommand::StartVideo, Seq::empty());
    lemma_sends(AppCommand::StopVideo, Seq::empty());
    lemma_sends(AppCommand::GetFileCount, Seq::empty());
    lemma_sends(AppCommand::GetVolumes, Seq::empty());
    lemma_sends(AppCommand::InterruptVoice, Seq::empty());
    lemma_sends(AppCommand::RetransmitVoice, Seq::empty());
    lemma_sends(AppCommand::GetVoiceDisableState, Seq::empty());
    lemma_sends(AppCommand::GetSwitchStates, Seq::empty());
    lemma_sends(AppCommand::GetDeviceStatus, Seq::empty());
    lemma_sends(AppCommand::GetBattery, Seq::empty());
    lemma_sends(AppCommand::GetVersions, Seq::empty());
    lemma_sends(AppCommand::GetProjectName, Seq::empty());
    lemma_sends(AppCommand::GetCapabilities, Seq::empty());
    lemma_sends(AppCommand::FactoryReset, Seq::empty());
    lemma_sends(AppCommand::Reboot, Seq::empty());
}

/// What each command with a flag sends: settings an ASCII digit, media and calls a raw one.
pub proof fn lemma_what_flag_commands_send(on: bool, bytes: Vec<u8>)
    ensures
        call_ensures(take_photo, (on,), bytes) ==> sends(
            bytes@,
            0x22,
            seq![
                if on {
                    0x31u8
                } else {
                    0x30
                },
            ],
        ),
        call_ensures(set_wear_detection, (on,), bytes) ==> sends(
            bytes@,
            0x04,
            seq![
                if on {
                    0x31u8
                } else {
                    0x30
                },
            ],
        ),
        call_ensures(set_voice_command, (on,), bytes) ==> sends(
            bytes@,
            0x06,
            seq![
                if on {
                    0x31u8
                } else {
                    0x30
                },
            ],
        ),
        call_ensures(enter_upgrade, (on,), bytes) ==> sends(
            bytes@,
            0x63,
            seq![
                if on {
                    0x31u8
                } else {
                    0x30
                },
            ],
        ),
        call_ensures(voice_recording, (on,), bytes) ==> sends(
            bytes@,
            0x34,
            seq![
                if on {
                    1u8
                } else {
                    0
                },
            ],
        ),
        call_ensures(switch_music, (on,), bytes) ==> sends(
            bytes@,
            0x30,
            seq![
                if on {
                    1u8
                } else {
                    0
                },
            ],
        ),
        call_ensures(play_pause, (on,), bytes) ==> sends(
            bytes@,
            0x31,
            seq![
                if on {
                    1u8
                } else {
                    0
                },
            ],
        ),
        call_ensures(volume_step, (on,), bytes) ==> sends(
            bytes@,
            0x32,
            seq![
                if on {
                    1u8
                } else {
                    0
                },
            ],
        ),
        call_ensures(answer_hangup, (on,), bytes) ==> sends(
            bytes@,
            0x33,
            seq![
                if on {
                    1u8
                } else {
                    0
                },
            ],
        ),
        call_ensures(set_offline_voice_language, (on,), bytes) ==> sends(
            bytes@,
            0x62,
            seq![
                if on {
                    1u8
                } else {
                    0
                },
            ],
        ),
{
    lemma_sends(AppCommand::TakePhoto, seq![ascii_flag_of(on)]);
    lemma_sends(AppCommand::WearDetection, seq![ascii_flag_of(on)]);
    lemma_sends(AppCommand::VoiceCommand, seq![ascii_flag_of(on)]);
    lemma_sends(AppCommand::EnterUpgrade, seq![ascii_flag_of(on)]);
    lemma_sends(AppCommand::VoiceRecording, seq![raw_flag_of(on)]);
    lemma_sends(AppCommand::SwitchMusic, seq![raw_flag_of(on)]);
    lemma_sends(AppCommand::PlayPause, seq![raw_flag_of(on)]);
    lemma_sends(AppCommand::Volume, seq![raw_flag_of(on)]);
    lemma_sends(AppCommand::AnswerHangup, seq![raw_flag_of(on)]);
    lemma_sends(AppCommand::OfflineVoiceLang, seq![raw_flag_of(on)]);
}

/// What each command with a choice sends: the service and the gesture choose the opcode, the
/// channel, the level, the orientation and the action the byte.
pub proof fn lemma_what_choices_send(
    service: WifiService,
    p2p: bool,
    channel: VolumeChannel,
    volume: u8,
    level: LedLevel,
    orientation: Orientation,
    slot: GestureSlot,
    action: GestureAction,
    bytes: Vec<u8>,
)
    ensures
        call_ensures(open_wifi, (service, p2p), bytes) ==> sends(
            bytes@,
            match service {
                WifiService::Files => 0x39,
                WifiService::Live => 0x67,
            },
            seq![
                if p2p {
                    0x31u8
                } else {
                    0x30
                },
            ],
        ),
        call_ensures(set_volume, (channel, volume), bytes) ==> sends(
            bytes@,
            0x70,
            seq![
                match channel {
                    VolumeChannel::System => 0u8,
                    VolumeChannel::Media => 1,
                    VolumeChannel::Call => 2,
                },
                volume,
            ],
        ),
        call_ensures(set_led, (level,), bytes) ==> sends(
            bytes@,
            0x01,
            seq![
                match level {
                    LedLevel::Low => 0x30u8,
                    LedLevel::Mid => 0x31,
                    LedLevel::High => 0x32,
                },
            ],
        ),
        call_ensures(set_orientation, (orientation,), bytes) ==> sends(
            bytes@,
            0x61,
            seq![
                match orientation {
                    Orientation::Portrait => 0x30u8,
                    Orientation::Landscape => 0x31,
                },
            ],
        ),
        call_ensures(set_gesture, (slot, action), bytes) ==> sends(
            bytes@,
            match slot {
                GestureSlot::SwipeForward => 0x07,
                GestureSlot::SwipeBack => 0x08,
                GestureSlot::SingleTap => 0x09,
                GestureSlot::DoubleTap => 0x10,
                GestureSlot::TripleTap => 0x11,
            },
            seq![
                match action {
                    GestureAction::VolumeDown => 0x30u8,
                    GestureAction::VolumeUp => 0x31,
                    GestureAction::PlayPause => 0x32,
                    GestureAction::NextTrack => 0x33,
                    GestureAction::PreviousTrack => 0x34,
                },
            ],
        ),
{
    lemma_sends(service.command(), seq![ascii_flag_of(p2p)]);
    lemma_sends(AppCommand::SetVolume, seq![channel.code(), volume]);
    lemma_sends(AppCommand::SetLed, seq![level.ascii()]);
    lemma_sends(AppCommand::Orientation, seq![orientation_digit(orientation)]);
    lemma_sends(slot.command(), seq![action.ascii()]);
}

/// What each command with numbers sends: seconds most significant byte first, the year
/// without its century, and every other number as it is.
pub proof fn lemma_what_numbers_send(
    seconds: u16,
    year: u16,
    first: u8,
    second: u8,
    third: u8,
    fourth: u8,
    fifth: u8,
    bytes: Vec<u8>,
)
    ensures
        call_ensures(file_download_complete, (), bytes) ==> sends(bytes@, 0x44, seq![0x30u8, 0]),
        call_ensures(power_off_isp, (), bytes) ==> sends(bytes@, 0x44, seq![0x30u8, 1]),
        call_ensures(file_download_partial, (first,), bytes) ==> sends(
            bytes@,
            0x44,
            seq![0x31u8, first],
        ),
        call_ensures(set_record_duration, (seconds,), bytes) ==> bytes@.len() == 8 && sends(
            bytes@,
            0x02,
            bytes@.subrange(5, 7),
        ) && bytes@[5] * 256 + bytes@[6] == seconds,
        call_ensures(send_phone_time, (year, first, second, third, fourth, fifth), bytes)
            ==> bytes@.len() == 12 && sends(bytes@, 0x59, bytes@.subrange(5, 11))
            && bytes@.subrange(6, 11) == seq![first, second, third, fourth, fifth] && bytes@[5]
            == year % 100,
        call_ensures(send_isp_version, (first, second, third), bytes) ==> sends(
            bytes@,
            0x65,
            seq![first, second, third],
        ),
{
    lemma_sends(AppCommand::FileDownloadComplete, seq![0x30u8, 0x00]);
    lemma_sends(AppCommand::FileDownloadComplete, seq![0x30u8, 0x01]);
    lemma_sends(AppCommand::FileDownloadComplete, seq![0x31u8, first]);
    let duration = seq![(seconds / 256) as u8, (seconds % 256) as u8];
    lemma_sends(AppCommand::SetRecordDuration, duration);
    let sent = command_bytes(AppCommand::SetRecordDuration, duration);
    assert(sent.subrange(5, 7)[0] == sent[5] && sent.subrange(5, 7)[1] == sent[6]);
    let time = seq![(year % 100) as u8, first, second, third, fourth, fifth];
    lemma_sends(AppCommand::SendPhoneTime, time);
    let sent = command_bytes(AppCommand::SendPhoneTime, time);
    assert(sent.subrange(5, 11)[0] == sent[5]);
    assert(sent.subrange(6, 11) =~= sent.subrange(5, 11).subrange(1, 6));
    assert(time.subrange(1, 6) =~= seq![first, second, third, fourth, fifth]);
    lemma_sends(AppCommand::SendIspVersion, seq![first, second, third]);
}

} // verus!

//! Inbound decode: one `AC 55` control frame to one typed [`DeviceEvent`].
//!
//! [`crate::frame`] owns the envelope and this module owns the fields; a caller never sees a byte
//! offset. The decode is total: every `cmd` byte either has a typed meaning or is reported as
//! [`DeviceEvent::Unrecognised`] with its payload intact.
//!
//! Malformed is an event, not a silent drop, and no decode clamps: a clamp turns a corrupt frame
//! into a plausible wrong number on the user's screen.
use crate::frame;
use crate::frame::Deframer;
use crate::frame::Frame;
use crate::frame::FrameView;
use crate::frame::Residual;
use crate::frame::DEVICE_HEADER;
use crate::opcodes;
use crate::opcodes::AppCommand;
use crate::opcodes::DeviceUpload;
use crate::opcodes::Evidence;
use crate::opcodes::GestureAction;
use crate::opcodes::GestureSlot;
use crate::opcodes::VolumeChannel;
use crate::text;
use crate::voice;
use crate::voice::EndCause;
use crate::voice::VoiceEvent;
use crate::voice::VoiceEventView;
use crate::voice::VoiceState;
use crate::voice::VoiceStream;
use crate::wire;
use crate::wire::be16;
use crate::wire::be32;
use vstd::prelude::*;
use vstd::slice::slice_subrange;
use vstd::slice::slice_to_vec;

verus! {

/// Which frame a battery reading came from: the same quantity in two encodings.
#[derive(Debug, Clone, Copy, PartialEq, Eq, PartialOrd, Ord, Hash, Structural)]
pub enum BatterySource {
    /// `0x17` reply: `<tens><ones><charging>`, the two digits ASCII.
    ReadReply,
    /// `0x53` unsolicited push: `<charging><percent>`, percent a raw byte and the fields in the
    /// opposite order.
    Push,
}

/// A decoded battery state. `percent` is `0..=100`.
#[derive(Debug, Clone, Copy, PartialEq, Eq, Structural)]
pub struct BatteryReading {
    pub percent: u8,
    pub charging: bool,
    pub source: BatterySource,
}

/// Firmware versions from `0x55`, three fields in one 7-byte payload.
#[derive(Debug, Clone, Copy, PartialEq, Eq)]
pub struct Versions {
    /// Bluetooth firmware, `[major, minor, patch]`.
    pub bt: [u8; 3],
    /// ISP (camera) firmware, `[major, minor, patch]`.
    pub isp: [u8; 3],
    /// Hardware revision, one byte.
    pub hardware: u8,
}

/// Project and customer codes from `0x64`: 8 bytes, 4 ASCII each, NUL-padded.
#[derive(Debug, Clone, PartialEq, Eq)]
pub struct Identity {
    pub project: String,
    pub customer: String,
}

/// Where a media count came from.
#[derive(Debug, Clone, Copy, PartialEq, Eq, PartialOrd, Ord, Hash, Structural)]
pub enum CountSource {
    /// `0x42`.
    Push,
    /// `0x40` echoed back with a count. Inferred: no capture contains one.
    ReadReply,
}

/// How many photos and videos the device is holding.
#[derive(Debug, Clone, Copy, PartialEq, Eq, Structural)]
pub struct MediaCount {
    pub count: u16,
    pub source: CountSource,
}

/// `0x95` device capability word: 4 bytes big-endian, deliberately not bit-decoded.
#[derive(Debug, Clone, Copy, PartialEq, Eq, Structural)]
pub struct Capabilities {
    pub raw: u32,
}

impl Capabilities {
    /// The word every captured unit of this model reports.
    pub const KNOWN_E09: u32 = 0x0000_040B;

    /// True when this device reports the capability word that is characterised. A different word
    /// is not an error.
    pub fn is_known_configuration(self) -> (b: bool)
        ensures
            b == (self.raw == Self::KNOWN_E09),
    {
        self.raw == Self::KNOWN_E09
    }
}

/// `0x71`: which voice features are currently disabled, as a 1-byte bitmap whose bit positions
/// are unknown.
#[derive(Debug, Clone, Copy, PartialEq, Eq, Structural)]
pub struct VoiceFeatures {
    pub raw: u8,
}

impl VoiceFeatures {
    /// True when the device reports nothing disabled.
    pub fn all_enabled(self) -> (b: bool)
        ensures
            b == (self.raw == 0),
    {
        self.raw == 0
    }
}

/// The three output levels from a `0x69` reply. Levels are carried verbatim: the scale is not
/// pinned.
#[derive(Debug, Clone, Copy, PartialEq, Eq, Structural)]
pub struct Volumes {
    pub system: u8,
    pub media: u8,
    pub call: u8,
}

impl Volumes {
    /// The level for one channel.
    pub fn level(self, channel: VolumeChannel) -> (level: u8)
        ensures
            level == (match channel {
                VolumeChannel::System => self.system,
                VolumeChannel::Media => self.media,
                VolumeChannel::Call => self.call,
            }),
    {
        match channel {
            VolumeChannel::System => self.system,
            VolumeChannel::Media => self.media,
            VolumeChannel::Call => self.call,
        }
    }
}

/// The SoftAP the glasses just raised, from a `0x25` frame.
#[derive(Debug, Clone, PartialEq, Eq)]
pub struct WifiCredentials {
    pub ssid: String,
}

impl WifiCredentials {
    /// The factory-fixed WPA passphrase. It is not on the wire.
    pub const PASSPHRASE: &'static str = "12345678";

    pub fn passphrase(&self) -> (s: &'static str)
        ensures
            s@ == Self::PASSPHRASE@,
    {
        Self::PASSPHRASE
    }
}

/// Which of the two Wi-Fi modes an ack belongs to.
#[derive(Debug, Clone, Copy, PartialEq, Eq, PartialOrd, Ord, Hash, Structural)]
pub enum WifiService {
    /// `0x39`: the JSON file API.
    Files,
    /// `0x67`: the RTSP live stream.
    Live,
}

impl WifiService {
    /// The command that opens this mode.
    pub open spec fn spec_command(self) -> AppCommand {
        match self {
            WifiService::Files => AppCommand::OpenWifiFiles,
            WifiService::Live => AppCommand::OpenWifiLive,
        }
    }

    /// The command that opens this mode.
    #[verifier::when_used_as_spec(spec_command)]
    pub fn command(self) -> (c: AppCommand)
        ensures
            c == self.command(),
    {
        match self {
            WifiService::Files => AppCommand::OpenWifiFiles,
            WifiService::Live => AppCommand::OpenWifiLive,
        }
    }
}

/// `0x61` capture orientation.
#[derive(Debug, Clone, Copy, PartialEq, Eq, PartialOrd, Ord, Hash, Structural)]
pub enum Orientation {
    /// Wire `'0'`.
    Portrait,
    /// Wire `'1'`.
    Landscape,
}

/// One field of the `0x48` switch-state burst, or the echo of the setter that changed it.
#[derive(Debug, Clone, Copy, PartialEq, Eq, Structural)]
pub enum SwitchReport {
    /// `0x01`: indicator-LED brightness, `0..=2`.
    Led(u8),
    /// `0x02`: record duration in seconds.
    RecordSeconds(u16),
    /// `0x04`: wear detection.
    WearDetection(bool),
    /// `0x06`: voice command / wake word.
    VoiceCommand(bool),
    /// `0x61`: capture orientation.
    Orientation(Orientation),
}

/// One action flag in the `0x45` action-sync frame.
#[derive(Debug, Clone, Copy, PartialEq, Eq, PartialOrd, Ord, Hash, Structural)]
pub enum DeviceAction {
    TakePhoto,
    AudioRecord,
    VideoRecord,
    VolumeUp,
    VolumeDown,
    /// Nod. Never observed set in any capture.
    NodHead,
    /// Shake. Never observed set in any capture.
    ShakeHead,
    PlayPause,
    /// Never observed set in any capture.
    WearingDetection,
    /// File-import mode: set while a Wi-Fi session is open.
    ImportingMode,
}

impl DeviceAction {
    pub const ALL: [DeviceAction; 10] = [
        DeviceAction::TakePhoto,
        DeviceAction::AudioRecord,
        DeviceAction::VideoRecord,
        DeviceAction::VolumeUp,
        DeviceAction::VolumeDown,
        DeviceAction::NodHead,
        DeviceAction::ShakeHead,
        DeviceAction::PlayPause,
        DeviceAction::WearingDetection,
        DeviceAction::ImportingMode,
    ];

    /// Byte offset within the payload.
    pub open spec fn spec_index(self) -> usize {
        match self {
            DeviceAction::TakePhoto => 0,
            DeviceAction::AudioRecord => 1,
            DeviceAction::VideoRecord => 2,
            DeviceAction::VolumeUp => 3,
            DeviceAction::VolumeDown => 4,
            DeviceAction::NodHead => 5,
            DeviceAction::ShakeHead => 6,
            DeviceAction::PlayPause => 7,
            DeviceAction::WearingDetection => 8,
            DeviceAction::ImportingMode => 9,
        }
    }

    /// Byte offset within the payload.
    #[verifier::when_used_as_spec(spec_index)]
    pub fn index(self) -> (i: usize)
        ensures
            i == self.index(),
    {
        match self {
            DeviceAction::TakePhoto => 0,
            DeviceAction::AudioRecord => 1,
            DeviceAction::VideoRecord => 2,
            DeviceAction::VolumeUp => 3,
            DeviceAction::VolumeDown => 4,
            DeviceAction::NodHead => 5,
            DeviceAction::ShakeHead => 6,
            DeviceAction::PlayPause => 7,
            DeviceAction::WearingDetection => 8,
            DeviceAction::ImportingMode => 9,
        }
    }

    /// The action at this offset: [`Self::ALL`] is in index order.
    pub fn from_index(index: usize) -> (r: Option<DeviceAction>)
        ensures
            match r {
                Some(a) => a.index() == index,
                None => index >= 10,
            },
    {
        if index < 10 {
            Some(DeviceAction::ALL[index])
        } else {
            None
        }
    }

    /// What backs this flag: seven of the ten have been seen set on a real device.
    pub open spec fn spec_evidence(self) -> Evidence {
        match self {
            DeviceAction::NodHead
            | DeviceAction::ShakeHead
            | DeviceAction::WearingDetection => Evidence::ClientOnly,
            _ => Evidence::Capture,
        }
    }

    /// What backs this flag: seven of the ten have been seen set on a real device.
    #[verifier::when_used_as_spec(spec_evidence)]
    pub fn evidence(self) -> (level: Evidence)
        ensures
            level == self.evidence(),
    {
        match self {
            DeviceAction::NodHead
            | DeviceAction::ShakeHead
            | DeviceAction::WearingDetection => Evidence::ClientOnly,
            _ => Evidence::Capture,
        }
    }
}

/// Bit `i` of a bitmap.
pub open spec fn bit(flags: u16, i: int) -> bool {
    flags & (1u16 << (i as u16)) != 0
}

/// The `0x45` action-sync snapshot: ten independent flags in one frame.
#[derive(Debug, Clone, Copy, PartialEq, Eq)]
pub struct ActionSync {
    flags: u16,
}

impl View for ActionSync {
    type V = Seq<bool>;

    /// The ten flags, by index.
    closed spec fn view(&self) -> Seq<bool> {
        Seq::new(10, |i: int| bit(self.flags, i))
    }
}

impl Default for ActionSync {
    fn default() -> (a: Self)
        ensures
            a@ == Seq::new(10, |i: int| false),
    {
        assert(forall|i: u16| i < 16 ==> 0u16 & #[trigger] (1u16 << i) == 0) by (bit_vector);
        let a = ActionSync { flags: 0 };
        assert(a@ =~= Seq::new(10, |i: int| false));
        a
    }
}

/// The flags of a payload: a byte is active when it is not zero.
pub open spec fn flags_of(bytes: Seq<u8>) -> Seq<bool> {
    bytes.map_values(|b: u8| b != 0)
}

/// The actions among the first `n` that are active, in index order.
pub open spec fn active_of(flags: Seq<bool>, n: int) -> Seq<DeviceAction>
    decreases n,
{
    if n <= 0 {
        Seq::empty()
    } else if flags[n - 1] {
        active_of(flags, n - 1).push(DeviceAction::ALL@[n - 1])
    } else {
        active_of(flags, n - 1)
    }
}

impl ActionSync {
    /// Only the ten flags are ever set.
    #[verifier::type_invariant]
    spec fn wf(self) -> bool {
        forall|i: int| 10 <= i < 16 ==> !#[trigger] bit(self.flags, i)
    }

    /// Build from the ten payload bytes.
    pub fn from_flags(bytes: &[u8; 10]) -> (a: ActionSync)
        ensures
            a@ == flags_of(bytes@),
    {
        let mut flags: u16 = 0;
        assert(forall|i: u16| i < 16 ==> 0u16 & #[trigger] (1u16 << i) == 0) by (bit_vector);
        for i in 0..10u16
            invariant
                forall|j: int| 0 <= j < i ==> #[trigger] bit(flags, j) == (bytes@[j] != 0),
                forall|j: int| i <= j < 16 ==> !#[trigger] bit(flags, j),
        {
            if bytes[i as usize] != 0 {
                let ghost before = flags;
                flags = flags | (1u16 << i);
                proof {
                    assert forall|j: int| 0 <= j < 16 implies #[trigger] bit(flags, j) == (bit(
                        before,
                        j,
                    ) || j == i) by {
                        let k = j as u16;
                        assert(((before | (1u16 << i)) & (1u16 << k) != 0) == ((before & (1u16
                            << k) != 0) || k == i)) by (bit_vector)
                            requires
                                i < 16,
                                k < 16,
                        ;
                    }
                }
            }
        }
        let a = ActionSync { flags };
        assert(a@ =~= flags_of(bytes@));
        a
    }

    pub fn is_active(self, action: DeviceAction) -> (b: bool)
        ensures
            b == self@[action.index() as int],
    {
        let i: u16 = action.index() as u16;
        self.flags & (1u16 << i) != 0
    }

    /// Every action currently reported active, in index order.
    pub fn active(self) -> (actions: Vec<DeviceAction>)
        ensures
            actions@ == active_of(self@, 10),
    {
        let mut out: Vec<DeviceAction> = Vec::new();
        for i in 0..10usize
            invariant
                out@ == active_of(self@, i as int),
        {
            let action = DeviceAction::ALL[i];
            if self.is_active(action) {
                out.push(action);
            }
        }
        out
    }

    /// The bitmap, bit *i* = payload index *i*.
    pub fn raw(self) -> (flags: u16)
        ensures
            forall|i: int| 0 <= i < 16 ==> #[trigger] bit(flags, i) == (i < 10 && self@[i]),
    {
        proof {
            use_type_invariant(self);
        }
        self.flags
    }
}

/// Why a frame could not be decoded into its typed field.
#[derive(Debug, Clone, Copy, PartialEq, Eq, Structural)]
pub enum MalformedReason {
    /// Payload shorter than the field layout needs. `need` is the minimum length.
    TooShort { need: usize },
    /// The layout is satisfied but a value is outside the range it can legally take.
    OutOfRange,
    /// A text field is not ASCII, or is empty once NUL padding and control bytes are gone.
    NotText,
}

/// One decoded inbound frame.
#[derive(Debug, Clone, PartialEq, Eq)]
pub enum DeviceEvent {
    /// `0x17` or `0x53`. The source says which encoding it arrived in.
    Battery(BatteryReading),
    /// `0x55`.
    Versions(Versions),
    /// `0x64`.
    Identity(Identity),
    /// `0x42` (confirmed) or `0x40` (inferred).
    MediaCount(MediaCount),
    /// `0x01` / `0x02` / `0x04` / `0x06` / `0x61`: one field of the `0x48` burst, or the echo of
    /// the setter that changed it.
    Switch(SwitchReport),
    /// `0x07`-`0x11`: a touchpad gesture binding. `action` is `None` when the value byte is
    /// outside the known set; `raw` is always the byte the device sent.
    GestureBinding { slot: GestureSlot, action: Option<GestureAction>, raw: u8 },
    /// `0x95`.
    Capabilities(Capabilities),
    /// `0x71`.
    VoiceFeatures(VoiceFeatures),
    /// `0x69`.
    Volumes(Volumes),
    /// `0x25`: the SoftAP is up and this is how to join it.
    WifiCredentials(WifiCredentials),
    /// `0x39` / `0x67` ack: the device accepted the request and is raising the AP.
    WifiOpening { serves: WifiService, raw: u8 },
    /// `0x45`.
    ActionSync(ActionSync),
    /// Something happened to the wake-word capture. Emitted by [`Parser`], which owns the
    /// [`VoiceStream`].
    Voice(VoiceEvent),
    /// A `0x46` / `0x97` / `0x99` frame reached [`parse`], which cannot decode one on its own.
    VoiceFrame { cmd: u8, data: Vec<u8> },
    /// `0x49`: the device abandoned the capture.
    VoiceAbandoned,
    /// `0x51`.
    AiBroadcastCancelled,
    /// `0x52`. Unrelated to the `52 58` file-frame magic.
    HdImageFailed,
    /// `0x96`.
    IspUpgradeFinished { ok: bool },
    /// A frame whose opcode is known but that carries no state worth a type.
    Ack { command: AppCommand, data: Vec<u8> },
    /// The layout did not hold. Carries the raw frame.
    Malformed { cmd: u8, data: Vec<u8>, reason: MalformedReason },
    /// A `cmd` byte in neither opcode table. A real answer, not a failure.
    Unrecognised { cmd: u8, data: Vec<u8> },
}

/// The mathematical content of a [`DeviceEvent`].
#[verifier::ext_equal]
pub enum DeviceEventView {
    Battery(BatteryReading),
    Versions { bt: Seq<u8>, isp: Seq<u8>, hardware: u8 },
    Identity { project: Seq<char>, customer: Seq<char> },
    MediaCount(MediaCount),
    Switch(SwitchReport),
    GestureBinding { slot: GestureSlot, action: Option<GestureAction>, raw: u8 },
    Capabilities(Capabilities),
    VoiceFeatures(VoiceFeatures),
    Volumes(Volumes),
    WifiCredentials { ssid: Seq<char> },
    WifiOpening { serves: WifiService, raw: u8 },
    ActionSync(Seq<bool>),
    Voice(VoiceEventView),
    VoiceFrame { cmd: u8, data: Seq<u8> },
    VoiceAbandoned,
    AiBroadcastCancelled,
    HdImageFailed,
    IspUpgradeFinished { ok: bool },
    Ack { command: AppCommand, data: Seq<u8> },
    Malformed { cmd: u8, data: Seq<u8>, reason: MalformedReason },
    Unrecognised { cmd: u8, data: Seq<u8> },
}

impl View for DeviceEvent {
    type V = DeviceEventView;

    open spec fn view(&self) -> DeviceEventView {
        match *self {
            DeviceEvent::Battery(b) => DeviceEventView::Battery(b),
            DeviceEvent::Versions(v) => DeviceEventView::Versions {
                bt: v.bt@,
                isp: v.isp@,
                hardware: v.hardware,
            },
            DeviceEvent::Identity(i) => DeviceEventView::Identity {
                project: i.project@,
                customer: i.customer@,
            },
            DeviceEvent::MediaCount(c) => DeviceEventView::MediaCount(c),
            DeviceEvent::Switch(s) => DeviceEventView::Switch(s),
            DeviceEvent::GestureBinding { slot, action, raw } => DeviceEventView::GestureBinding {
                slot,
                action,
                raw,
            },
            DeviceEvent::Capabilities(c) => DeviceEventView::Capabilities(c),
            DeviceEvent::VoiceFeatures(f) => DeviceEventView::VoiceFeatures(f),
            DeviceEvent::Volumes(v) => DeviceEventView::Volumes(v),
            DeviceEvent::WifiCredentials(w) => DeviceEventView::WifiCredentials { ssid: w.ssid@ },
            DeviceEvent::WifiOpening { serves, raw } => DeviceEventView::WifiOpening {
                serves,
                raw,
            },
            DeviceEvent::ActionSync(a) => DeviceEventView::ActionSync(a@),
            DeviceEvent::Voice(v) => DeviceEventView::Voice(v@),
            DeviceEvent::VoiceFrame { cmd, data } => DeviceEventView::VoiceFrame {
                cmd,
                data: data@,
            },
            DeviceEvent::VoiceAbandoned => DeviceEventView::VoiceAbandoned,
            DeviceEvent::AiBroadcastCancelled => DeviceEventView::AiBroadcastCancelled,
            DeviceEvent::HdImageFailed => DeviceEventView::HdImageFailed,
            DeviceEvent::IspUpgradeFinished { ok } => DeviceEventView::IspUpgradeFinished { ok },
            DeviceEvent::Ack { command, data } => DeviceEventView::Ack { command, data: data@ },
            DeviceEvent::Malformed { cmd, data, reason } => DeviceEventView::Malformed {
                cmd,
                data: data@,
                reason,
            },
            DeviceEvent::Unrecognised { cmd, data } => DeviceEventView::Unrecognised {
                cmd,
                data: data@,
            },
        }
    }
}

/// The contents of a list of events, in order.
pub open spec fn event_views(events: Seq<DeviceEvent>) -> Seq<DeviceEventView> {
    events.map_values(|e: DeviceEvent| e@)
}

// ---- what a frame says ----------------------------------------------------------------

pub open spec fn short(cmd: u8, d: Seq<u8>, need: usize) -> DeviceEventView {
    DeviceEventView::Malformed { cmd, data: d, reason: MalformedReason::TooShort { need } }
}

pub open spec fn beyond_range(cmd: u8, d: Seq<u8>) -> DeviceEventView {
    DeviceEventView::Malformed { cmd, data: d, reason: MalformedReason::OutOfRange }
}

pub open spec fn no_text(cmd: u8, d: Seq<u8>) -> DeviceEventView {
    DeviceEventView::Malformed { cmd, data: d, reason: MalformedReason::NotText }
}

/// `0x17`: tens and ones as `0x30 + n`, then the charging flag. The tens reach ten for 100 %.
pub open spec fn battery_read_of(d: Seq<u8>) -> DeviceEventView {
    let cmd = AppCommand::GetBattery.code();
    let percent = (d[0] - 0x30) * 10 + (d[1] - 0x30);
    if d.len() < 3 {
        short(cmd, d, 3)
    } else if !(0x30 <= d[0] <= 0x3A && 0x30 <= d[1] <= 0x39 && percent <= 100) {
        beyond_range(cmd, d)
    } else {
        DeviceEventView::Battery(
            BatteryReading {
                percent: percent as u8,
                charging: d[2] == 1,
                source: BatterySource::ReadReply,
            },
        )
    }
}

/// `0x53`: the charging flag, then a raw percentage.
pub open spec fn battery_push_of(d: Seq<u8>) -> DeviceEventView {
    let cmd = DeviceUpload::ChargeBattery.code();
    if d.len() < 2 {
        short(cmd, d, 2)
    } else if d[1] > 100 {
        beyond_range(cmd, d)
    } else {
        DeviceEventView::Battery(
            BatteryReading { percent: d[1], charging: d[0] == 1, source: BatterySource::Push },
        )
    }
}

/// The bytes in front of the first NUL.
pub open spec fn until_nul(s: Seq<u8>) -> Seq<u8>
    decreases s.len(),
{
    if s.len() == 0 || s[0] == 0 {
        Seq::empty()
    } else {
        seq![s[0]] + until_nul(s.drop_first())
    }
}

/// Space, and the ASCII control bytes.
pub open spec fn trimmed(c: u8) -> bool {
    c <= 0x20 || c == 0x7F
}

pub open spec fn trim_front(s: Seq<u8>) -> Seq<u8>
    decreases s.len(),
{
    if s.len() > 0 && trimmed(s[0]) {
        trim_front(s.drop_first())
    } else {
        s
    }
}

pub open spec fn trim_back(s: Seq<u8>) -> Seq<u8>
    decreases s.len(),
{
    if s.len() > 0 && trimmed(s.last()) {
        trim_back(s.drop_last())
    } else {
        s
    }
}

/// A NUL-padded ASCII field: cut at the first NUL, and without surrounding whitespace and
/// control bytes. Nothing if a byte in front of the NUL is not ASCII.
pub open spec fn ascii_field_of(s: Seq<u8>) -> Option<Seq<char>> {
    let head = until_nul(s);
    if forall|i: int| 0 <= i < head.len() ==> #[trigger] head[i] < 0x80 {
        Some(text::ascii_text(trim_back(trim_front(head))))
    } else {
        None
    }
}

pub open spec fn identity_of(d: Seq<u8>) -> DeviceEventView {
    let cmd = AppCommand::GetProjectName.code();
    if d.len() < 8 {
        short(cmd, d, 8)
    } else {
        match (ascii_field_of(d.subrange(0, 4)), ascii_field_of(d.subrange(4, 8))) {
            (Some(project), Some(customer)) => if project.len() == 0 && customer.len() == 0 {
                no_text(cmd, d)
            } else {
                DeviceEventView::Identity { project, customer }
            },
            _ => no_text(cmd, d),
        }
    }
}

pub open spec fn wifi_credentials_of(d: Seq<u8>) -> DeviceEventView {
    match ascii_field_of(d) {
        Some(ssid) if ssid.len() > 0 => DeviceEventView::WifiCredentials { ssid },
        _ => no_text(DeviceUpload::WifiName.code(), d),
    }
}

pub open spec fn media_count_of(d: Seq<u8>, cmd: u8, source: CountSource) -> DeviceEventView {
    if d.len() < 2 {
        short(cmd, d, 2)
    } else {
        DeviceEventView::MediaCount(MediaCount { count: wire::be16_at(d, 0) as u16, source })
    }
}

/// A two-valued setting takes 0 or 1, as an ASCII digit or raw, and nothing else.
pub open spec fn flag_of(byte: u8) -> Option<bool> {
    if opcodes::digit_value(byte) == 0 {
        Some(false)
    } else if opcodes::digit_value(byte) == 1 {
        Some(true)
    } else {
        None
    }
}

/// One of the five settings that the switch-state burst reports.
pub open spec fn switch_of(cmd: u8, d: Seq<u8>) -> DeviceEventView {
    if cmd == AppCommand::SetRecordDuration.code() {
        if d.len() < 2 {
            short(cmd, d, 2)
        } else {
            DeviceEventView::Switch(SwitchReport::RecordSeconds(wire::be16_at(d, 0) as u16))
        }
    } else if d.len() < 1 {
        short(cmd, d, 1)
    } else if cmd == AppCommand::SetLed.code() {
        if opcodes::digit_value(d[0]) > 2 {
            beyond_range(cmd, d)
        } else {
            DeviceEventView::Switch(SwitchReport::Led(opcodes::digit_value(d[0])))
        }
    } else {
        match flag_of(d[0]) {
            None => beyond_range(cmd, d),
            Some(on) => DeviceEventView::Switch(
                if cmd == AppCommand::WearDetection.code() {
                    SwitchReport::WearDetection(on)
                } else if cmd == AppCommand::VoiceCommand.code() {
                    SwitchReport::VoiceCommand(on)
                } else {
                    SwitchReport::Orientation(
                        if on {
                            Orientation::Landscape
                        } else {
                            Orientation::Portrait
                        },
                    )
                },
            ),
        }
    }
}

pub open spec fn gesture_of(slot: GestureSlot, d: Seq<u8>) -> DeviceEventView {
    if d.len() < 1 {
        short(slot.code(), d, 1)
    } else {
        DeviceEventView::GestureBinding { slot, action: GestureAction::of_value(d[0]), raw: d[0] }
    }
}

pub open spec fn is_switch(cmd: u8) -> bool {
    ||| cmd == AppCommand::SetLed.code()
    ||| cmd == AppCommand::SetRecordDuration.code()
    ||| cmd == AppCommand::WearDetection.code()
    ||| cmd == AppCommand::VoiceCommand.code()
    ||| cmd == AppCommand::Orientation.code()
}

pub open spec fn is_voice(cmd: u8) -> bool {
    ||| cmd == DeviceUpload::VoiceData.code()
    ||| cmd == DeviceUpload::VoiceUploadStart.code()
    ||| cmd == DeviceUpload::VoiceUploadEnd.code()
}

/// What the ack of a Wi-Fi open says.
pub open spec fn wifi_opening_of(serves: WifiService, d: Seq<u8>) -> DeviceEventView {
    if d.len() < 1 {
        short(serves.command().code(), d, 1)
    } else {
        DeviceEventView::WifiOpening { serves, raw: d[0] }
    }
}

/// A frame that carries no state: an echo where the opcode is a command, else unrecognised.
pub open spec fn echo_of(cmd: u8, d: Seq<u8>) -> DeviceEventView {
    match AppCommand::of_code(cmd) {
        Some(command) => DeviceEventView::Ack { command, data: d },
        None => DeviceEventView::Unrecognised { cmd, data: d },
    }
}

/// What one frame says.
pub open spec fn event_of(f: FrameView) -> DeviceEventView {
    let cmd = f.cmd;
    let d = f.data;
    if cmd == AppCommand::GetBattery.code() {
        battery_read_of(d)
    } else if cmd == DeviceUpload::ChargeBattery.code() {
        battery_push_of(d)
    } else if cmd == AppCommand::GetVersions.code() {
        if d.len() < 7 {
            short(cmd, d, 7)
        } else {
            DeviceEventView::Versions {
                bt: d.subrange(0, 3),
                isp: d.subrange(3, 6),
                hardware: d[6],
            }
        }
    } else if cmd == AppCommand::GetProjectName.code() {
        identity_of(d)
    } else if cmd == DeviceUpload::ThumbnailCount.code() {
        media_count_of(d, cmd, CountSource::Push)
    } else if cmd == AppCommand::GetFileCount.code() {
        media_count_of(d, cmd, CountSource::ReadReply)
    } else if is_switch(cmd) {
        switch_of(cmd, d)
    } else if GestureSlot::of_code(cmd) is Some {
        gesture_of(GestureSlot::of_code(cmd)->Some_0, d)
    } else if cmd == AppCommand::GetCapabilities.code() {
        if d.len() < 4 {
            short(cmd, d, 4)
        } else {
            DeviceEventView::Capabilities(Capabilities { raw: wire::be32_at(d, 0) as u32 })
        }
    } else if cmd == AppCommand::GetVoiceDisableState.code() {
        if d.len() < 1 {
            short(cmd, d, 1)
        } else {
            DeviceEventView::VoiceFeatures(VoiceFeatures { raw: d[0] })
        }
    } else if cmd == DeviceUpload::Volumes.code() {
        if d.len() < 3 {
            short(cmd, d, 3)
        } else {
            DeviceEventView::Volumes(Volumes { system: d[0], media: d[1], call: d[2] })
        }
    } else if cmd == DeviceUpload::WifiName.code() {
        wifi_credentials_of(d)
    } else if cmd == AppCommand::OpenWifiFiles.code() {
        wifi_opening_of(WifiService::Files, d)
    } else if cmd == AppCommand::OpenWifiLive.code() {
        wifi_opening_of(WifiService::Live, d)
    } else if cmd == DeviceUpload::ActionSync.code() {
        if d.len() < 10 {
            short(cmd, d, 10)
        } else {
            DeviceEventView::ActionSync(flags_of(d.take(10)))
        }
    } else if is_voice(cmd) {
        DeviceEventView::VoiceFrame { cmd, data: d }
    } else if cmd == DeviceUpload::AbandonVoice.code() {
        DeviceEventView::VoiceAbandoned
    } else if cmd == DeviceUpload::CancelAiBroadcast.code() {
        DeviceEventView::AiBroadcastCancelled
    } else if cmd == DeviceUpload::HdImageFailed.code() {
        DeviceEventView::HdImageFailed
    } else if cmd == DeviceUpload::IspUpgradeDone.code() {
        DeviceEventView::IspUpgradeFinished { ok: d.len() > 0 && d[0] == 1 }
    } else {
        echo_of(cmd, d)
    }
}

// ---- decode ---------------------------------------------------------------------------

fn too_short(cmd: u8, data: &[u8], need: usize) -> (e: DeviceEvent)
    ensures
        e@ == short(cmd, data@, need),
{
    DeviceEvent::Malformed {
        cmd,
        data: slice_to_vec(data),
        reason: MalformedReason::TooShort { need },
    }
}

fn out_of_range(cmd: u8, data: &[u8]) -> (e: DeviceEvent)
    ensures
        e@ == beyond_range(cmd, data@),
{
    DeviceEvent::Malformed { cmd, data: slice_to_vec(data), reason: MalformedReason::OutOfRange }
}

fn not_text(cmd: u8, data: &[u8]) -> (e: DeviceEvent)
    ensures
        e@ == no_text(cmd, data@),
{
    DeviceEvent::Malformed { cmd, data: slice_to_vec(data), reason: MalformedReason::NotText }
}

fn battery_read(d: &[u8]) -> (e: DeviceEvent)
    ensures
        e@ == battery_read_of(d@),
{
    let cmd: u8 = AppCommand::GetBattery.code();
    if d.len() < 3 {
        return too_short(cmd, d, 3);
    }
    // The tens byte reaches 0x3A only for 100 %; the ones byte is a real digit.
    if d[0] < 0x30 || d[0] > 0x3A || d[1] < 0x30 || d[1] > 0x39 {
        return out_of_range(cmd, d);
    }
    let percent: u8 = (d[0] - 0x30) * 10 + (d[1] - 0x30);
    if percent > 100 {
        return out_of_range(cmd, d);
    }
    DeviceEvent::Battery(
        BatteryReading { percent, charging: d[2] == 1, source: BatterySource::ReadReply },
    )
}

fn battery_push(d: &[u8]) -> (e: DeviceEvent)
    ensures
        e@ == battery_push_of(d@),
{
    let cmd: u8 = DeviceUpload::ChargeBattery.code();
    if d.len() < 2 {
        return too_short(cmd, d, 2);
    }
    if d[1] > 100 {
        return out_of_range(cmd, d);
    }
    DeviceEvent::Battery(
        BatteryReading { percent: d[1], charging: d[0] == 1, source: BatterySource::Push },
    )
}

fn versions(d: &[u8]) -> (e: DeviceEvent)
    requires
        d@.len() >= 7,
    ensures
        e@ == (DeviceEventView::Versions {
            bt: d@.subrange(0, 3),
            isp: d@.subrange(3, 6),
            hardware: d@[6],
        }),
{
    let v = Versions { bt: [d[0], d[1], d[2]], isp: [d[3], d[4], d[5]], hardware: d[6] };
    assert(v.bt@ =~= d@.subrange(0, 3));
    assert(v.isp@ =~= d@.subrange(3, 6));
    DeviceEvent::Versions(v)
}

fn identity(d: &[u8]) -> (e: DeviceEvent)
    ensures
        e@ == identity_of(d@),
{
    let cmd: u8 = AppCommand::GetProjectName.code();
    if d.len() < 8 {
        return too_short(cmd, d, 8);
    }
    match (ascii_field(slice_subrange(d, 0, 4)), ascii_field(slice_subrange(d, 4, 8))) {
        (Some(project), Some(customer)) => {
            // One blank is a device whose SKU leaves a field empty; both blank say nothing.
            if project.as_str().is_empty() && customer.as_str().is_empty() {
                not_text(cmd, d)
            } else {
                DeviceEvent::Identity(Identity { project, customer })
            }
        },
        _ => not_text(cmd, d),
    }
}

fn media_count(d: &[u8], source: CountSource) -> (e: DeviceEvent)
    ensures
        e@ == media_count_of(
            d@,
            match source {
                CountSource::Push => DeviceUpload::ThumbnailCount.code(),
                CountSource::ReadReply => AppCommand::GetFileCount.code(),
            },
            source,
        ),
{
    let cmd: u8 = match source {
        CountSource::Push => DeviceUpload::ThumbnailCount.code(),
        CountSource::ReadReply => AppCommand::GetFileCount.code(),
    };
    if d.len() < 2 {
        return too_short(cmd, d, 2);
    }
    DeviceEvent::MediaCount(MediaCount { count: be16(d, 0), source })
}

/// A settings value byte as a number: an ASCII digit, or raw.
fn setting_digit(byte: u8) -> (n: u8)
    ensures
        n == opcodes::digit_value(byte),
{
    if byte >= 0x30 && byte <= 0x39 {
        byte - 0x30
    } else {
        byte
    }
}

/// A two-valued setting.
fn setting_flag(byte: u8) -> (r: Option<bool>)
    ensures
        r == flag_of(byte),
{
    match setting_digit(byte) {
        0 => Some(false),
        1 => Some(true),
        _ => None,
    }
}

fn switch(cmd: u8, d: &[u8]) -> (e: DeviceEvent)
    requires
        is_switch(cmd),
    ensures
        e@ == switch_of(cmd, d@),
{
    if cmd == AppCommand::SetRecordDuration.code() {
        if d.len() < 2 {
            return too_short(cmd, d, 2);
        }
        return DeviceEvent::Switch(SwitchReport::RecordSeconds(be16(d, 0)));
    }
    if d.len() < 1 {
        return too_short(cmd, d, 1);
    }
    if cmd == AppCommand::SetLed.code() {
        let level: u8 = setting_digit(d[0]);
        if level > 2 {
            return out_of_range(cmd, d);
        }
        return DeviceEvent::Switch(SwitchReport::Led(level));
    }
    let on = match setting_flag(d[0]) {
        Some(on) => on,
        None => {
            return out_of_range(cmd, d);
        },
    };
    if cmd == AppCommand::WearDetection.code() {
        DeviceEvent::Switch(SwitchReport::WearDetection(on))
    } else if cmd == AppCommand::VoiceCommand.code() {
        DeviceEvent::Switch(SwitchReport::VoiceCommand(on))
    } else if on {
        DeviceEvent::Switch(SwitchReport::Orientation(Orientation::Landscape))
    } else {
        DeviceEvent::Switch(SwitchReport::Orientation(Orientation::Portrait))
    }
}

fn gesture(slot: GestureSlot, d: &[u8]) -> (e: DeviceEvent)
    ensures
        e@ == gesture_of(slot, d@),
{
    if d.len() < 1 {
        return too_short(slot.code(), d, 1);
    }
    DeviceEvent::GestureBinding { slot, action: GestureAction::from_value(d[0]), raw: d[0] }
}

fn wifi_credentials(d: &[u8]) -> (e: DeviceEvent)
    ensures
        e@ == wifi_credentials_of(d@),
{
    match ascii_field(d) {
        Some(ssid) => {
            // An SSID that is empty once cleaned cannot be joined.
            if ssid.as_str().is_empty() {
                not_text(DeviceUpload::WifiName.code(), d)
            } else {
                DeviceEvent::WifiCredentials(WifiCredentials { ssid })
            }
        },
        None => not_text(DeviceUpload::WifiName.code(), d),
    }
}

fn wifi_opening(serves: WifiService, d: &[u8]) -> (e: DeviceEvent)
    ensures
        e@ == wifi_opening_of(serves, d@),
{
    if d.len() < 1 {
        return too_short(serves.command().code(), d, 1);
    }
    DeviceEvent::WifiOpening { serves, raw: d[0] }
}

fn action_sync(d: &[u8]) -> (e: DeviceEvent)
    requires
        d@.len() >= 10,
    ensures
        e@ == DeviceEventView::ActionSync(flags_of(d@.take(10))),
{
    let bytes: [u8; 10] = [d[0], d[1], d[2], d[3], d[4], d[5], d[6], d[7], d[8], d[9]];
    assert(bytes@ =~= d@.take(10));
    DeviceEvent::ActionSync(ActionSync::from_flags(&bytes))
}

/// How many bytes stand in front of the first NUL.
fn nul_index(bytes: &[u8]) -> (end: usize)
    ensures
        end <= bytes@.len(),
        until_nul(bytes@) == bytes@.take(end as int),
{
    let mut end: usize = 0;
    assert(bytes@.skip(0) =~= bytes@);
    assert(bytes@.take(0) + until_nul(bytes@) =~= until_nul(bytes@));
    while end < bytes.len() && bytes[end] != 0
        invariant
            end <= bytes.len(),
            until_nul(bytes@) == bytes@.take(end as int) + until_nul(bytes@.skip(end as int)),
        decreases bytes.len() - end,
    {
        proof {
            let rest = bytes@.skip(end as int);
            assert(rest.drop_first() =~= bytes@.skip(end + 1));
            assert(bytes@.take(end as int) + (seq![rest[0]] + until_nul(rest.drop_first()))
                =~= bytes@.take(end + 1) + until_nul(bytes@.skip(end + 1)));
        }
        end = end + 1;
    }
    assert(until_nul(bytes@) =~= bytes@.take(end as int));
    end
}

/// What is left of `bytes` without the whitespace and control bytes around it.
fn trim_controls(bytes: &[u8]) -> (r: &[u8])
    ensures
        r@ == trim_back(trim_front(bytes@)),
{
    let end: usize = bytes.len();
    let mut from: usize = 0;
    assert(bytes@.skip(0) =~= bytes@);
    while from < end && (bytes[from] <= 0x20 || bytes[from] == 0x7F)
        invariant
            from <= end == bytes.len(),
            trim_front(bytes@) == trim_front(bytes@.skip(from as int)),
        decreases end - from,
    {
        assert(bytes@.skip(from as int).drop_first() =~= bytes@.skip(from + 1));
        from = from + 1;
    }
    let ghost front = trim_front(bytes@);
    assert(front =~= bytes@.skip(from as int));
    let mut to: usize = end;
    assert(front.take(to - from) =~= front);
    while to > from && (bytes[to - 1] <= 0x20 || bytes[to - 1] == 0x7F)
        invariant
            from <= to <= end == bytes.len(),
            front == bytes@.skip(from as int),
            trim_back(front) == trim_back(front.take(to - from)),
        decreases to,
    {
        assert(front.take(to - from).drop_last() =~= front.take(to - from - 1));
        to = to - 1;
    }
    assert(trim_back(front) =~= bytes@.subrange(from as int, to as int));
    slice_subrange(bytes, from, to)
}

/// A NUL-padded ASCII field: cut at the first NUL, drop surrounding whitespace and control
/// bytes, reject anything that is not ASCII.
fn ascii_field(bytes: &[u8]) -> (r: Option<String>)
    ensures
        match r {
            Some(s) => ascii_field_of(bytes@) == Some(s@),
            None => ascii_field_of(bytes@) is None,
        },
{
    let end: usize = nul_index(bytes);
    let head = slice_subrange(bytes, 0, end);
    assert(head@ =~= bytes@.take(end as int));
    for i in 0..end
        invariant
            end == head@.len(),
            head@ == until_nul(bytes@),
            forall|j: int| 0 <= j < i ==> #[trigger] head@[j] < 0x80,
    {
        if head[i] >= 0x80 {
            assert(!(head@[i as int] < 0x80));
            return None;
        }
    }
    let kept = trim_controls(head);
    Some(text::ascii_string(kept))
}

/// Decode one inbound frame. Total and stateless: the three capture-machine opcodes come back as
/// [`DeviceEvent::VoiceFrame`], because the lost-start recovery needs memory.
pub fn parse(frame: &Frame) -> (e: DeviceEvent)
    ensures
        e@ == event_of(frame@),
{
    let cmd: u8 = frame.cmd;
    let d = frame.data.as_slice();
    if cmd == AppCommand::GetBattery.code() {
        return battery_read(d);
    }
    if cmd == DeviceUpload::ChargeBattery.code() {
        return battery_push(d);
    }
    if cmd == AppCommand::GetVersions.code() {
        return if d.len() < 7 {
            too_short(cmd, d, 7)
        } else {
            versions(d)
        };
    }
    if cmd == AppCommand::GetProjectName.code() {
        return identity(d);
    }
    if cmd == DeviceUpload::ThumbnailCount.code() {
        return media_count(d, CountSource::Push);
    }
    if cmd == AppCommand::GetFileCount.code() {
        return media_count(d, CountSource::ReadReply);
    }
    if cmd == AppCommand::SetLed.code() || cmd == AppCommand::SetRecordDuration.code() || cmd
        == AppCommand::WearDetection.code() || cmd == AppCommand::VoiceCommand.code() || cmd
        == AppCommand::Orientation.code() {
        return switch(cmd, d);
    }
    match GestureSlot::from_code(cmd) {
        Some(slot) => {
            return gesture(slot, d);
        },
        None => {},
    }
    if cmd == AppCommand::GetCapabilities.code() {
        return if d.len() < 4 {
            too_short(cmd, d, 4)
        } else {
            DeviceEvent::Capabilities(Capabilities { raw: be32(d, 0) })
        };
    }
    if cmd == AppCommand::GetVoiceDisableState.code() {
        return if d.len() < 1 {
            too_short(cmd, d, 1)
        } else {
            DeviceEvent::VoiceFeatures(VoiceFeatures { raw: d[0] })
        };
    }
    if cmd == DeviceUpload::Volumes.code() {
        return if d.len() < 3 {
            too_short(cmd, d, 3)
        } else {
            DeviceEvent::Volumes(Volumes { system: d[0], media: d[1], call: d[2] })
        };
    }
    if cmd == DeviceUpload::WifiName.code() {
        return wifi_credentials(d);
    }
    if cmd == AppCommand::OpenWifiFiles.code() {
        return wifi_opening(WifiService::Files, d);
    }
    if cmd == AppCommand::OpenWifiLive.code() {
        return wifi_opening(WifiService::Live, d);
    }
    if cmd == DeviceUpload::ActionSync.code() {
        return if d.len() < 10 {
            too_short(cmd, d, 10)
        } else {
            action_sync(d)
        };
    }
    if cmd == DeviceUpload::VoiceData.code() || cmd == DeviceUpload::VoiceUploadStart.code() || cmd
        == DeviceUpload::VoiceUploadEnd.code() {
        return DeviceEvent::VoiceFrame { cmd, data: slice_to_vec(d) };
    }
    if cmd == DeviceUpload::AbandonVoice.code() {
        return DeviceEvent::VoiceAbandoned;
    }
    if cmd == DeviceUpload::CancelAiBroadcast.code() {
        return DeviceEvent::AiBroadcastCancelled;
    }
    if cmd == DeviceUpload::HdImageFailed.code() {
        return DeviceEvent::HdImageFailed;
    }
    if cmd == DeviceUpload::IspUpgradeDone.code() {
        return DeviceEvent::IspUpgradeFinished { ok: d.len() > 0 && d[0] == 1 };
    }
    echo(cmd, d)
}

fn echo(cmd: u8, d: &[u8]) -> (e: DeviceEvent)
    ensures
        e@ == echo_of(cmd, d@),
{
    match AppCommand::from_code(cmd) {
        Some(command) => DeviceEvent::Ack { command, data: slice_to_vec(d) },
        None => DeviceEvent::Unrecognised { cmd, data: slice_to_vec(d) },
    }
}

/// Events of the capture machine as device events.
pub open spec fn voice_events(events: Seq<VoiceEventView>) -> Seq<DeviceEventView> {
    events.map_values(|e: VoiceEventView| DeviceEventView::Voice(e))
}

/// What one frame does to the capture, and the events it gives: voice frames drive the capture
/// machine, an abandoned capture is dropped, and any other frame is one event.
pub open spec fn after_feed(v: VoiceState, f: FrameView) -> (VoiceState, Seq<DeviceEventView>) {
    let event = event_of(f);
    if event is VoiceFrame {
        let (after, events) = voice::after_upload(v, f.cmd, f.data);
        (after, voice_events(events))
    } else if event is VoiceAbandoned {
        (voice::idle(), seq![event])
    } else {
        (v, seq![event])
    }
}

/// What a sequence of frames does to the capture, and the events it gives.
pub open spec fn after_feeds(v: VoiceState, frames: Seq<FrameView>) -> (
    VoiceState,
    Seq<DeviceEventView>,
)
    decreases frames.len(),
{
    if frames.len() == 0 {
        (v, Seq::empty())
    } else {
        let (before, events) = after_feeds(v, frames.drop_last());
        let (after, more) = after_feed(before, frames.last());
        (after, events + more)
    }
}

/// The inbound stream, from notification bytes to typed events: a [`Deframer`] for the envelope,
/// [`parse`] for the fields, and a [`VoiceStream`] for the one decode that needs memory.
///
/// It has no timer. It can tell that a capture is open ([`Self::is_capturing`]) and be told when
/// the caller ended it ([`Self::close_voice`]).
#[derive(Debug, Clone)]
pub struct Parser {
    deframer: Deframer,
    voice: VoiceStream,
}

/// The state of a [`Parser`].
#[verifier::ext_equal]
pub struct ParserView {
    pub buffer: Seq<u8>,
    pub voice: VoiceState,
}

/// A parser that has seen nothing.
pub open spec fn fresh() -> ParserView {
    ParserView { buffer: Seq::empty(), voice: voice::idle() }
}

/// What pushing a chunk does: the frames it completes are fed in order.
pub open spec fn after_push(p: ParserView, chunk: Seq<u8>) -> (ParserView, Seq<DeviceEventView>) {
    let (frames, rest) = frame::drained(DEVICE_HEADER, p.buffer + chunk);
    let (voice, events) = after_feeds(p.voice, frames);
    (ParserView { buffer: frame::kept(DEVICE_HEADER, rest), voice }, events)
}

impl View for Parser {
    type V = ParserView;

    closed spec fn view(&self) -> ParserView {
        ParserView { buffer: self.deframer@, voice: self.voice@ }
    }
}

impl Default for Parser {
    fn default() -> (p: Self)
        ensures
            p.wf(),
            p@ == fresh(),
    {
        Parser::new()
    }
}

impl Parser {
    /// What is buffered is a partial device frame, or nothing.
    pub closed spec fn wf(&self) -> bool {
        self.deframer.magic() == DEVICE_HEADER && self.deframer.wf()
    }

    pub fn new() -> (p: Self)
        ensures
            p.wf(),
            p@ == fresh(),
    {
        Parser { deframer: Deframer::device(), voice: VoiceStream::new() }
    }

    /// True while a voice capture is open.
    pub fn is_capturing(&self) -> (b: bool)
        ensures
            b == self@.voice.capturing,
    {
        self.voice.is_capturing()
    }

    /// Bytes held that have not yet completed a frame.
    pub fn buffered(&self) -> (bytes: &[u8])
        ensures
            bytes@ == self@.buffer,
    {
        self.deframer.buffered()
    }

    /// End the capture for a reason only the caller knows. `0x56` is an app to device write that
    /// never appears on the stream parsed here, and it is the only thing that closes the mic.
    pub fn close_voice(&mut self, cause: EndCause) -> (events: Vec<DeviceEvent>)
        requires
            old(self).wf(),
        ensures
            final(self).wf(),
            final(self)@.buffer == old(self)@.buffer,
            final(self)@.voice == voice::after_close(old(self)@.voice, cause).0,
            event_views(events@) == voice_events(voice::after_close(old(self)@.voice, cause).1),
    {
        let mut out: Vec<DeviceEvent> = Vec::new();
        let events = self.voice.close(cause);
        push_voice_events(events, &mut out);
        assert(event_views(out@) =~= voice_events(
            voice::after_close(old(self)@.voice, cause).1,
        ));
        out
    }

    /// Forget the frame buffer and the capture state. Called on disconnect.
    pub fn reset(&mut self)
        requires
            old(self).wf(),
        ensures
            final(self).wf(),
            final(self)@ == fresh(),
    {
        self.deframer.reset();
        self.voice.reset();
    }

    /// Feed one notification's bytes.
    pub fn push(&mut self, chunk: &[u8]) -> (events: Vec<DeviceEvent>)
        requires
            old(self).wf(),
        ensures
            final(self).wf(),
            (final(self)@, event_views(events@)) == after_push(old(self)@, chunk@),
    {
        self.push_detailed(chunk).0
    }

    /// [`Self::push`], plus what happened to the bytes that did not become frames.
    pub fn push_detailed(&mut self, chunk: &[u8]) -> (r: (Vec<DeviceEvent>, Residual))
        requires
            old(self).wf(),
        ensures
            final(self).wf(),
            (final(self)@, event_views(r.0@)) == after_push(old(self)@, chunk@),
            frame::residual_of(
                DEVICE_HEADER,
                frame::drained(DEVICE_HEADER, old(self)@.buffer + chunk@).1,
                r.1,
            ),
    {
        let ghost v0 = self@.voice;
        let (frames, residual) = self.deframer.push_detailed(chunk);
        let ghost views = frame::frame_views(frames@);
        let ghost held = self.deframer@;
        let mut out: Vec<DeviceEvent> = Vec::new();
        assert(event_views(out@) =~= Seq::empty());
        for i in 0..frames.len()
            invariant
                self.wf(),
                self@.buffer == held,
                views == frame::frame_views(frames@),
                self@.voice == after_feeds(v0, views.take(i as int)).0,
                event_views(out@) == after_feeds(v0, views.take(i as int)).1,
        {
            assert(views.take(i + 1).drop_last() =~= views.take(i as int));
            self.feed_into(&frames[i], &mut out);
        }
        assert(views.take(views.len() as int) =~= views);
        (out, residual)
    }

    /// Decode one already-deframed frame, applying the voice-capture state machine. Gives two
    /// events when a lost `0x97` is recovered, and one otherwise.
    pub fn feed(&mut self, frame: &Frame) -> (events: Vec<DeviceEvent>)
        requires
            old(self).wf(),
        ensures
            final(self).wf(),
            final(self)@.buffer == old(self)@.buffer,
            (final(self)@.voice, event_views(events@)) == after_feed(old(self)@.voice, frame@),
    {
        let mut out: Vec<DeviceEvent> = Vec::new();
        self.feed_into(frame, &mut out);
        assert(event_views(out@) =~= after_feed(old(self)@.voice, frame@).1);
        out
    }

    fn feed_into(&mut self, frame: &Frame, out: &mut Vec<DeviceEvent>)
        requires
            old(self).wf(),
        ensures
            final(self).wf(),
            final(self)@.buffer == old(self)@.buffer,
            final(self)@.voice == after_feed(old(self)@.voice, frame@).0,
            event_views(final(out)@) == event_views(old(out)@) + after_feed(
                old(self)@.voice,
                frame@,
            ).1,
    {
        let ghost start = event_views(out@);
        match parse(frame) {
            DeviceEvent::VoiceFrame { .. } => {
                let events = self.voice.handle(frame);
                push_voice_events(events, out);
            },
            DeviceEvent::VoiceAbandoned => {
                // The audio the capture was collecting is gone, and its end is this event.
                self.voice.reset();
                out.push(DeviceEvent::VoiceAbandoned);
                assert(event_views(out@) =~= start + seq![DeviceEventView::VoiceAbandoned]);
            },
            other => {
                out.push(other);
                assert(event_views(out@) =~= start + seq![other@]);
            },
        }
    }
}

/// Appends the events of the capture machine.
fn push_voice_events(events: Vec<VoiceEvent>, out: &mut Vec<DeviceEvent>)
    ensures
        event_views(final(out)@) == event_views(old(out)@) + voice_events(
            voice::voice_event_views(events@),
        ),
{
    let ghost start = event_views(out@);
    let ghost all = voice_events(voice::voice_event_views(events@));
    let ghost given = events@;
    assert(start + all.take(0) =~= start);
    for e in it: events.into_iter()
        invariant
            it.seq() == given,
            all == voice_events(voice::voice_event_views(given)),
            event_views(out@) == start + all.take(it.index() as int),
    {
        let ghost n = it.index() as int;
        let ghost before = event_views(out@);
        out.push(DeviceEvent::Voice(e));
        assert(all[n] == DeviceEventView::Voice(given[n]@));
        assert(event_views(out@) =~= before.push(all[n]));
        assert(all.take(n + 1) =~= all.take(n).push(all[n]));
        assert(event_views(out@) =~= start + all.take(n + 1));
    }
    assert(all.take(given.len() as int) =~= all);
}

/// The least record duration that is believed, in seconds.
pub const MIN_PLAUSIBLE_RECORD_SECONDS: u16 = 1;

/// The greatest record duration that is believed, in seconds. A value outside is not adopted,
/// because a reported duration may be written back to the device by a settings screen.
pub const MAX_PLAUSIBLE_RECORD_SECONDS: u16 = 3600;

/// Accumulates the `0x48` burst, and the unsolicited echo of any setter write, into one settings
/// snapshot. Completeness counts the five gestures.
#[derive(Debug, Clone, PartialEq, Eq)]
pub struct SwitchStates {
    led: Option<u8>,
    record_seconds: Option<u16>,
    wear_detection: Option<bool>,
    voice_command: Option<bool>,
    orientation: Option<Orientation>,
    swipe_forward: Option<u8>,
    swipe_back: Option<u8>,
    single_tap: Option<u8>,
    double_tap: Option<u8>,
    triple_tap: Option<u8>,
}

/// The settings reported so far.
#[verifier::ext_equal]
pub struct Settings {
    pub led: Option<u8>,
    pub record_seconds: Option<u16>,
    pub wear_detection: Option<bool>,
    pub voice_command: Option<bool>,
    pub orientation: Option<Orientation>,
    pub gestures: Map<GestureSlot, u8>,
}

/// Nothing reported.
pub open spec fn no_settings() -> Settings {
    Settings {
        led: None,
        record_seconds: None,
        wear_detection: None,
        voice_command: None,
        orientation: None,
        gestures: Map::empty(),
    }
}

/// Whether an event reports a setting.
pub open spec fn is_setting(e: DeviceEventView) -> bool {
    e is Switch || e is GestureBinding
}

/// What an event does to the settings. An implausible record duration is not adopted.
pub open spec fn after_ingest(s: Settings, e: DeviceEventView) -> Settings {
    match e {
        DeviceEventView::Switch(SwitchReport::Led(level)) => Settings { led: Some(level), ..s },
        DeviceEventView::Switch(SwitchReport::RecordSeconds(secs)) => {
            if MIN_PLAUSIBLE_RECORD_SECONDS <= secs <= MAX_PLAUSIBLE_RECORD_SECONDS {
                Settings { record_seconds: Some(secs), ..s }
            } else {
                s
            }
        },
        DeviceEventView::Switch(SwitchReport::WearDetection(on)) => Settings {
            wear_detection: Some(on),
            ..s
        },
        DeviceEventView::Switch(SwitchReport::VoiceCommand(on)) => Settings {
            voice_command: Some(on),
            ..s
        },
        DeviceEventView::Switch(SwitchReport::Orientation(o)) => Settings {
            orientation: Some(o),
            ..s
        },
        DeviceEventView::GestureBinding { slot, raw, .. } => Settings {
            gestures: s.gestures.insert(slot, raw),
            ..s
        },
        _ => s,
    }
}

/// What a sequence of events does to the settings.
pub open spec fn after_ingests(s: Settings, events: Seq<DeviceEventView>) -> Settings
    decreases events.len(),
{
    if events.len() == 0 {
        s
    } else {
        after_ingest(after_ingests(s, events.drop_last()), events.last())
    }
}

/// Every field the burst reports has arrived, all five gestures among them.
pub open spec fn complete(s: Settings) -> bool {
    &&& s.led is Some
    &&& s.record_seconds is Some
    &&& s.wear_detection is Some
    &&& s.voice_command is Some
    &&& s.orientation is Some
    &&& forall|slot: GestureSlot| #[trigger] s.gestures.dom().contains(slot)
}

impl View for SwitchStates {
    type V = Settings;

    closed spec fn view(&self) -> Settings {
        Settings {
            led: self.led,
            record_seconds: self.record_seconds,
            wear_detection: self.wear_detection,
            voice_command: self.voice_command,
            orientation: self.orientation,
            gestures: Map::new(
                |slot: GestureSlot| self.slot(slot) is Some,
                |slot: GestureSlot| self.slot(slot)->Some_0,
            ),
        }
    }
}

impl Default for SwitchStates {
    fn default() -> (s: Self)
        ensures
            s@ == no_settings(),
    {
        let s = SwitchStates {
            led: None,
            record_seconds: None,
            wear_detection: None,
            voice_command: None,
            orientation: None,
            swipe_forward: None,
            swipe_back: None,
            single_tap: None,
            double_tap: None,
            triple_tap: None,
        };
        assert(s@.gestures =~= Map::empty());
        s
    }
}

impl SwitchStates {
    spec fn slot(self, slot: GestureSlot) -> Option<u8> {
        match slot {
            GestureSlot::SwipeForward => self.swipe_forward,
            GestureSlot::SwipeBack => self.swipe_back,
            GestureSlot::SingleTap => self.single_tap,
            GestureSlot::DoubleTap => self.double_tap,
            GestureSlot::TripleTap => self.triple_tap,
        }
    }

    pub fn new() -> (s: Self)
        ensures
            s@ == no_settings(),
    {
        Self::default()
    }

    /// Fold one event in. Returns true when the event was a settings frame, so a caller routing
    /// a stream knows whether it still has to handle it.
    pub fn ingest(&mut self, event: &DeviceEvent) -> (was_setting: bool)
        ensures
            was_setting == is_setting(event@),
            final(self)@ == after_ingest(old(self)@, event@),
    {
        let was_setting = match event {
            DeviceEvent::Switch(SwitchReport::Led(level)) => {
                self.led = Some(*level);
                true
            },
            DeviceEvent::Switch(SwitchReport::RecordSeconds(secs)) => {
                if *secs >= MIN_PLAUSIBLE_RECORD_SECONDS && *secs <= MAX_PLAUSIBLE_RECORD_SECONDS {
                    self.record_seconds = Some(*secs);
                }
                true
            },
            DeviceEvent::Switch(SwitchReport::WearDetection(on)) => {
                self.wear_detection = Some(*on);
                true
            },
            DeviceEvent::Switch(SwitchReport::VoiceCommand(on)) => {
                self.voice_command = Some(*on);
                true
            },
            DeviceEvent::Switch(SwitchReport::Orientation(o)) => {
                self.orientation = Some(*o);
                true
            },
            DeviceEvent::GestureBinding { slot, raw, .. } => {
                match slot {
                    GestureSlot::SwipeForward => {
                        self.swipe_forward = Some(*raw);
                    },
                    GestureSlot::SwipeBack => {
                        self.swipe_back = Some(*raw);
                    },
                    GestureSlot::SingleTap => {
                        self.single_tap = Some(*raw);
                    },
                    GestureSlot::DoubleTap => {
                        self.double_tap = Some(*raw);
                    },
                    GestureSlot::TripleTap => {
                        self.triple_tap = Some(*raw);
                    },
                }
                true
            },
            _ => false,
        };
        assert(self@.gestures =~= after_ingest(old(self)@, event@).gestures);
        was_setting
    }

    pub fn reset(&mut self)
        ensures
            final(self)@ == no_settings(),
    {
        *self = Self::default();
    }

    pub fn led(&self) -> (r: Option<u8>)
        ensures
            r == self@.led,
    {
        self.led
    }

    pub fn record_seconds(&self) -> (r: Option<u16>)
        ensures
            r == self@.record_seconds,
    {
        self.record_seconds
    }

    pub fn wear_detection(&self) -> (r: Option<bool>)
        ensures
            r == self@.wear_detection,
    {
        self.wear_detection
    }

    pub fn voice_command(&self) -> (r: Option<bool>)
        ensures
            r == self@.voice_command,
    {
        self.voice_command
    }

    pub fn orientation(&self) -> (r: Option<Orientation>)
        ensures
            r == self@.orientation,
    {
        self.orientation
    }

    /// The action a slot is bound to, or `None` when the slot has not been reported or its value
    /// is outside the known set.
    pub fn gesture(&self, slot: GestureSlot) -> (r: Option<GestureAction>)
        ensures
            r == (if self@.gestures.dom().contains(slot) {
                GestureAction::of_value(self@.gestures[slot])
            } else {
                None
            }),
    {
        match self.gesture_raw(slot) {
            Some(raw) => GestureAction::from_value(raw),
            None => None,
        }
    }

    /// The slot's value byte exactly as reported, even when it maps to no known action.
    pub fn gesture_raw(&self, slot: GestureSlot) -> (r: Option<u8>)
        ensures
            r == (if self@.gestures.dom().contains(slot) {
                Some(self@.gestures[slot])
            } else {
                None
            }),
    {
        match slot {
            GestureSlot::SwipeForward => self.swipe_forward,
            GestureSlot::SwipeBack => self.swipe_back,
            GestureSlot::SingleTap => self.single_tap,
            GestureSlot::DoubleTap => self.double_tap,
            GestureSlot::TripleTap => self.triple_tap,
        }
    }

    /// True once every field the burst reports has arrived, including all five gestures.
    pub fn is_complete(&self) -> (b: bool)
        ensures
            b == complete(self@),
    {
        let b = self.led.is_some() && self.record_seconds.is_some() && self.wear_detection.is_some()
            && self.voice_command.is_some() && self.orientation.is_some()
            && self.swipe_forward.is_some() && self.swipe_back.is_some()
            && self.single_tap.is_some() && self.double_tap.is_some()
            && self.triple_tap.is_some();
        proof {
            if complete(self@) {
                assert(self@.gestures.dom().contains(GestureSlot::SwipeForward));
                assert(self@.gestures.dom().contains(GestureSlot::SwipeBack));
                assert(self@.gestures.dom().contains(GestureSlot::SingleTap));
                assert(self@.gestures.dom().contains(GestureSlot::DoubleTap));
                assert(self@.gestures.dom().contains(GestureSlot::TripleTap));
            }
        }
        b
    }
}

// ---- laws -----------------------------------------------------------------------------

/// Every opcode of either table has a meaning, and only a byte in neither comes back as
/// unrecognised, with its payload intact.
pub proof fn lemma_unrecognised_means_unknown(f: FrameView)
    ensures
        event_of(f) is Unrecognised <==> AppCommand::of_code(f.cmd) is None
            && DeviceUpload::of_code(f.cmd) is None,
        event_of(f) is Unrecognised ==> event_of(f) == (DeviceEventView::Unrecognised {
            cmd: f.cmd,
            data: f.data,
        }),
{
}

/// A battery percentage is never above 100: a frame that would say more is malformed instead.
pub proof fn lemma_battery_is_a_percentage(f: FrameView)
    ensures
        event_of(f) matches DeviceEventView::Battery(b) ==> b.percent <= 100,
{
}

/// The read and the push of the same battery state agree, for every percentage.
pub proof fn lemma_battery_encodings_agree(percent: u8, charging: bool)
    requires
        percent <= 100,
    ensures
        ({
            let tens = if percent == 100 {
                10
            } else {
                percent / 10
            };
            let flag = if charging {
                1u8
            } else {
                0u8
            };
            let read = FrameView {
                cmd: AppCommand::GetBattery.code(),
                data: seq![(0x30 + tens) as u8, (0x30 + percent % 10) as u8, flag],
            };
            let push = FrameView {
                cmd: DeviceUpload::ChargeBattery.code(),
                data: seq![flag, percent],
            };
            &&& event_of(read) == DeviceEventView::Battery(
                BatteryReading { percent, charging, source: BatterySource::ReadReply },
            )
            &&& event_of(push) == DeviceEventView::Battery(
                BatteryReading { percent, charging, source: BatterySource::Push },
            )
        }),
{
}

/// A malformed frame comes back whole.
pub proof fn lemma_malformed_keeps_the_frame(f: FrameView)
    ensures
        event_of(f) matches DeviceEventView::Malformed { cmd, data, reason } ==> cmd == f.cmd
            && data == f.data,
{
}

/// Feeding two lists of frames one after the other is feeding them joined.
proof fn lemma_after_feeds_concat(v: VoiceState, f: Seq<FrameView>, g: Seq<FrameView>)
    ensures
        ({
            let first = after_feeds(v, f);
            let second = after_feeds(first.0, g);
            after_feeds(v, f + g) == (second.0, first.1 + second.1)
        }),
    decreases g.len(),
{
    let first = after_feeds(v, f);
    if g.len() == 0 {
        assert(f + g =~= f);
        assert(first.1 + Seq::<DeviceEventView>::empty() =~= first.1);
    } else {
        lemma_after_feeds_concat(v, f, g.drop_last());
        assert((f + g).drop_last() =~= f + g.drop_last());
        let before = after_feeds(first.0, g.drop_last());
        let more = after_feed(before.0, g.last());
        assert(first.1 + before.1 + more.1 =~= first.1 + (before.1 + more.1));
    }
}

/// What pushing `chunks` one by one does.
pub open spec fn after_pushes(p: ParserView, chunks: Seq<Seq<u8>>) -> (
    ParserView,
    Seq<DeviceEventView>,
)
    decreases chunks.len(),
{
    if chunks.len() == 0 {
        (p, Seq::empty())
    } else {
        let (next, events) = after_push(p, chunks.first());
        let (last, more) = after_pushes(next, chunks.drop_first());
        (last, events + more)
    }
}

/// Pushing chunks feeds the frames that the deframer makes of them.
proof fn lemma_pushes_feed_the_frames(p: ParserView, chunks: Seq<Seq<u8>>)
    ensures
        ({
            let (frames, held) = frame::pushed(DEVICE_HEADER, p.buffer, chunks);
            let (voice, events) = after_feeds(p.voice, frames);
            after_pushes(p, chunks) == (ParserView { buffer: held, voice }, events)
        }),
    decreases chunks.len(),
{
    if chunks.len() == 0 {
    } else {
        let (out, rest) = frame::drained(DEVICE_HEADER, p.buffer + chunks.first());
        let (next, events) = after_push(p, chunks.first());
        lemma_pushes_feed_the_frames(next, chunks.drop_first());
        let more = frame::pushed(DEVICE_HEADER, next.buffer, chunks.drop_first()).0;
        lemma_after_feeds_concat(p.voice, out, more);
    }
}

/// Events survive frames being coalesced and split arbitrarily: however the bytes of a stream of
/// frames are cut into notifications, a fresh parser gives exactly the events of these frames, in
/// order, and holds nothing afterwards.
pub proof fn lemma_events_survive_any_chunking(frames: Seq<FrameView>, chunks: Seq<Seq<u8>>)
    requires
        frame::all_fit(frames),
        chunks.flatten() == frame::stream_bytes(DEVICE_HEADER, frames),
    ensures
        after_pushes(fresh(), chunks).1 == after_feeds(voice::idle(), frames).1,
        after_pushes(fresh(), chunks).0.buffer.len() == 0,
{
    frame::lemma_frames_survive_any_chunking(DEVICE_HEADER, frames, chunks);
    lemma_pushes_feed_the_frames(fresh(), chunks);
}

/// Only a settings event changes the settings.
pub proof fn lemma_other_events_keep_the_settings(s: Settings, e: DeviceEventView)
    ensures
        !is_setting(e) ==> after_ingest(s, e) == s,
{
}

/// What is reported stays reported, whatever comes later.
pub proof fn lemma_reports_stay(s: Settings, events: Seq<DeviceEventView>)
    ensures
        ({
            let t = after_ingests(s, events);
            &&& s.led is Some ==> t.led is Some
            &&& s.record_seconds is Some ==> t.record_seconds is Some
            &&& s.wear_detection is Some ==> t.wear_detection is Some
            &&& s.voice_command is Some ==> t.voice_command is Some
            &&& s.orientation is Some ==> t.orientation is Some
            &&& s.gestures.dom().subset_of(t.gestures.dom())
        }),
    decreases events.len(),
{
    if events.len() > 0 {
        lemma_reports_stay(s, events.drop_last());
    }
}

/// The events that a full burst gives: one for each of the five settings, with a plausible
/// duration, and one for each gesture slot.
pub open spec fn full_burst(events: Seq<DeviceEventView>) -> bool {
    &&& exists|i: int|
        0 <= i < events.len() && (#[trigger] events[i] matches DeviceEventView::Switch(
            SwitchReport::Led(_),
        ))
    &&& exists|i: int|
        0 <= i < events.len() && (#[trigger] events[i] matches DeviceEventView::Switch(
            SwitchReport::RecordSeconds(secs),
        ) && MIN_PLAUSIBLE_RECORD_SECONDS <= secs <= MAX_PLAUSIBLE_RECORD_SECONDS)
    &&& exists|i: int|
        0 <= i < events.len() && (#[trigger] events[i] matches DeviceEventView::Switch(
            SwitchReport::WearDetection(_),
        ))
    &&& exists|i: int|
        0 <= i < events.len() && (#[trigger] events[i] matches DeviceEventView::Switch(
            SwitchReport::VoiceCommand(_),
        ))
    &&& exists|i: int|
        0 <= i < events.len() && (#[trigger] events[i] matches DeviceEventView::Switch(
            SwitchReport::Orientation(_),
        ))
    &&& forall|slot: GestureSlot| #[trigger] reports_slot(events, slot)
}

/// Some event binds this slot.
pub open spec fn reports_slot(events: Seq<DeviceEventView>, slot: GestureSlot) -> bool {
    exists|i: int|
        0 <= i < events.len() && #[trigger] events[i] is GestureBinding
            && events[i]->GestureBinding_slot == slot
}

/// A full burst completes the settings, whatever order its frames come in and whatever else
/// comes between them.
pub proof fn lemma_full_burst_completes(s: Settings, events: Seq<DeviceEventView>)
    requires
        full_burst(events),
    ensures
        complete(after_ingests(s, events)),
{
    let i = choose|i: int|
        0 <= i < events.len() && (#[trigger] events[i] matches DeviceEventView::Switch(
            SwitchReport::Led(_),
        ));
    lemma_report_counts(s, events, i);
    let i = choose|i: int|
        0 <= i < events.len() && (#[trigger] events[i] matches DeviceEventView::Switch(
            SwitchReport::RecordSeconds(secs),
        ) && MIN_PLAUSIBLE_RECORD_SECONDS <= secs <= MAX_PLAUSIBLE_RECORD_SECONDS);
    lemma_report_counts(s, events, i);
    let i = choose|i: int|
        0 <= i < events.len() && (#[trigger] events[i] matches DeviceEventView::Switch(
            SwitchReport::WearDetection(_),
        ));
    lemma_report_counts(s, events, i);
    let i = choose|i: int|
        0 <= i < events.len() && (#[trigger] events[i] matches DeviceEventView::Switch(
            SwitchReport::VoiceCommand(_),
        ));
    lemma_report_counts(s, events, i);
    let i = choose|i: int|
        0 <= i < events.len() && (#[trigger] events[i] matches DeviceEventView::Switch(
            SwitchReport::Orientation(_),
        ));
    lemma_report_counts(s, events, i);
    assert forall|slot: GestureSlot| #[trigger]
        after_ingests(s, events).gestures.dom().contains(slot) by {
        assert(reports_slot(events, slot));
        let i = choose|i: int|
            0 <= i < events.len() && #[trigger] events[i] is GestureBinding
                && events[i]->GestureBinding_slot == slot;
        lemma_report_counts(s, events, i);
    }
}

/// What one event among others reports is reported at the end.
proof fn lemma_report_counts(s: Settings, events: Seq<DeviceEventView>, i: int)
    requires
        0 <= i < events.len(),
    ensures
        ({
            let t = after_ingests(s, events);
            &&& (events[i] matches DeviceEventView::Switch(SwitchReport::Led(_)) ==> t.led is Some)
            &&& (events[i] matches DeviceEventView::Switch(SwitchReport::RecordSeconds(secs))
                && MIN_PLAUSIBLE_RECORD_SECONDS <= secs <= MAX_PLAUSIBLE_RECORD_SECONDS
                ==> t.record_seconds is Some)
            &&& (events[i] matches DeviceEventView::Switch(SwitchReport::WearDetection(_))
                ==> t.wear_detection is Some)
            &&& (events[i] matches DeviceEventView::Switch(SwitchReport::VoiceCommand(_))
                ==> t.voice_command is Some)
            &&& (events[i] matches DeviceEventView::Switch(SwitchReport::Orientation(_))
                ==> t.orientation is Some)
            &&& (events[i] matches DeviceEventView::GestureBinding { slot, .. }
                ==> t.gestures.dom().contains(slot))
        }),
    decreases events.len(),
{
    if i < events.len() - 1 {
        lemma_report_counts(s, events.drop_last(), i);
    }
}

// ---- what the bytes of a frame mean --------------------------------------------------------

/// A count is two bytes, most significant first, in the push as in the reply.
pub proof fn lemma_a_count_is_two_bytes(n: u16, tail: Seq<u8>)
    ensures
        ({
            let data = seq![(n / 256) as u8, (n % 256) as u8] + tail;
            &&& event_of(FrameView { cmd: 0x42, data }) == DeviceEventView::MediaCount(
                MediaCount { count: n, source: CountSource::Push },
            )
            &&& event_of(FrameView { cmd: 0x40, data }) == DeviceEventView::MediaCount(
                MediaCount { count: n, source: CountSource::ReadReply },
            )
            &&& event_of(FrameView { cmd: 0x02, data }) == DeviceEventView::Switch(
                SwitchReport::RecordSeconds(n),
            )
        }),
{
}

/// The capability word is four bytes, most significant first.
pub proof fn lemma_capabilities_are_four_bytes(n: u32, tail: Seq<u8>)
    ensures
        event_of(
            FrameView {
                cmd: 0x95,
                data: seq![
                    (n / 0x100_0000) as u8,
                    (n / 0x1_0000 % 256) as u8,
                    (n / 0x100 % 256) as u8,
                    (n % 256) as u8,
                ] + tail,
            },
        ) == DeviceEventView::Capabilities(Capabilities { raw: n }),
{
}

/// What the bytes of a battery report, a version reply, a volume reply and a voice-feature reply
/// stand for, whatever follows them.
pub proof fn lemma_what_the_bytes_of_a_reply_are(b: Seq<u8>, tail: Seq<u8>)
    requires
        b.len() == 7,
    ensures
        event_of(FrameView { cmd: 0x55, data: b + tail }) == (DeviceEventView::Versions {
            bt: seq![b[0], b[1], b[2]],
            isp: seq![b[3], b[4], b[5]],
            hardware: b[6],
        }),
        event_of(FrameView { cmd: 0x69, data: b + tail }) == DeviceEventView::Volumes(
            Volumes { system: b[0], media: b[1], call: b[2] },
        ),
        event_of(FrameView { cmd: 0x71, data: b + tail }) == DeviceEventView::VoiceFeatures(
            VoiceFeatures { raw: b[0] },
        ),
        event_of(FrameView { cmd: 0x39, data: b + tail }) == (DeviceEventView::WifiOpening {
            serves: WifiService::Files,
            raw: b[0],
        }),
        event_of(FrameView { cmd: 0x67, data: b + tail }) == (DeviceEventView::WifiOpening {
            serves: WifiService::Live,
            raw: b[0],
        }),
        event_of(FrameView { cmd: 0x96, data: b + tail }) == (
        DeviceEventView::IspUpgradeFinished { ok: b[0] == 1 }),
        event_of(FrameView { cmd: 0x96, data: Seq::empty() }) == (
        DeviceEventView::IspUpgradeFinished { ok: false }),
        b[1] <= 100 ==> event_of(FrameView { cmd: 0x53, data: b + tail })
            == DeviceEventView::Battery(
            BatteryReading { percent: b[1], charging: b[0] == 1, source: BatterySource::Push },
        ),
        b[1] > 100 ==> event_of(FrameView { cmd: 0x53, data: b + tail }) == (
        DeviceEventView::Malformed {
            cmd: 0x53,
            data: b + tail,
            reason: MalformedReason::OutOfRange,
        }),
{
    let d = b + tail;
    assert(d.subrange(0, 3) =~= seq![b[0], b[1], b[2]]);
    assert(d.subrange(3, 6) =~= seq![b[3], b[4], b[5]]);
}

/// A battery reply is two decimal digits, of which the first may stand for ten, and the charging
/// flag. Anything else in their place is out of range.
pub proof fn lemma_what_a_battery_reply_reads(a: u8, b: u8, c: u8, tail: Seq<u8>)
    ensures
        ({
            let data = seq![a, b, c] + tail;
            let percent = (a - 0x30) * 10 + (b - 0x30);
            let fits = 0x30 <= a <= 0x3A && 0x30 <= b <= 0x39 && percent <= 100;
            event_of(FrameView { cmd: 0x17, data }) == (if fits {
                DeviceEventView::Battery(
                    BatteryReading {
                        percent: percent as u8,
                        charging: c == 1,
                        source: BatterySource::ReadReply,
                    },
                )
            } else {
                DeviceEventView::Malformed {
                    cmd: 0x17,
                    data,
                    reason: MalformedReason::OutOfRange,
                }
            })
        }),
{
}

/// A setting of `n` is reported as the byte `n` or as its ASCII digit, whatever follows it.
pub proof fn lemma_a_setting_is_a_byte_or_a_digit(n: u8, tail: Seq<u8>)
    requires
        n <= 9,
    ensures
        forall|byte: u8|
            byte == n || byte == 0x30 + n ==> {
                let data = #[trigger] (seq![byte] + tail);
                let led = event_of(FrameView { cmd: 0x01, data });
                let wear = event_of(FrameView { cmd: 0x04, data });
                let voice = event_of(FrameView { cmd: 0x06, data });
                let turned = event_of(FrameView { cmd: 0x61, data });
                &&& led == if n <= 2 {
                    DeviceEventView::Switch(SwitchReport::Led(n))
                } else {
                    DeviceEventView::Malformed {
                        cmd: 0x01,
                        data,
                        reason: MalformedReason::OutOfRange,
                    }
                }
                &&& n <= 1 ==> wear == DeviceEventView::Switch(SwitchReport::WearDetection(n == 1))
                &&& n <= 1 ==> voice == DeviceEventView::Switch(SwitchReport::VoiceCommand(n == 1))
                &&& n == 0 ==> turned == DeviceEventView::Switch(
                    SwitchReport::Orientation(Orientation::Portrait),
                )
                &&& n == 1 ==> turned == DeviceEventView::Switch(
                    SwitchReport::Orientation(Orientation::Landscape),
                )
                &&& n > 1 ==> wear == (DeviceEventView::Malformed {
                    cmd: 0x04,
                    data,
                    reason: MalformedReason::OutOfRange,
                })
                &&& n > 1 ==> voice == (DeviceEventView::Malformed {
                    cmd: 0x06,
                    data,
                    reason: MalformedReason::OutOfRange,
                })
                &&& n > 1 ==> turned == (DeviceEventView::Malformed {
                    cmd: 0x61,
                    data,
                    reason: MalformedReason::OutOfRange,
                })
            },
{
}

/// A byte that is neither a small number nor an ASCII digit is no setting.
pub proof fn lemma_no_other_byte_is_a_setting(byte: u8, tail: Seq<u8>)
    requires
        byte > 9,
        !(0x30 <= byte <= 0x39),
    ensures
        ({
            let data = seq![byte] + tail;
            forall|cmd: u8|
                cmd == 0x01 || cmd == 0x04 || cmd == 0x06 || cmd == 0x61 ==> #[trigger] event_of(
                    FrameView { cmd, data },
                ) == (DeviceEventView::Malformed {
                    cmd,
                    data,
                    reason: MalformedReason::OutOfRange,
                })
        }),
{
}

/// A gesture is reported under its own opcode, with the byte that was sent and the action that
/// the byte or its ASCII digit stands for.
pub proof fn lemma_what_a_gesture_report_says(byte: u8, tail: Seq<u8>)
    ensures
        ({
            let data = seq![byte] + tail;
            let n = if 0x30 <= byte <= 0x39 {
                byte - 0x30
            } else {
                byte as int
            };
            let action = if n == 0 {
                Some(GestureAction::VolumeDown)
            } else if n == 1 {
                Some(GestureAction::VolumeUp)
            } else if n == 2 {
                Some(GestureAction::PlayPause)
            } else if n == 3 {
                Some(GestureAction::NextTrack)
            } else if n == 4 {
                Some(GestureAction::PreviousTrack)
            } else {
                None
            };
            &&& event_of(FrameView { cmd: 0x07, data }) == (DeviceEventView::GestureBinding {
                slot: GestureSlot::SwipeForward,
                action,
                raw: byte,
            })
            &&& event_of(FrameView { cmd: 0x08, data }) == (DeviceEventView::GestureBinding {
                slot: GestureSlot::SwipeBack,
                action,
                raw: byte,
            })
            &&& event_of(FrameView { cmd: 0x09, data }) == (DeviceEventView::GestureBinding {
                slot: GestureSlot::SingleTap,
                action,
                raw: byte,
            })
            &&& event_of(FrameView { cmd: 0x10, data }) == (DeviceEventView::GestureBinding {
                slot: GestureSlot::DoubleTap,
                action,
                raw: byte,
            })
            &&& event_of(FrameView { cmd: 0x11, data }) == (DeviceEventView::GestureBinding {
                slot: GestureSlot::TripleTap,
                action,
                raw: byte,
            })
        }),
{
}

/// Each of the ten flags of an action report is its own byte, and set unless that byte is zero.
pub proof fn lemma_each_action_is_its_own_byte(data: Seq<u8>, i: int)
    requires
        data.len() >= 10,
        0 <= i < 10,
    ensures
        event_of(FrameView { cmd: 0x45, data }) matches DeviceEventView::ActionSync(flags)
            && flags.len() == 10 && flags[i] == (data[i] != 0),
{
}

/// The actions that are active are listed in the order of their bytes, each once.
pub proof fn lemma_active_actions_are_those_set(flags: Seq<bool>, n: int)
    requires
        0 <= n <= 10,
        flags.len() == 10,
    ensures
        forall|i: int|
            0 <= i < n ==> (flags[i] <==> active_of(flags, n).contains(
                #[trigger] DeviceAction::ALL@[i],
            )),
        forall|j: int|
            0 <= j < active_of(flags, n).len() ==> (#[trigger] active_of(flags, n)[j]).index() < n,
        forall|j: int, k: int|
            0 <= j < k < active_of(flags, n).len() ==> (#[trigger] active_of(flags, n)[j]).index()
                < (#[trigger] active_of(flags, n)[k]).index(),
    decreases n,
{
    if n > 0 {
        lemma_active_actions_are_those_set(flags, n - 1);
        let before = active_of(flags, n - 1);
        let after = active_of(flags, n);
        let own = DeviceAction::ALL@[n - 1];
        assert(own.index() == n - 1);
        if flags[n - 1] {
            assert(after[before.len() as int] == own);
        }
        assert forall|i: int| 0 <= i < n implies (flags[i] <==> after.contains(
            #[trigger] DeviceAction::ALL@[i],
        )) by {
            let action = DeviceAction::ALL@[i];
            assert(action.index() == i);
            if i < n - 1 {
                if before.contains(action) {
                    let j = choose|j: int| 0 <= j < before.len() && before[j] == action;
                    assert(after[j] == action);
                }
                if after.contains(action) {
                    let j = choose|j: int| 0 <= j < after.len() && after[j] == action;
                    if flags[n - 1] && j == before.len() {
                        assert(action == own);
                    }
                    assert(before[j] == action);
                }
            } else if after.contains(own) {
                let j = choose|j: int| 0 <= j < after.len() && after[j] == own;
                if !flags[n - 1] {
                    assert(before[j].index() < n - 1);
                }
            }
        }
    }
}

/// A reply that is too short for what it reports is malformed, and says how many bytes it needs.
pub proof fn lemma_a_short_reply_says_what_it_needs(data: Seq<u8>)
    ensures
        forall|cmd: u8, need: usize|
            data.len() < need && ({
                ||| cmd == 0x17 && need == 3
                ||| cmd == 0x53 && need == 2
                ||| cmd == 0x55 && need == 7
                ||| cmd == 0x64 && need == 8
                ||| (cmd == 0x42 || cmd == 0x40 || cmd == 0x02) && need == 2
                ||| (cmd == 0x01 || cmd == 0x04 || cmd == 0x06 || cmd == 0x61) && need == 1
                ||| (cmd == 0x07 || cmd == 0x08 || cmd == 0x09 || cmd == 0x10 || cmd == 0x11)
                    && need == 1
                ||| cmd == 0x95 && need == 4
                ||| (cmd == 0x71 || cmd == 0x39 || cmd == 0x67) && need == 1
                ||| cmd == 0x69 && need == 3
                ||| cmd == 0x45 && need == 10
            }) ==> event_of(FrameView { cmd, data }) == (#[trigger] short(cmd, data, need))
                && short(cmd, data, need) == (DeviceEventView::Malformed {
                cmd,
                data,
                reason: MalformedReason::TooShort { need },
            }),
{
}

/// The voice frames, the four notices without data, and the echo of every other command, with the
/// bytes that came.
pub proof fn lemma_what_the_other_frames_are(data: Seq<u8>)
    ensures
        event_of(FrameView { cmd: 0x46, data }) == (DeviceEventView::VoiceFrame {
            cmd: 0x46,
            data,
        }),
        event_of(FrameView { cmd: 0x97, data }) == (DeviceEventView::VoiceFrame {
            cmd: 0x97,
            data,
        }),
        event_of(FrameView { cmd: 0x99, data }) == (DeviceEventView::VoiceFrame {
            cmd: 0x99,
            data,
        }),
        event_of(FrameView { cmd: 0x49, data }) == DeviceEventView::VoiceAbandoned,
        event_of(FrameView { cmd: 0x51, data }) == DeviceEventView::AiBroadcastCancelled,
        event_of(FrameView { cmd: 0x52, data }) == DeviceEventView::HdImageFailed,
        forall|cmd: u8|
            ({
                ||| cmd == 0x14
                ||| 0x22 <= cmd <= 0x24
                ||| 0x30 <= cmd <= 0x34
                ||| cmd == 0x36
                ||| cmd == 0x37
                ||| cmd == 0x44
                ||| cmd == 0x48
                ||| cmd == 0x56
                ||| cmd == 0x57
                ||| cmd == 0x59
                ||| cmd == 0x60
                ||| cmd == 0x62
                ||| cmd == 0x63
                ||| cmd == 0x65
                ||| cmd == 0x70
            }) ==> ((#[trigger] event_of(FrameView { cmd, data })) matches DeviceEventView::Ack {
                command,
                data: echoed,
            } && command.code() == cmd && echoed == data),
{
}

/// Whether a byte can stand inside a name without ending it or being trimmed off it.
pub open spec fn plain(byte: u8) -> bool {
    0x21 <= byte <= 0x7E
}

/// A name between trimmed bytes, up to the first zero byte, reads as its own characters.
proof fn lemma_field_of_plain_text(front: Seq<u8>, name: Seq<u8>, back: Seq<u8>, rest: Seq<u8>)
    requires
        forall|i: int| 0 <= i < front.len() ==> #[trigger] front[i] != 0 && (front[i] <= 0x20
            || front[i] == 0x7F),
        forall|i: int| 0 <= i < back.len() ==> #[trigger] back[i] != 0 && (back[i] <= 0x20
            || back[i] == 0x7F),
        forall|i: int| 0 <= i < name.len() ==> 0 < #[trigger] name[i] < 0x80,
        name.len() > 0 ==> plain(name[0]) && plain(name.last()),
        rest.len() > 0 ==> rest[0] == 0,
    ensures
        ascii_field_of(front + name + back + rest) == Some(name.map_values(|c: u8| c as char)),
{
    let head = front + name + back;
    let all = head + rest;
    lemma_until_nul(head, rest);
    assert(all =~= front + name + back + rest);
    assert forall|i: int| 0 <= i < head.len() implies #[trigger] head[i] < 0x80 by {
        if i < front.len() {
            assert(head[i] == front[i]);
        } else if i < front.len() + name.len() {
            assert(head[i] == name[i - front.len()]);
        } else {
            assert(head[i] == back[i - front.len() - name.len()]);
        }
    }
    if name.len() > 0 {
        lemma_trim_front(front, name + back);
        assert(front + (name + back) =~= head);
        lemma_trim_back(name, back);
    } else {
        let blank = front + back;
        assert(head =~= blank);
        lemma_trim_front(blank, Seq::empty());
        assert(blank + Seq::<u8>::empty() =~= blank);
        assert(trim_back(Seq::<u8>::empty()) =~= name);
    }
    assert(text::ascii_text(name) =~= name.map_values(|c: u8| c as char));
}

proof fn lemma_until_nul(head: Seq<u8>, rest: Seq<u8>)
    requires
        forall|i: int| 0 <= i < head.len() ==> #[trigger] head[i] != 0,
        rest.len() > 0 ==> rest[0] == 0,
    ensures
        until_nul(head + rest) == head,
    decreases head.len(),
{
    let all = head + rest;
    if head.len() == 0 {
        assert(all =~= rest);
    } else {
        let later = head.drop_first();
        assert forall|i: int| 0 <= i < later.len() implies #[trigger] later[i] != 0 by {
            assert(later[i] == head[i + 1]);
        }
        assert(head[0] != 0);
        lemma_until_nul(later, rest);
        assert(all.drop_first() =~= later + rest);
        assert(seq![head[0]] + later =~= head);
    }
}

proof fn lemma_trim_front(front: Seq<u8>, rest: Seq<u8>)
    requires
        forall|i: int| 0 <= i < front.len() ==> #[trigger] front[i] <= 0x20 || front[i] == 0x7F,
        rest.len() > 0 ==> plain(rest[0]),
    ensures
        trim_front(front + rest) == rest,
    decreases front.len(),
{
    let all = front + rest;
    if front.len() == 0 {
        assert(all =~= rest);
    } else {
        let later = front.drop_first();
        assert forall|i: int| 0 <= i < later.len() implies #[trigger] later[i] <= 0x20 || later[i]
            == 0x7F by {
            assert(later[i] == front[i + 1]);
        }
        assert(front[0] <= 0x20 || front[0] == 0x7F);
        lemma_trim_front(later, rest);
        assert(all.drop_first() =~= later + rest);
    }
}

proof fn lemma_trim_back(head: Seq<u8>, back: Seq<u8>)
    requires
        forall|i: int| 0 <= i < back.len() ==> #[trigger] back[i] <= 0x20 || back[i] == 0x7F,
        head.len() > 0 ==> plain(head.last()),
    ensures
        trim_back(head + back) == head,
    decreases back.len(),
{
    let all = head + back;
    if back.len() == 0 {
        assert(all =~= head);
    } else {
        let earlier = back.drop_last();
        assert forall|i: int| 0 <= i < earlier.len() implies #[trigger] earlier[i] <= 0x20
            || earlier[i] == 0x7F by {
            assert(earlier[i] == back[i]);
        }
        assert(back[back.len() - 1] <= 0x20 || back[back.len() - 1] == 0x7F);
        lemma_trim_back(head, earlier);
        assert(all.drop_last() =~= head + earlier);
    }
}

/// The network name is the text up to the first zero byte, without the blanks and control bytes
/// around it.
pub proof fn lemma_the_network_name_is_its_text(
    front: Seq<u8>,
    name: Seq<u8>,
    back: Seq<u8>,
    rest: Seq<u8>,
)
    requires
        forall|i: int| 0 <= i < front.len() ==> #[trigger] front[i] != 0 && (front[i] <= 0x20
            || front[i] == 0x7F),
        forall|i: int| 0 <= i < back.len() ==> #[trigger] back[i] != 0 && (back[i] <= 0x20
            || back[i] == 0x7F),
        forall|i: int| 0 <= i < name.len() ==> 0 < #[trigger] name[i] < 0x80,
        name.len() > 0 ==> plain(name[0]) && plain(name.last()),
        rest.len() > 0 ==> rest[0] == 0,
    ensures
        ({
            let data = front + name + back + rest;
            event_of(FrameView { cmd: 0x25, data }) == (if name.len() > 0 {
                DeviceEventView::WifiCredentials { ssid: name.map_values(|c: u8| c as char) }
            } else {
                DeviceEventView::Malformed { cmd: 0x25, data, reason: MalformedReason::NotText }
            })
        }),
{
    lemma_field_of_plain_text(front, name, back, rest);
}

/// The project and the customer are four bytes each, padded with zero bytes.
pub proof fn lemma_an_identity_is_two_names(project: Seq<u8>, customer: Seq<u8>, tail: Seq<u8>)
    requires
        project.len() <= 4,
        customer.len() <= 4,
        project.len() + customer.len() > 0,
        forall|i: int| 0 <= i < project.len() ==> plain(#[trigger] project[i]),
        forall|i: int| 0 <= i < customer.len() ==> plain(#[trigger] customer[i]),
    ensures
        event_of(
            FrameView {
                cmd: 0x64,
                data: project + Seq::new((4 - project.len()) as nat, |i: int| 0u8) + customer
                    + Seq::new((4 - customer.len()) as nat, |i: int| 0u8) + tail,
            },
        ) == (DeviceEventView::Identity {
            project: project.map_values(|c: u8| c as char),
            customer: customer.map_values(|c: u8| c as char),
        }),
{
    let p_pad = Seq::new((4 - project.len()) as nat, |i: int| 0u8);
    let c_pad = Seq::new((4 - customer.len()) as nat, |i: int| 0u8);
    let data = project + p_pad + customer + c_pad + tail;
    let none = Seq::<u8>::empty();
    lemma_field_of_plain_text(none, project, none, p_pad);
    lemma_field_of_plain_text(none, customer, none, c_pad);
    assert(data.subrange(0, 4) =~= none + project + none + p_pad);
    assert(data.subrange(4, 8) =~= none + customer + none + c_pad);
    assert(project.map_values(|c: u8| c as char).len() == project.len());
    assert(customer.map_values(|c: u8| c as char).len() == customer.len());
}

/// A byte outside ASCII before the first zero byte makes a name no text.
pub proof fn lemma_a_name_is_ascii(data: Seq<u8>, i: int)
    requires
        0 <= i < data.len(),
        data[i] >= 0x80,
        forall|k: int| 0 <= k < i ==> #[trigger] data[k] != 0,
    ensures
        event_of(FrameView { cmd: 0x25, data }) == (DeviceEventView::Malformed {
            cmd: 0x25,
            data,
            reason: MalformedReason::NotText,
        }),
        i < 8 <= data.len() ==> event_of(FrameView { cmd: 0x64, data }) == (
        DeviceEventView::Malformed { cmd: 0x64, data, reason: MalformedReason::NotText }),
{
    lemma_until_nul_reaches(data, i);
    if i < 8 <= data.len() {
        if i < 4 {
            lemma_until_nul_reaches(data.subrange(0, 4), i);
        } else {
            assert forall|k: int| 0 <= k < i - 4 implies #[trigger] data.subrange(4, 8)[k] != 0 by {
                assert(data.subrange(4, 8)[k] == data[k + 4]);
            }
            lemma_until_nul_reaches(data.subrange(4, 8), i - 4);
        }
    }
}

proof fn lemma_until_nul_reaches(s: Seq<u8>, i: int)
    requires
        0 <= i < s.len(),
        forall|k: int| 0 <= k <= i ==> #[trigger] s[k] != 0,
    ensures
        until_nul(s).len() > i,
        until_nul(s)[i] == s[i],
    decreases i,
{
    assert(s[0] != 0);
    if i > 0 {
        assert forall|k: int| 0 <= k <= i - 1 implies #[trigger] s.drop_first()[k] != 0 by {
            assert(s.drop_first()[k] == s[k + 1]);
        }
        lemma_until_nul_reaches(s.drop_first(), i - 1);
    }
}

/// Frames that are no voice frames give one event each, in order. They leave the capture alone, but
/// for the frame that abandons it.
pub proof fn lemma_each_frame_gives_its_event(v: VoiceState, frames: Seq<FrameView>)
    requires
        forall|i: int|
            0 <= i < frames.len() ==> (#[trigger] frames[i]).cmd != 0x46 && frames[i].cmd != 0x97
                && frames[i].cmd != 0x99,
    ensures
        after_feeds(v, frames).1.len() == frames.len(),
        forall|i: int|
            0 <= i < frames.len() ==> #[trigger] after_feeds(v, frames).1[i] == event_of(frames[i]),
        (forall|i: int| 0 <= i < frames.len() ==> (#[trigger] frames[i]).cmd != 0x49)
            ==> after_feeds(v, frames).0 == v,
        frames.len() > 0 && frames.last().cmd == 0x49 ==> !after_feeds(v, frames).0.capturing,
    decreases frames.len(),
{
    if frames.len() > 0 {
        let before = frames.drop_last();
        assert forall|i: int| 0 <= i < before.len() implies (#[trigger] before[i]).cmd != 0x46
            && before[i].cmd != 0x97 && before[i].cmd != 0x99 by {
            assert(before[i] == frames[i]);
        }
        lemma_each_frame_gives_its_event(v, before);
        let f = frames.last();
        assert(f == frames[frames.len() - 1]);
        assert(event_of(f) is VoiceAbandoned <==> f.cmd == 0x49);
        assert(!(event_of(f) is VoiceFrame));
        if forall|i: int| 0 <= i < frames.len() ==> (#[trigger] frames[i]).cmd != 0x49 {
            assert forall|i: int| 0 <= i < before.len() implies (#[trigger] before[i]).cmd
                != 0x49 by {
                assert(before[i] == frames[i]);
            }
        }
    }
}

/// A voice frame is handed to the capture, and gives the capture's events.
pub proof fn lemma_voice_frames_go_to_the_capture(v: VoiceState, f: FrameView)
    requires
        f.cmd == 0x46 || f.cmd == 0x97 || f.cmd == 0x99,
    ensures
        after_feed(v, f).0 == voice::after_upload(v, f.cmd, f.data).0,
        after_feed(v, f).1.len() == voice::after_upload(v, f.cmd, f.data).1.len(),
        forall|i: int|
            0 <= i < after_feed(v, f).1.len() ==> #[trigger] after_feed(v, f).1[i]
                == DeviceEventView::Voice(voice::after_upload(v, f.cmd, f.data).1[i]),
{
}

/// What a report leaves in the settings, and that it leaves the others alone. A recording length
/// outside 1 to 3600 seconds is not taken over.
pub proof fn lemma_each_report_sets_its_own(
    s: Settings,
    level: u8,
    secs: u16,
    on: bool,
    o: Orientation,
    slot: GestureSlot,
    action: Option<GestureAction>,
    raw: u8,
)
    ensures
        after_ingest(s, DeviceEventView::Switch(SwitchReport::Led(level))) == (Settings {
            led: Some(level),
            ..s
        }),
        after_ingest(s, DeviceEventView::Switch(SwitchReport::RecordSeconds(secs))) == (Settings {
            record_seconds: if 1 <= secs <= 3600 {
                Some(secs)
            } else {
                s.record_seconds
            },
            ..s
        }),
        after_ingest(s, DeviceEventView::Switch(SwitchReport::WearDetection(on))) == (Settings {
            wear_detection: Some(on),
            ..s
        }),
        after_ingest(s, DeviceEventView::Switch(SwitchReport::VoiceCommand(on))) == (Settings {
            voice_command: Some(on),
            ..s
        }),
        after_ingest(s, DeviceEventView::Switch(SwitchReport::Orientation(o))) == (Settings {
            orientation: Some(o),
            ..s
        }),
        after_ingest(s, DeviceEventView::GestureBinding { slot, action, raw }) == (Settings {
            gestures: s.gestures.insert(slot, raw),
            ..s
        }),
{
}

/// An event shows what it carries.
pub proof fn lemma_what_an_event_shows(e: DeviceEvent)
    ensures
        match e {
            DeviceEvent::Battery(b) => e@ == DeviceEventView::Battery(b),
            DeviceEvent::Versions(v) => e@ == (DeviceEventView::Versions {
                bt: v.bt@,
                isp: v.isp@,
                hardware: v.hardware,
            }),
            DeviceEvent::Identity(i) => e@ == (DeviceEventView::Identity {
                project: i.project@,
                customer: i.customer@,
            }),
            DeviceEvent::MediaCount(c) => e@ == DeviceEventView::MediaCount(c),
            DeviceEvent::Switch(s) => e@ == DeviceEventView::Switch(s),
            DeviceEvent::GestureBinding { slot, action, raw } => e@ == (
            DeviceEventView::GestureBinding { slot, action, raw }),
            DeviceEvent::Capabilities(c) => e@ == DeviceEventView::Capabilities(c),
            DeviceEvent::VoiceFeatures(f) => e@ == DeviceEventView::VoiceFeatures(f),
            DeviceEvent::Volumes(v) => e@ == DeviceEventView::Volumes(v),
            DeviceEvent::WifiCredentials(w) => e@ == (DeviceEventView::WifiCredentials {
                ssid: w.ssid@,
            }),
            DeviceEvent::WifiOpening { serves, raw } => e@ == (DeviceEventView::WifiOpening {
                serves,
                raw,
            }),
            DeviceEvent::ActionSync(a) => e@ == DeviceEventView::ActionSync(a@),
            DeviceEvent::Voice(v) => e@ == DeviceEventView::Voice(v@),
            DeviceEvent::VoiceFrame { cmd, data } => e@ == (DeviceEventView::VoiceFrame {
                cmd,
                data: data@,
            }),
            DeviceEvent::VoiceAbandoned => e@ == DeviceEventView::VoiceAbandoned,
            DeviceEvent::AiBroadcastCancelled => e@ == DeviceEventView::AiBroadcastCancelled,
            DeviceEvent::HdImageFailed => e@ == DeviceEventView::HdImageFailed,
            DeviceEvent::IspUpgradeFinished { ok } => e@ == (
            DeviceEventView::IspUpgradeFinished { ok }),
            DeviceEvent::Ack { command, data } => e@ == (DeviceEventView::Ack {
                command,
                data: data@,
            }),
            DeviceEvent::Malformed { cmd, data, reason } => e@ == (DeviceEventView::Malformed {
                cmd,
                data: data@,
                reason,
            }),
            DeviceEvent::Unrecognised { cmd, data } => e@ == (DeviceEventView::Unrecognised {
                cmd,
                data: data@,
            }),
        },
{
}

/// The settings are complete when every switch and every gesture has been reported, and only then.
pub proof fn lemma_complete_means_all_ten(s: Settings)
    ensures
        complete(s) <==> {
            &&& s.led is Some
            &&& s.record_seconds is Some
            &&& s.wear_detection is Some
            &&& s.voice_command is Some
            &&& s.orientation is Some
            &&& s.gestures.dom().contains(GestureSlot::SwipeForward)
            &&& s.gestures.dom().contains(GestureSlot::SwipeBack)
            &&& s.gestures.dom().contains(GestureSlot::SingleTap)
            &&& s.gestures.dom().contains(GestureSlot::DoubleTap)
            &&& s.gestures.dom().contains(GestureSlot::TripleTap)
        },
{
    if s.gestures.dom().contains(GestureSlot::SwipeForward) && s.gestures.dom().contains(
        GestureSlot::SwipeBack,
    ) && s.gestures.dom().contains(GestureSlot::SingleTap) && s.gestures.dom().contains(
        GestureSlot::DoubleTap,
    ) && s.gestures.dom().contains(GestureSlot::TripleTap) {
        assert forall|slot: GestureSlot| #[trigger] s.gestures.dom().contains(slot) by {
            match slot {
                GestureSlot::SwipeForward => {},
                GestureSlot::SwipeBack => {},
                GestureSlot::SingleTap => {},
                GestureSlot::DoubleTap => {},
                GestureSlot::TripleTap => {},
            }
        }
    }
}

/// Bit `i` of the flags weighs two to the power of `i`.
pub proof fn lemma_a_flag_is_a_bit(flags: u16, i: u16)
    requires
        i < 16,
    ensures
        bit(flags, i as int) <==> (flags >> i) % 2 == 1,
{
    assert((flags & (1u16 << i) != 0) <==> (flags >> i) % 2 == 1) by (bit_vector)
        requires
            i < 16,
    ;
}

/// Nothing has been reported before the first report.
pub proof fn lemma_nothing_is_reported_at_first()
    ensures
        no_settings().led is None,
        no_settings().record_seconds is None,
        no_settings().wear_detection is None,
        no_settings().voice_command is None,
        no_settings().orientation is None,
        no_settings().gestures == Map::<GestureSlot, u8>::empty(),
        fresh().buffer.len() == 0,
        !fresh().voice.capturing,
{
}

// ---- what the operations give back -----------------------------------------------------------

/// A count that is parsed is both its bytes, whatever they are.
pub proof fn lemma_a_parsed_count_is_both_its_bytes(frame: Frame, e: DeviceEvent)
    requires
        frame.data@.len() >= 2,
    ensures
        call_ensures(parse, (&frame,), e) && (frame.cmd == 0x40 || frame.cmd == 0x42)
            ==> (e@ matches DeviceEventView::MediaCount(m) && m.count == frame.data@[0] * 256
            + frame.data@[1] && m.source == (if frame.cmd == 0x42 {
            CountSource::Push
        } else {
            CountSource::ReadReply
        })),
        call_ensures(parse, (&frame,), e) && frame.cmd == 0x02 ==> (e@
            matches DeviceEventView::Switch(SwitchReport::RecordSeconds(n)) && n == frame.data@[0]
            * 256 + frame.data@[1]),
{
    let d = frame.data@;
    let n = (d[0] * 256 + d[1]) as u16;
    lemma_a_count_is_two_bytes(n, d.skip(2));
    assert(seq![(n / 256) as u8, (n % 256) as u8] + d.skip(2) =~= d);
}

/// What the parsed values say of themselves.
pub proof fn lemma_what_parsed_values_say(
    c: Capabilities,
    f: VoiceFeatures,
    v: Volumes,
    channel: VolumeChannel,
    w: WifiCredentials,
    s: &'static str,
    b: bool,
    level: u8,
)
    ensures
        call_ensures(Capabilities::is_known_configuration, (c,), b) ==> b == (c.raw == 0x040B),
        call_ensures(VoiceFeatures::all_enabled, (f,), b) ==> b == (f.raw == 0),
        call_ensures(Volumes::level, (v, channel), level) ==> level == match channel {
            VolumeChannel::System => v.system,
            VolumeChannel::Media => v.media,
            VolumeChannel::Call => v.call,
        },
        call_ensures(WifiCredentials::passphrase, (&w,), s) ==> s@ == "12345678"@,
{
}

/// An action is active where its own flag is set, and the flags come back as bits, the first
/// action the lowest.
pub proof fn lemma_what_action_flags_give_back(
    flags: ActionSync,
    action: DeviceAction,
    index: usize,
    r: Option<DeviceAction>,
    b: bool,
    raw: u16,
    i: int,
)
    ensures
        call_ensures(ActionSync::is_active, (flags, action), b) ==> b
            == flags@[action.index() as int],
        call_ensures(ActionSync::raw, (flags,), raw) && 0 <= i < 16 ==> bit(raw, i) == (i < 10
            && flags@[i]),
        call_ensures(DeviceAction::from_index, (index,), r) ==> (r is Some <==> index < 10),
        call_ensures(DeviceAction::from_index, (index,), r) ==> (r matches Some(a) ==> a.index()
            == index),
{
}

/// What has been reported is given back, each setting its own, and a gesture as its byte and as the
/// action that the byte stands for.
pub proof fn lemma_what_settings_give_back(
    s: SwitchStates,
    slot: GestureSlot,
    led: Option<u8>,
    seconds: Option<u16>,
    on: Option<bool>,
    o: Option<Orientation>,
    action: Option<GestureAction>,
    raw: Option<u8>,
)
    ensures
        call_ensures(SwitchStates::led, (&s,), led) ==> led == s@.led,
        call_ensures(SwitchStates::record_seconds, (&s,), seconds) ==> seconds == s@.record_seconds,
        call_ensures(SwitchStates::wear_detection, (&s,), on) ==> on == s@.wear_detection,
        call_ensures(SwitchStates::voice_command, (&s,), on) ==> on == s@.voice_command,
        call_ensures(SwitchStates::orientation, (&s,), o) ==> o == s@.orientation,
        call_ensures(SwitchStates::gesture_raw, (&s, slot), raw) ==> (raw is Some
            <==> s@.gestures.dom().contains(slot)) && (raw matches Some(n) ==> n
            == s@.gestures[slot]),
        call_ensures(SwitchStates::gesture, (&s, slot), action) ==> (match action {
            Some(a) => s@.gestures.dom().contains(slot) && (s@.gestures[slot] == a.ascii()
                || s@.gestures[slot] == a.ascii() - 0x30),
            None => s@.gestures.dom().contains(slot) ==> !(s@.gestures[slot] < 5 || 0x30
                <= s@.gestures[slot] < 0x35),
        }),
{
}

/// Feeding one frame is what a push of it does behind the framing: voice goes to the capture, and
/// everything else is its event.
pub proof fn lemma_what_feeding_a_frame_gives(
    p: &mut Parser,
    frame: Frame,
    events: Vec<DeviceEvent>,
)
    ensures
        call_ensures(Parser::feed, (old(p), &frame), events) && !(frame.cmd == 0x46 || frame.cmd
            == 0x97 || frame.cmd == 0x99) ==> {
            &&& events@.len() == 1
            &&& events@[0]@ == event_of(frame@)
            &&& final(p)@.buffer == old(p)@.buffer
            &&& frame.cmd != 0x49 ==> final(p)@ == old(p)@
            &&& frame.cmd == 0x49 ==> events@[0]@ == DeviceEventView::VoiceAbandoned
                && !final(p)@.voice.capturing && final(p)@.voice.packets == 0
        },
        call_ensures(Parser::feed, (old(p), &frame), events) && (frame.cmd == 0x46 || frame.cmd
            == 0x97 || frame.cmd == 0x99) ==> {
            let (after, given) = voice::after_upload(old(p)@.voice, frame.cmd, frame.data@);
            &&& final(p)@.buffer == old(p)@.buffer
            &&& final(p)@.voice == after
            &&& events@.len() == given.len()
            &&& forall|i: int|
                0 <= i < given.len() ==> (#[trigger] events@[i])@ == DeviceEventView::Voice(
                    given[i],
                )
        },
{
    if call_ensures(Parser::feed, (old(p), &frame), events) {
        let views = event_views(events@);
        assert(views.len() == events@.len());
        assert forall|i: int| 0 <= i < events@.len() implies views[i] == (#[trigger] events@[i])@ by {}
        assert(old(p)@.buffer == final(p)@.buffer);
        assert(events@.len() == 1 ==> views[0] == events@[0]@);
    }
}

/// What backs each action: nodding, shaking the head and being worn are known from clients alone,
/// and all others have been seen. The actions are listed in the order of their bytes.
pub proof fn lemma_what_backs_an_action(a: DeviceAction, i: int)
    ensures
        a.evidence() == Evidence::ClientOnly <==> a.index() == 5 || a.index() == 6 || a.index() == 8,
        a.evidence() == Evidence::Capture <==> !(a.index() == 5 || a.index() == 6 || a.index()
            == 8),
        0 <= i < 10 ==> DeviceAction::ALL@[i].index() == i,
        a.index() == match a {
            DeviceAction::TakePhoto => 0usize,
            DeviceAction::AudioRecord => 1,
            DeviceAction::VideoRecord => 2,
            DeviceAction::VolumeUp => 3,
            DeviceAction::VolumeDown => 4,
            DeviceAction::NodHead => 5,
            DeviceAction::ShakeHead => 6,
            DeviceAction::PlayPause => 7,
            DeviceAction::WearingDetection => 8,
            DeviceAction::ImportingMode => 9,
        },
{
}

} // verus!

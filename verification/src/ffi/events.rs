//! Decoded events, as they cross the boundary.
use crate::ffi::vocabulary;
use crate::ffi::vocabulary::FfiGlassesCommand;
use crate::ffi::vocabulary::FfiGlassesDeviceAction;
use crate::ffi::vocabulary::FfiGlassesGestureAction;
use crate::ffi::vocabulary::FfiGlassesGestureSlot;
use crate::ffi::vocabulary::FfiGlassesOrientation;
use crate::ffi::vocabulary::FfiGlassesWifiService;
use crate::frame::Frame;
use crate::frame::FrameView;
use crate::frame::Residual;
use crate::opcodes::GestureAction;
use crate::opcodes::GestureSlot;
use crate::parser;
use crate::parser::BatterySource;
use crate::parser::CountSource;
use crate::parser::DeviceAction;
use crate::parser::DeviceEvent;
use crate::parser::DeviceEventView;
use crate::parser::MalformedReason;
use crate::parser::Settings;
use crate::parser::SwitchReport;
use crate::parser::SwitchStates;
use crate::parser::Versions;
use crate::parser::WifiCredentials;
use crate::reassembly::FileAbort;
use crate::reassembly::FileEvent;
use crate::reassembly::FileEventView;
use crate::reassembly::FileKind;
use crate::reassembly::TransferProgress;
use crate::voice;
use crate::voice::EndCause;
use crate::voice::OpusBandwidth;
use crate::voice::OpusMode;
use crate::voice::OpusToc;
use crate::voice::VoiceEvent;
use crate::voice::VoiceEventView;
use vstd::prelude::*;

verus! {

/// Which frame a battery reading arrived in: the same quantity in two encodings.
#[derive(Debug, Clone, Copy, PartialEq, Eq, Structural)]
pub enum FfiGlassesBatterySource {
    ReadReply,
    Push,
}

/// What crosses the boundary for a [`BatterySource`].
pub open spec fn battery_source_out(battery_source: BatterySource) -> FfiGlassesBatterySource {
    match battery_source {
        BatterySource::ReadReply => FfiGlassesBatterySource::ReadReply,
        BatterySource::Push => FfiGlassesBatterySource::Push,
    }
}

impl From<BatterySource> for FfiGlassesBatterySource {
    fn from(battery_source: BatterySource) -> (r: Self)
        ensures
            r == battery_source_out(battery_source),
    {
        match battery_source {
            BatterySource::ReadReply => FfiGlassesBatterySource::ReadReply,
            BatterySource::Push => FfiGlassesBatterySource::Push,
        }
    }
}

impl vstd::std_specs::convert::FromSpecImpl<BatterySource> for FfiGlassesBatterySource {
    open spec fn obeys_from_spec() -> bool {
        true
    }

    open spec fn from_spec(battery_source: BatterySource) -> Self {
        battery_source_out(battery_source)
    }
}

/// Where a media count came from.
#[derive(Debug, Clone, Copy, PartialEq, Eq, Structural)]
pub enum FfiGlassesCountSource {
    Push,
    ReadReply,
}

/// What crosses the boundary for a [`CountSource`].
pub open spec fn count_source_out(count_source: CountSource) -> FfiGlassesCountSource {
    match count_source {
        CountSource::Push => FfiGlassesCountSource::Push,
        CountSource::ReadReply => FfiGlassesCountSource::ReadReply,
    }
}

impl From<CountSource> for FfiGlassesCountSource {
    fn from(count_source: CountSource) -> (r: Self)
        ensures
            r == count_source_out(count_source),
    {
        match count_source {
            CountSource::Push => FfiGlassesCountSource::Push,
            CountSource::ReadReply => FfiGlassesCountSource::ReadReply,
        }
    }
}

impl vstd::std_specs::convert::FromSpecImpl<CountSource> for FfiGlassesCountSource {
    open spec fn obeys_from_spec() -> bool {
        true
    }

    open spec fn from_spec(count_source: CountSource) -> Self {
        count_source_out(count_source)
    }
}

/// Opus operating mode.
#[derive(Debug, Clone, Copy, PartialEq, Eq, Structural)]
pub enum FfiGlassesOpusMode {
    Silk,
    Hybrid,
    Celt,
}

/// What crosses the boundary for a [`OpusMode`].
pub open spec fn mode_out(mode: OpusMode) -> FfiGlassesOpusMode {
    match mode {
        OpusMode::Silk => FfiGlassesOpusMode::Silk,
        OpusMode::Hybrid => FfiGlassesOpusMode::Hybrid,
        OpusMode::Celt => FfiGlassesOpusMode::Celt,
    }
}

impl From<OpusMode> for FfiGlassesOpusMode {
    fn from(mode: OpusMode) -> (r: Self)
        ensures
            r == mode_out(mode),
    {
        match mode {
            OpusMode::Silk => FfiGlassesOpusMode::Silk,
            OpusMode::Hybrid => FfiGlassesOpusMode::Hybrid,
            OpusMode::Celt => FfiGlassesOpusMode::Celt,
        }
    }
}

impl vstd::std_specs::convert::FromSpecImpl<OpusMode> for FfiGlassesOpusMode {
    open spec fn obeys_from_spec() -> bool {
        true
    }

    open spec fn from_spec(mode: OpusMode) -> Self {
        mode_out(mode)
    }
}

/// Opus audio bandwidth.
#[derive(Debug, Clone, Copy, PartialEq, Eq, Structural)]
pub enum FfiGlassesOpusBandwidth {
    Narrow,
    Medium,
    Wide,
    SuperWide,
    Full,
}

/// What crosses the boundary for a [`OpusBandwidth`].
pub open spec fn bandwidth_out(bandwidth: OpusBandwidth) -> FfiGlassesOpusBandwidth {
    match bandwidth {
        OpusBandwidth::Narrow => FfiGlassesOpusBandwidth::Narrow,
        OpusBandwidth::Medium => FfiGlassesOpusBandwidth::Medium,
        OpusBandwidth::Wide => FfiGlassesOpusBandwidth::Wide,
        OpusBandwidth::SuperWide => FfiGlassesOpusBandwidth::SuperWide,
        OpusBandwidth::Full => FfiGlassesOpusBandwidth::Full,
    }
}

impl From<OpusBandwidth> for FfiGlassesOpusBandwidth {
    fn from(bandwidth: OpusBandwidth) -> (r: Self)
        ensures
            r == bandwidth_out(bandwidth),
    {
        match bandwidth {
            OpusBandwidth::Narrow => FfiGlassesOpusBandwidth::Narrow,
            OpusBandwidth::Medium => FfiGlassesOpusBandwidth::Medium,
            OpusBandwidth::Wide => FfiGlassesOpusBandwidth::Wide,
            OpusBandwidth::SuperWide => FfiGlassesOpusBandwidth::SuperWide,
            OpusBandwidth::Full => FfiGlassesOpusBandwidth::Full,
        }
    }
}

impl vstd::std_specs::convert::FromSpecImpl<OpusBandwidth> for FfiGlassesOpusBandwidth {
    open spec fn obeys_from_spec() -> bool {
        true
    }

    open spec fn from_spec(bandwidth: OpusBandwidth) -> Self {
        bandwidth_out(bandwidth)
    }
}

/// Why a capture ended.
#[derive(Debug, Clone, Copy, PartialEq, Eq, Structural)]
pub enum FfiGlassesEndCause {
    DeviceSignalled,
    Interrupted,
    IdleTimeout,
    Disconnected,
}

/// What crosses the boundary for a [`EndCause`].
pub open spec fn cause_out(cause: EndCause) -> FfiGlassesEndCause {
    match cause {
        EndCause::DeviceSignalled => FfiGlassesEndCause::DeviceSignalled,
        EndCause::Interrupted => FfiGlassesEndCause::Interrupted,
        EndCause::IdleTimeout => FfiGlassesEndCause::IdleTimeout,
        EndCause::Disconnected => FfiGlassesEndCause::Disconnected,
    }
}

impl From<EndCause> for FfiGlassesEndCause {
    fn from(cause: EndCause) -> (r: Self)
        ensures
            r == cause_out(cause),
    {
        match cause {
            EndCause::DeviceSignalled => FfiGlassesEndCause::DeviceSignalled,
            EndCause::Interrupted => FfiGlassesEndCause::Interrupted,
            EndCause::IdleTimeout => FfiGlassesEndCause::IdleTimeout,
            EndCause::Disconnected => FfiGlassesEndCause::Disconnected,
        }
    }
}

impl vstd::std_specs::convert::FromSpecImpl<EndCause> for FfiGlassesEndCause {
    open spec fn obeys_from_spec() -> bool {
        true
    }

    open spec fn from_spec(cause: EndCause) -> Self {
        cause_out(cause)
    }
}

/// The [`EndCause`] that came across the boundary.
pub open spec fn cause_in(cause: FfiGlassesEndCause) -> EndCause {
    match cause {
        FfiGlassesEndCause::DeviceSignalled => EndCause::DeviceSignalled,
        FfiGlassesEndCause::Interrupted => EndCause::Interrupted,
        FfiGlassesEndCause::IdleTimeout => EndCause::IdleTimeout,
        FfiGlassesEndCause::Disconnected => EndCause::Disconnected,
    }
}

impl From<FfiGlassesEndCause> for EndCause {
    fn from(cause: FfiGlassesEndCause) -> (r: Self)
        ensures
            r == cause_in(cause),
    {
        match cause {
            FfiGlassesEndCause::DeviceSignalled => EndCause::DeviceSignalled,
            FfiGlassesEndCause::Interrupted => EndCause::Interrupted,
            FfiGlassesEndCause::IdleTimeout => EndCause::IdleTimeout,
            FfiGlassesEndCause::Disconnected => EndCause::Disconnected,
        }
    }
}

impl vstd::std_specs::convert::FromSpecImpl<FfiGlassesEndCause> for EndCause {
    open spec fn obeys_from_spec() -> bool {
        true
    }

    open spec fn from_spec(cause: FfiGlassesEndCause) -> Self {
        cause_in(cause)
    }
}

/// The `0x97` header's type byte.
#[derive(Debug, Clone, Copy, PartialEq, Eq, Structural)]
pub enum FfiGlassesFileKind {
    ImageThumb,
    HdImage,
    VideoThumb,
}

/// What crosses the boundary for a [`FileKind`].
pub open spec fn kind_out(kind: FileKind) -> FfiGlassesFileKind {
    match kind {
        FileKind::ImageThumb => FfiGlassesFileKind::ImageThumb,
        FileKind::HdImage => FfiGlassesFileKind::HdImage,
        FileKind::VideoThumb => FfiGlassesFileKind::VideoThumb,
    }
}

impl From<FileKind> for FfiGlassesFileKind {
    fn from(kind: FileKind) -> (r: Self)
        ensures
            r == kind_out(kind),
    {
        match kind {
            FileKind::ImageThumb => FfiGlassesFileKind::ImageThumb,
            FileKind::HdImage => FfiGlassesFileKind::HdImage,
            FileKind::VideoThumb => FfiGlassesFileKind::VideoThumb,
        }
    }
}

impl vstd::std_specs::convert::FromSpecImpl<FileKind> for FfiGlassesFileKind {
    open spec fn obeys_from_spec() -> bool {
        true
    }

    open spec fn from_spec(kind: FileKind) -> Self {
        kind_out(kind)
    }
}

/// Firmware versions from `0x55`.
#[derive(Debug, Clone, Copy, PartialEq, Eq, Structural)]
pub struct FfiGlassesVersions {
    pub bt_major: u8,
    pub bt_minor: u8,
    pub bt_patch: u8,
    pub isp_major: u8,
    pub isp_minor: u8,
    pub isp_patch: u8,
    pub hardware: u8,
}

/// The versions, field by field.
pub open spec fn versions_out(bt: Seq<u8>, isp: Seq<u8>, hardware: u8) -> FfiGlassesVersions {
    FfiGlassesVersions {
        bt_major: bt[0],
        bt_minor: bt[1],
        bt_patch: bt[2],
        isp_major: isp[0],
        isp_minor: isp[1],
        isp_patch: isp[2],
        hardware,
    }
}

fn versions_of(v: Versions) -> (r: FfiGlassesVersions)
    ensures
        r == versions_out(v.bt@, v.isp@, v.hardware),
{
    FfiGlassesVersions {
        bt_major: v.bt[0],
        bt_minor: v.bt[1],
        bt_patch: v.bt[2],
        isp_major: v.isp[0],
        isp_minor: v.isp[1],
        isp_patch: v.isp[2],
        hardware: v.hardware,
    }
}

/// One field of the `0x48` burst, or the echo of the setter that changed it.
#[derive(Debug, Clone, Copy, PartialEq, Eq, Structural)]
pub enum FfiGlassesSwitchReport {
    /// `0x01`: LED brightness, `0..=2`.
    Led { level: u8 },
    /// `0x02`: record duration, seconds.
    RecordSeconds { seconds: u16 },
    /// `0x04`.
    WearDetection { on: bool },
    /// `0x06`: the wake word.
    VoiceCommand { on: bool },
    /// `0x61`.
    Orientation { orientation: FfiGlassesOrientation },
}

/// What crosses the boundary for a [`SwitchReport`].
pub open spec fn report_out(report: SwitchReport) -> FfiGlassesSwitchReport {
    match report {
        SwitchReport::Led(level) => FfiGlassesSwitchReport::Led { level },
        SwitchReport::RecordSeconds(seconds) => FfiGlassesSwitchReport::RecordSeconds { seconds },
        SwitchReport::WearDetection(on) => FfiGlassesSwitchReport::WearDetection { on },
        SwitchReport::VoiceCommand(on) => FfiGlassesSwitchReport::VoiceCommand { on },
        SwitchReport::Orientation(o) => FfiGlassesSwitchReport::Orientation {
            orientation: vocabulary::orientation_out(o),
        },
    }
}

impl From<SwitchReport> for FfiGlassesSwitchReport {
    fn from(report: SwitchReport) -> (r: Self)
        ensures
            r == report_out(report),
    {
        match report {
            SwitchReport::Led(level) => FfiGlassesSwitchReport::Led { level },
            SwitchReport::RecordSeconds(seconds) => FfiGlassesSwitchReport::RecordSeconds {
                seconds,
            },
            SwitchReport::WearDetection(on) => FfiGlassesSwitchReport::WearDetection { on },
            SwitchReport::VoiceCommand(on) => FfiGlassesSwitchReport::VoiceCommand { on },
            SwitchReport::Orientation(o) => FfiGlassesSwitchReport::Orientation {
                orientation: FfiGlassesOrientation::from(o),
            },
        }
    }
}

impl vstd::std_specs::convert::FromSpecImpl<SwitchReport> for FfiGlassesSwitchReport {
    open spec fn obeys_from_spec() -> bool {
        true
    }

    open spec fn from_spec(report: SwitchReport) -> Self {
        report_out(report)
    }
}

/// Why a frame could not be decoded into its typed field.
#[derive(Debug, Clone, Copy, PartialEq, Eq, Structural)]
pub enum FfiGlassesMalformedReason {
    /// Payload shorter than the layout needs; `need` is the minimum.
    TooShort { need: u32 },
    /// The layout holds but a value is out of its legal range.
    OutOfRange,
    /// A text field is not ASCII, or is empty once padding is gone.
    NotText,
}

/// What crosses the boundary for a [`MalformedReason`].
pub open spec fn reason_out(reason: MalformedReason) -> FfiGlassesMalformedReason {
    match reason {
        MalformedReason::TooShort { need } => FfiGlassesMalformedReason::TooShort {
            need: need as u32,
        },
        MalformedReason::OutOfRange => FfiGlassesMalformedReason::OutOfRange,
        MalformedReason::NotText => FfiGlassesMalformedReason::NotText,
    }
}

impl From<MalformedReason> for FfiGlassesMalformedReason {
    fn from(reason: MalformedReason) -> (r: Self)
        ensures
            r == reason_out(reason),
    {
        match reason {
            MalformedReason::TooShort { need } => FfiGlassesMalformedReason::TooShort {
                need: need as u32,
            },
            MalformedReason::OutOfRange => FfiGlassesMalformedReason::OutOfRange,
            MalformedReason::NotText => FfiGlassesMalformedReason::NotText,
        }
    }
}

impl vstd::std_specs::convert::FromSpecImpl<MalformedReason> for FfiGlassesMalformedReason {
    open spec fn obeys_from_spec() -> bool {
        true
    }

    open spec fn from_spec(reason: MalformedReason) -> Self {
        reason_out(reason)
    }
}

// ---- voice ----------------------------------------------------------------------------

/// One Opus packet's self-describing header: packet framing, not the codec.
#[derive(Debug, Clone, Copy, PartialEq, Eq, Structural)]
pub struct FfiGlassesOpusToc {
    pub config: u8,
    pub stereo: bool,
    pub code: u8,
    pub frames: u8,
    pub vbr: bool,
    pub padding: bool,
    pub mode: FfiGlassesOpusMode,
    pub bandwidth: FfiGlassesOpusBandwidth,
    /// The rate to request from the native decoder so that it does not resample.
    pub nominal_rate_hz: u32,
    pub frame_duration_us: u32,
    /// `None` for a frame count of zero, which is malformed.
    pub total_duration_us: Option<u32>,
    pub channels: u8,
}

/// What crosses the boundary for an [`OpusToc`].
pub open spec fn toc_out(toc: OpusToc) -> FfiGlassesOpusToc {
    FfiGlassesOpusToc {
        config: toc.config,
        stereo: toc.stereo,
        code: toc.code,
        frames: toc.frames,
        vbr: toc.vbr,
        padding: toc.padding,
        mode: mode_out(toc.mode()),
        bandwidth: bandwidth_out(toc.bandwidth()),
        nominal_rate_hz: toc.bandwidth().nominal_rate_hz(),
        frame_duration_us: toc.frame_duration_us(),
        total_duration_us: toc.total_duration_us(),
        channels: toc.channels(),
    }
}

/// What crosses the boundary for a header that may be missing.
pub open spec fn maybe_toc_out(toc: Option<OpusToc>) -> Option<FfiGlassesOpusToc> {
    match toc {
        Some(t) => Some(toc_out(t)),
        None => None,
    }
}

impl From<OpusToc> for FfiGlassesOpusToc {
    fn from(toc: OpusToc) -> (r: Self)
        ensures
            r == toc_out(toc),
    {
        FfiGlassesOpusToc {
            config: toc.config,
            stereo: toc.stereo,
            code: toc.code,
            frames: toc.frames,
            vbr: toc.vbr,
            padding: toc.padding,
            mode: FfiGlassesOpusMode::from(toc.mode()),
            bandwidth: FfiGlassesOpusBandwidth::from(toc.bandwidth()),
            nominal_rate_hz: toc.bandwidth().nominal_rate_hz(),
            frame_duration_us: toc.frame_duration_us(),
            total_duration_us: toc.total_duration_us(),
            channels: toc.channels(),
        }
    }
}

impl vstd::std_specs::convert::FromSpecImpl<OpusToc> for FfiGlassesOpusToc {
    open spec fn obeys_from_spec() -> bool {
        true
    }

    open spec fn from_spec(toc: OpusToc) -> Self {
        toc_out(toc)
    }
}

fn maybe_toc(toc: Option<OpusToc>) -> (r: Option<FfiGlassesOpusToc>)
    ensures
        r == maybe_toc_out(toc),
{
    match toc {
        Some(t) => Some(FfiGlassesOpusToc::from(t)),
        None => None,
    }
}

/// Parse one Opus packet's header, without a capture in flight.
pub fn glasses_parse_opus_toc(packet: Vec<u8>) -> (r: Option<FfiGlassesOpusToc>)
    ensures
        r == maybe_toc_out(voice::toc_of(packet@)),
{
    maybe_toc(OpusToc::parse(packet.as_slice()))
}

/// The sample rate to request from the native Opus decoder for the captured stream.
pub fn glasses_voice_sample_rate_hz() -> (n: u32)
    ensures
        n == voice::REQUESTED_SAMPLE_RATE_HZ,
{
    voice::REQUESTED_SAMPLE_RATE_HZ
}

/// Bits per sample of the PCM the native decoder returns.
pub fn glasses_voice_bits_per_sample() -> (n: u32)
    ensures
        n == voice::BITS_PER_SAMPLE,
{
    voice::BITS_PER_SAMPLE
}

/// Channel count of the captured stream.
pub fn glasses_voice_channels() -> (n: u32)
    ensures
        n == voice::CHANNELS,
{
    voice::CHANNELS
}

/// One `0x46` payload: a complete Opus packet, ready for the native decoder.
#[derive(Debug, Clone, PartialEq, Eq)]
pub struct FfiGlassesVoicePacket {
    /// The packet bytes, verbatim.
    pub payload: Vec<u8>,
    /// Its parsed header, or `None` if malformed. Malformed packets are still delivered.
    pub toc: Option<FfiGlassesOpusToc>,
    /// Ordinal within the current capture, from 0.
    pub index: u64,
}

/// What one inbound frame did to the voice capture.
#[derive(Debug, Clone, PartialEq, Eq)]
pub enum FfiGlassesVoiceEvent {
    /// `0x97`: the microphone opened.
    Started,
    /// A `0x46` arrived with no preceding `0x97`: the capture opened implicitly.
    StartedRecovered,
    /// One Opus packet. Emitted in the same call as a recovered start, so list order matters.
    Packet { packet: FfiGlassesVoicePacket },
    /// The capture closed.
    Ended { cause: FfiGlassesEndCause },
    /// Not a voice frame, or a close with nothing open.
    Ignored,
}

/// A [`FfiGlassesVoiceEvent`] as values.
#[verifier::ext_equal]
pub enum FfiVoiceView {
    Started,
    StartedRecovered,
    Packet { payload: Seq<u8>, toc: Option<FfiGlassesOpusToc>, index: u64 },
    Ended { cause: FfiGlassesEndCause },
    Ignored,
}

impl View for FfiGlassesVoiceEvent {
    type V = FfiVoiceView;

    open spec fn view(&self) -> FfiVoiceView {
        match *self {
            FfiGlassesVoiceEvent::Started => FfiVoiceView::Started,
            FfiGlassesVoiceEvent::StartedRecovered => FfiVoiceView::StartedRecovered,
            FfiGlassesVoiceEvent::Packet { packet } => FfiVoiceView::Packet {
                payload: packet.payload@,
                toc: packet.toc,
                index: packet.index,
            },
            FfiGlassesVoiceEvent::Ended { cause } => FfiVoiceView::Ended { cause },
            FfiGlassesVoiceEvent::Ignored => FfiVoiceView::Ignored,
        }
    }
}

pub open spec fn ffi_voice_views(events: Seq<FfiGlassesVoiceEvent>) -> Seq<FfiVoiceView> {
    events.map_values(|e: FfiGlassesVoiceEvent| e@)
}

/// What crosses the boundary for a [`VoiceEvent`].
pub open spec fn voice_out(event: VoiceEventView) -> FfiVoiceView {
    match event {
        VoiceEventView::Started => FfiVoiceView::Started,
        VoiceEventView::StartedRecovered => FfiVoiceView::StartedRecovered,
        VoiceEventView::Packet { payload, toc, index } => FfiVoiceView::Packet {
            payload,
            toc: maybe_toc_out(toc),
            index,
        },
        VoiceEventView::Ended(cause) => FfiVoiceView::Ended { cause: cause_out(cause) },
        VoiceEventView::Ignored => FfiVoiceView::Ignored,
    }
}

/// What crosses the boundary for a list of voice events.
pub open spec fn voice_outs(events: Seq<VoiceEventView>) -> Seq<FfiVoiceView> {
    events.map_values(|e: VoiceEventView| voice_out(e))
}

impl From<VoiceEvent> for FfiGlassesVoiceEvent {
    fn from(event: VoiceEvent) -> (r: Self)
        ensures
            r@ == voice_out(event@),
    {
        match event {
            VoiceEvent::Started => FfiGlassesVoiceEvent::Started,
            VoiceEvent::StartedRecovered => FfiGlassesVoiceEvent::StartedRecovered,
            VoiceEvent::Packet(p) => FfiGlassesVoiceEvent::Packet {
                packet: FfiGlassesVoicePacket {
                    payload: p.payload,
                    toc: maybe_toc(p.toc),
                    index: p.index,
                },
            },
            VoiceEvent::Ended(c) => FfiGlassesVoiceEvent::Ended {
                cause: FfiGlassesEndCause::from(c),
            },
            VoiceEvent::Ignored => FfiGlassesVoiceEvent::Ignored,
        }
    }
}

impl vstd::std_specs::convert::FromSpecImpl<VoiceEvent> for FfiGlassesVoiceEvent {
    /// What `from` gives is stated of its contents, in its own contract.
    open spec fn obeys_from_spec() -> bool {
        false
    }

    open spec fn from_spec(event: VoiceEvent) -> Self {
        arbitrary()
    }
}

pub(crate) fn voice_events_out(events: Vec<VoiceEvent>) -> (out: Vec<FfiGlassesVoiceEvent>)
    ensures
        ffi_voice_views(out@) == voice_outs(voice::voice_event_views(events@)),
{
    let ghost given = events@;
    let ghost all = voice_outs(voice::voice_event_views(given));
    let mut out: Vec<FfiGlassesVoiceEvent> = Vec::new();
    assert(ffi_voice_views(out@) =~= all.take(0));
    for e in it: events.into_iter()
        invariant
            it.seq() == given,
            all == voice_outs(voice::voice_event_views(given)),
            ffi_voice_views(out@) == all.take(it.index() as int),
    {
        let ghost n = it.index() as int;
        let ghost before = ffi_voice_views(out@);
        out.push(FfiGlassesVoiceEvent::from(e));
        assert(all[n] == voice_out(given[n]@));
        assert(ffi_voice_views(out@) =~= before.push(all[n]));
        assert(all.take(n + 1) =~= all.take(n).push(all[n]));
    }
    assert(all.take(given.len() as int) =~= all);
    out
}

// ---- events ---------------------------------------------------------------------------

/// One decoded inbound frame. Total: every possible `cmd` byte produces a variant.
#[derive(Debug, Clone, PartialEq, Eq)]
pub enum FfiGlassesEvent {
    /// `0x17` or `0x53`.
    Battery { percent: u8, charging: bool, source: FfiGlassesBatterySource },
    /// `0x55`.
    Versions { versions: FfiGlassesVersions },
    /// `0x64`: project and customer codes.
    Identity { project: String, customer: String },
    /// `0x42` (confirmed) or `0x40` (inferred).
    MediaCount { count: u16, source: FfiGlassesCountSource },
    /// One field of the `0x48` burst, or a setter echo.
    Switch { report: FfiGlassesSwitchReport },
    /// `0x07`-`0x11`: a touchpad gesture binding. `raw` is always the byte the device sent.
    GestureBinding {
        slot: FfiGlassesGestureSlot,
        action: Option<FfiGlassesGestureAction>,
        raw: u8,
    },
    /// `0x95`: the capability word, deliberately not bit-decoded.
    Capabilities { raw: u32, known_configuration: bool },
    /// `0x71`: which voice features are disabled.
    VoiceFeatures { raw: u8, all_enabled: bool },
    /// `0x69`: the three output levels, verbatim on an unpinned scale.
    Volumes { system: u8, media: u8, call: u8 },
    /// `0x25`: the SoftAP is up. The passphrase is not on the wire; it is the fixed value.
    WifiCredentials { ssid: String, passphrase: String },
    /// `0x39` / `0x67` ack.
    WifiOpening { serves: FfiGlassesWifiService, raw: u8 },
    /// `0x45`: the ten action flags. `active` lists the set ones in index order; bit *i* of `raw`
    /// is payload index *i*.
    ActionSync { active: Vec<FfiGlassesDeviceAction>, raw: u16 },
    /// Something happened to the wake-word capture.
    Voice { event: FfiGlassesVoiceEvent },
    /// A voice frame reached the stateless decode path.
    VoiceFrame { cmd: u8, data: Vec<u8> },
    /// `0x49`.
    VoiceAbandoned,
    /// `0x51`.
    AiBroadcastCancelled,
    /// `0x52`.
    HdImageFailed,
    /// `0x96`.
    IspUpgradeFinished { ok: bool },
    /// A recognised opcode carrying no state worth a type.
    Ack { command: FfiGlassesCommand, data: Vec<u8> },
    /// The layout did not hold. Carries the raw frame.
    Malformed { cmd: u8, data: Vec<u8>, reason: FfiGlassesMalformedReason },
    /// A `cmd` byte in neither opcode table. A real answer, not a failure.
    Unrecognised { cmd: u8, data: Vec<u8> },
}

/// A [`FfiGlassesEvent`] as values.
#[verifier::ext_equal]
pub enum FfiEventView {
    Battery { percent: u8, charging: bool, source: FfiGlassesBatterySource },
    Versions { versions: FfiGlassesVersions },
    Identity { project: Seq<char>, customer: Seq<char> },
    MediaCount { count: u16, source: FfiGlassesCountSource },
    Switch { report: FfiGlassesSwitchReport },
    GestureBinding {
        slot: FfiGlassesGestureSlot,
        action: Option<FfiGlassesGestureAction>,
        raw: u8,
    },
    Capabilities { raw: u32, known_configuration: bool },
    VoiceFeatures { raw: u8, all_enabled: bool },
    Volumes { system: u8, media: u8, call: u8 },
    WifiCredentials { ssid: Seq<char>, passphrase: Seq<char> },
    WifiOpening { serves: FfiGlassesWifiService, raw: u8 },
    ActionSync { active: Seq<FfiGlassesDeviceAction>, bits: Seq<bool> },
    Voice { event: FfiVoiceView },
    VoiceFrame { cmd: u8, data: Seq<u8> },
    VoiceAbandoned,
    AiBroadcastCancelled,
    HdImageFailed,
    IspUpgradeFinished { ok: bool },
    Ack { command: FfiGlassesCommand, data: Seq<u8> },
    Malformed { cmd: u8, data: Seq<u8>, reason: FfiGlassesMalformedReason },
    Unrecognised { cmd: u8, data: Seq<u8> },
}

impl View for FfiGlassesEvent {
    type V = FfiEventView;

    open spec fn view(&self) -> FfiEventView {
        match *self {
            FfiGlassesEvent::Battery { percent, charging, source } => FfiEventView::Battery {
                percent,
                charging,
                source,
            },
            FfiGlassesEvent::Versions { versions } => FfiEventView::Versions { versions },
            FfiGlassesEvent::Identity { project, customer } => FfiEventView::Identity {
                project: project@,
                customer: customer@,
            },
            FfiGlassesEvent::MediaCount { count, source } => FfiEventView::MediaCount {
                count,
                source,
            },
            FfiGlassesEvent::Switch { report } => FfiEventView::Switch { report },
            FfiGlassesEvent::GestureBinding { slot, action, raw } => FfiEventView::GestureBinding {
                slot,
                action,
                raw,
            },
            FfiGlassesEvent::Capabilities { raw, known_configuration } => {
                FfiEventView::Capabilities { raw, known_configuration }
            },
            FfiGlassesEvent::VoiceFeatures { raw, all_enabled } => FfiEventView::VoiceFeatures {
                raw,
                all_enabled,
            },
            FfiGlassesEvent::Volumes { system, media, call } => FfiEventView::Volumes {
                system,
                media,
                call,
            },
            FfiGlassesEvent::WifiCredentials { ssid, passphrase } => {
                FfiEventView::WifiCredentials { ssid: ssid@, passphrase: passphrase@ }
            },
            FfiGlassesEvent::WifiOpening { serves, raw } => FfiEventView::WifiOpening {
                serves,
                raw,
            },
            FfiGlassesEvent::ActionSync { active, raw } => FfiEventView::ActionSync {
                active: active@,
                bits: Seq::new(16, |i: int| parser::bit(raw, i)),
            },
            FfiGlassesEvent::Voice { event } => FfiEventView::Voice { event: event@ },
            FfiGlassesEvent::VoiceFrame { cmd, data } => FfiEventView::VoiceFrame {
                cmd,
                data: data@,
            },
            FfiGlassesEvent::VoiceAbandoned => FfiEventView::VoiceAbandoned,
            FfiGlassesEvent::AiBroadcastCancelled => FfiEventView::AiBroadcastCancelled,
            FfiGlassesEvent::HdImageFailed => FfiEventView::HdImageFailed,
            FfiGlassesEvent::IspUpgradeFinished { ok } => FfiEventView::IspUpgradeFinished { ok },
            FfiGlassesEvent::Ack { command, data } => FfiEventView::Ack { command, data: data@ },
            FfiGlassesEvent::Malformed { cmd, data, reason } => FfiEventView::Malformed {
                cmd,
                data: data@,
                reason,
            },
            FfiGlassesEvent::Unrecognised { cmd, data } => FfiEventView::Unrecognised {
                cmd,
                data: data@,
            },
        }
    }
}

pub open spec fn ffi_event_views(events: Seq<FfiGlassesEvent>) -> Seq<FfiEventView> {
    events.map_values(|e: FfiGlassesEvent| e@)
}

/// What crosses the boundary for a binding that may be unknown.
pub open spec fn maybe_gesture_out(action: Option<GestureAction>) -> Option<
    FfiGlassesGestureAction,
> {
    match action {
        Some(a) => Some(vocabulary::gesture_out(a)),
        None => None,
    }
}

/// What crosses the boundary for a [`DeviceEvent`].
pub open spec fn event_out(event: DeviceEventView) -> FfiEventView {
    match event {
        DeviceEventView::Battery(b) => FfiEventView::Battery {
            percent: b.percent,
            charging: b.charging,
            source: battery_source_out(b.source),
        },
        DeviceEventView::Versions { bt, isp, hardware } => FfiEventView::Versions {
            versions: versions_out(bt, isp, hardware),
        },
        DeviceEventView::Identity { project, customer } => FfiEventView::Identity {
            project,
            customer,
        },
        DeviceEventView::MediaCount(m) => FfiEventView::MediaCount {
            count: m.count,
            source: count_source_out(m.source),
        },
        DeviceEventView::Switch(r) => FfiEventView::Switch { report: report_out(r) },
        DeviceEventView::GestureBinding { slot, action, raw } => FfiEventView::GestureBinding {
            slot: vocabulary::slot_out(slot),
            action: maybe_gesture_out(action),
            raw,
        },
        DeviceEventView::Capabilities(c) => FfiEventView::Capabilities {
            raw: c.raw,
            known_configuration: c.raw == parser::Capabilities::KNOWN_E09,
        },
        DeviceEventView::VoiceFeatures(f) => FfiEventView::VoiceFeatures {
            raw: f.raw,
            all_enabled: f.raw == 0,
        },
        DeviceEventView::Volumes(v) => FfiEventView::Volumes {
            system: v.system,
            media: v.media,
            call: v.call,
        },
        DeviceEventView::WifiCredentials { ssid } => FfiEventView::WifiCredentials {
            ssid,
            passphrase: WifiCredentials::PASSPHRASE@,
        },
        DeviceEventView::WifiOpening { serves, raw } => FfiEventView::WifiOpening {
            serves: vocabulary::service_out(serves),
            raw,
        },
        DeviceEventView::ActionSync(flags) => FfiEventView::ActionSync {
            active: parser::active_of(flags, 10).map_values(
                |a: DeviceAction| vocabulary::action_out(a),
            ),
            bits: Seq::new(16, |i: int| i < 10 && flags[i]),
        },
        DeviceEventView::Voice(v) => FfiEventView::Voice { event: voice_out(v) },
        DeviceEventView::VoiceFrame { cmd, data } => FfiEventView::VoiceFrame { cmd, data },
        DeviceEventView::VoiceAbandoned => FfiEventView::VoiceAbandoned,
        DeviceEventView::AiBroadcastCancelled => FfiEventView::AiBroadcastCancelled,
        DeviceEventView::HdImageFailed => FfiEventView::HdImageFailed,
        DeviceEventView::IspUpgradeFinished { ok } => FfiEventView::IspUpgradeFinished { ok },
        DeviceEventView::Ack { command, data } => FfiEventView::Ack {
            command: vocabulary::command_out(command),
            data,
        },
        DeviceEventView::Malformed { cmd, data, reason } => FfiEventView::Malformed {
            cmd,
            data,
            reason: reason_out(reason),
        },
        DeviceEventView::Unrecognised { cmd, data } => FfiEventView::Unrecognised { cmd, data },
    }
}

/// What crosses the boundary for a list of events.
pub open spec fn event_outs(events: Seq<DeviceEventView>) -> Seq<FfiEventView> {
    events.map_values(|e: DeviceEventView| event_out(e))
}

fn maybe_gesture(action: Option<GestureAction>) -> (r: Option<FfiGlassesGestureAction>)
    ensures
        r == maybe_gesture_out(action),
{
    match action {
        Some(a) => Some(FfiGlassesGestureAction::from(a)),
        None => None,
    }
}

fn actions_out(actions: Vec<DeviceAction>) -> (out: Vec<FfiGlassesDeviceAction>)
    ensures
        out@ == actions@.map_values(|a: DeviceAction| vocabulary::action_out(a)),
{
    let mut out: Vec<FfiGlassesDeviceAction> = Vec::new();
    for i in 0..actions.len()
        invariant
            out@ == actions@.map_values(|a: DeviceAction| vocabulary::action_out(a)).take(i as int),
    {
        out.push(FfiGlassesDeviceAction::from(actions[i]));
        assert(out@ =~= actions@.map_values(|a: DeviceAction| vocabulary::action_out(a)).take(
            i + 1,
        ));
    }
    assert(out@ =~= actions@.map_values(|a: DeviceAction| vocabulary::action_out(a)));
    out
}

impl From<DeviceEvent> for FfiGlassesEvent {
    fn from(event: DeviceEvent) -> (r: Self)
        ensures
            r@ == event_out(event@),
    {
        match event {
            DeviceEvent::Battery(b) => FfiGlassesEvent::Battery {
                percent: b.percent,
                charging: b.charging,
                source: FfiGlassesBatterySource::from(b.source),
            },
            DeviceEvent::Versions(v) => FfiGlassesEvent::Versions { versions: versions_of(v) },
            DeviceEvent::Identity(i) => FfiGlassesEvent::Identity {
                project: i.project,
                customer: i.customer,
            },
            DeviceEvent::MediaCount(m) => FfiGlassesEvent::MediaCount {
                count: m.count,
                source: FfiGlassesCountSource::from(m.source),
            },
            DeviceEvent::Switch(r) => FfiGlassesEvent::Switch {
                report: FfiGlassesSwitchReport::from(r),
            },
            DeviceEvent::GestureBinding { slot, action, raw } => FfiGlassesEvent::GestureBinding {
                slot: FfiGlassesGestureSlot::from(slot),
                action: maybe_gesture(action),
                raw,
            },
            DeviceEvent::Capabilities(c) => FfiGlassesEvent::Capabilities {
                raw: c.raw,
                known_configuration: c.is_known_configuration(),
            },
            DeviceEvent::VoiceFeatures(f) => FfiGlassesEvent::VoiceFeatures {
                raw: f.raw,
                all_enabled: f.all_enabled(),
            },
            DeviceEvent::Volumes(v) => FfiGlassesEvent::Volumes {
                system: v.system,
                media: v.media,
                call: v.call,
            },
            DeviceEvent::WifiCredentials(c) => FfiGlassesEvent::WifiCredentials {
                passphrase: String::from_str(c.passphrase()),
                ssid: c.ssid,
            },
            DeviceEvent::WifiOpening { serves, raw } => FfiGlassesEvent::WifiOpening {
                serves: FfiGlassesWifiService::from(serves),
                raw,
            },
            DeviceEvent::ActionSync(a) => {
                let raw: u16 = a.raw();
                let active = actions_out(a.active());
                proof {
                    let flags = a@;
                    assert(Seq::new(16, |i: int| parser::bit(raw, i)) =~= Seq::new(
                        16,
                        |i: int| i < 10 && flags[i],
                    ));
                }
                FfiGlassesEvent::ActionSync { active, raw }
            },
            DeviceEvent::Voice(v) => FfiGlassesEvent::Voice {
                event: FfiGlassesVoiceEvent::from(v),
            },
            DeviceEvent::VoiceFrame { cmd, data } => FfiGlassesEvent::VoiceFrame { cmd, data },
            DeviceEvent::VoiceAbandoned => FfiGlassesEvent::VoiceAbandoned,
            DeviceEvent::AiBroadcastCancelled => FfiGlassesEvent::AiBroadcastCancelled,
            DeviceEvent::HdImageFailed => FfiGlassesEvent::HdImageFailed,
            DeviceEvent::IspUpgradeFinished { ok } => FfiGlassesEvent::IspUpgradeFinished { ok },
            DeviceEvent::Ack { command, data } => FfiGlassesEvent::Ack {
                command: FfiGlassesCommand::from(command),
                data,
            },
            DeviceEvent::Malformed { cmd, data, reason } => FfiGlassesEvent::Malformed {
                cmd,
                data,
                reason: FfiGlassesMalformedReason::from(reason),
            },
            DeviceEvent::Unrecognised { cmd, data } => FfiGlassesEvent::Unrecognised { cmd, data },
        }
    }
}

impl vstd::std_specs::convert::FromSpecImpl<DeviceEvent> for FfiGlassesEvent {
    /// What `from` gives is stated of its contents, in its own contract.
    open spec fn obeys_from_spec() -> bool {
        false
    }

    open spec fn from_spec(event: DeviceEvent) -> Self {
        arbitrary()
    }
}

/// Decode one already-deframed frame, statelessly. Voice frames come back undecoded, because the
/// lost-start recovery needs memory.
pub fn glasses_parse_frame(cmd: u8, data: Vec<u8>) -> (event: FfiGlassesEvent)
    ensures
        event@ == event_out(parser::event_of(FrameView { cmd, data: data@ })),
{
    FfiGlassesEvent::from(parser::parse(&Frame::new(cmd, data)))
}

// ---- residual -------------------------------------------------------------------------

/// What a deframer could not turn into frames.
#[derive(Debug, Clone, PartialEq, Eq)]
pub enum FfiGlassesResidual {
    /// Every byte was consumed.
    Empty,
    /// A prefix that could still become a frame; it stays buffered for the next chunk.
    PartialFrame { buffered: u32 },
    /// Bytes that cannot begin a frame. Handed back, never dropped: on the file characteristic these
    /// are the `52 58` stream.
    Foreign { bytes: Vec<u8> },
    /// A partial frame grew past the maximum length without completing and was discarded.
    Overflowed { dropped: u32 },
}

/// What crosses the boundary for a [`Residual`].
pub open spec fn residual_out(residual: Residual) -> FfiGlassesResidual {
    match residual {
        Residual::Empty => FfiGlassesResidual::Empty,
        Residual::PartialFrame(n) => FfiGlassesResidual::PartialFrame { buffered: n as u32 },
        Residual::Foreign(bytes) => FfiGlassesResidual::Foreign { bytes },
        Residual::Overflowed(n) => FfiGlassesResidual::Overflowed { dropped: n as u32 },
    }
}

impl From<Residual> for FfiGlassesResidual {
    fn from(residual: Residual) -> (r: Self)
        ensures
            r == residual_out(residual),
    {
        match residual {
            Residual::Empty => FfiGlassesResidual::Empty,
            Residual::PartialFrame(n) => FfiGlassesResidual::PartialFrame { buffered: n as u32 },
            Residual::Foreign(bytes) => FfiGlassesResidual::Foreign { bytes },
            Residual::Overflowed(n) => FfiGlassesResidual::Overflowed { dropped: n as u32 },
        }
    }
}

impl vstd::std_specs::convert::FromSpecImpl<Residual> for FfiGlassesResidual {
    open spec fn obeys_from_spec() -> bool {
        true
    }

    open spec fn from_spec(residual: Residual) -> Self {
        residual_out(residual)
    }
}

// ---- settings -------------------------------------------------------------------------

/// The accumulated `0x48` burst. Every field is optional because "not reported" is a real state.
#[derive(Debug, Clone, PartialEq, Eq)]
pub struct FfiGlassesSwitchStates {
    /// `0..=2`.
    pub led: Option<u8>,
    pub record_seconds: Option<u16>,
    pub wear_detection: Option<bool>,
    /// The wake word.
    pub voice_command: Option<bool>,
    pub orientation: Option<FfiGlassesOrientation>,
    /// One entry per slot, in the order the burst emits them.
    pub gestures: Vec<Option<FfiGlassesGestureAction>>,
    /// The value byte exactly as reported, even where it maps to no known action.
    pub gestures_raw: Vec<Option<u8>>,
    /// True once every field the burst reports has arrived, all five gestures among them.
    pub is_complete: bool,
}

/// A [`FfiGlassesSwitchStates`] as values.
#[verifier::ext_equal]
pub struct FfiSettingsView {
    pub led: Option<u8>,
    pub record_seconds: Option<u16>,
    pub wear_detection: Option<bool>,
    pub voice_command: Option<bool>,
    pub orientation: Option<FfiGlassesOrientation>,
    pub gestures: Seq<Option<FfiGlassesGestureAction>>,
    pub gestures_raw: Seq<Option<u8>>,
    pub is_complete: bool,
}

impl View for FfiGlassesSwitchStates {
    type V = FfiSettingsView;

    open spec fn view(&self) -> FfiSettingsView {
        FfiSettingsView {
            led: self.led,
            record_seconds: self.record_seconds,
            wear_detection: self.wear_detection,
            voice_command: self.voice_command,
            orientation: self.orientation,
            gestures: self.gestures@,
            gestures_raw: self.gestures_raw@,
            is_complete: self.is_complete,
        }
    }
}

/// The byte reported for a slot.
pub open spec fn slot_raw(s: Settings, slot: GestureSlot) -> Option<u8> {
    if s.gestures.dom().contains(slot) {
        Some(s.gestures[slot])
    } else {
        None
    }
}

/// The binding reported for a slot.
pub open spec fn slot_binding(s: Settings, slot: GestureSlot) -> Option<FfiGlassesGestureAction> {
    match slot_raw(s, slot) {
        Some(raw) => vocabulary::gesture_value_out(raw),
        None => None,
    }
}

/// What crosses the boundary for the settings.
pub open spec fn settings_out(s: Settings) -> FfiSettingsView {
    FfiSettingsView {
        led: s.led,
        record_seconds: s.record_seconds,
        wear_detection: s.wear_detection,
        voice_command: s.voice_command,
        orientation: match s.orientation {
            Some(o) => Some(vocabulary::orientation_out(o)),
            None => None,
        },
        gestures: GestureSlot::ALL@.map_values(|slot: GestureSlot| slot_binding(s, slot)),
        gestures_raw: GestureSlot::ALL@.map_values(|slot: GestureSlot| slot_raw(s, slot)),
        is_complete: parser::complete(s),
    }
}

impl From<&SwitchStates> for FfiGlassesSwitchStates {
    fn from(states: &SwitchStates) -> (r: Self)
        ensures
            r@ == settings_out(states@),
    {
        let slots = GestureSlot::ALL;
        let mut gestures: Vec<Option<FfiGlassesGestureAction>> = Vec::new();
        let mut gestures_raw: Vec<Option<u8>> = Vec::new();
        let ghost bindings = settings_out(states@).gestures;
        let ghost raws = settings_out(states@).gestures_raw;
        for i in 0..5usize
            invariant
                slots@ == GestureSlot::ALL@,
                bindings == settings_out(states@).gestures,
                raws == settings_out(states@).gestures_raw,
                gestures@ == bindings.take(i as int),
                gestures_raw@ == raws.take(i as int),
        {
            gestures.push(maybe_gesture(states.gesture(slots[i])));
            gestures_raw.push(states.gesture_raw(slots[i]));
            assert(gestures@ =~= bindings.take(i + 1));
            assert(gestures_raw@ =~= raws.take(i + 1));
        }
        assert(bindings.take(5) =~= bindings);
        assert(raws.take(5) =~= raws);
        FfiGlassesSwitchStates {
            led: states.led(),
            record_seconds: states.record_seconds(),
            wear_detection: states.wear_detection(),
            voice_command: states.voice_command(),
            orientation: match states.orientation() {
                Some(o) => Some(FfiGlassesOrientation::from(o)),
                None => None,
            },
            gestures,
            gestures_raw,
            is_complete: states.is_complete(),
        }
    }
}

impl vstd::std_specs::convert::FromSpecImpl<&SwitchStates> for FfiGlassesSwitchStates {
    /// What `from` gives is stated of its contents, in its own contract.
    open spec fn obeys_from_spec() -> bool {
        false
    }

    open spec fn from_spec(states: &SwitchStates) -> Self {
        arbitrary()
    }
}

// ---- files ----------------------------------------------------------------------------

/// Why a transfer ended without producing a file.
#[derive(Debug, Clone, Copy, PartialEq, Eq, Structural)]
pub enum FfiGlassesFileAbort {
    /// A `0x99` arrived with no transfer open.
    NoFileInfo,
    /// A `0x97` declared zero bytes, or more than the cap.
    ImplausibleSize { declared_total: u32 },
    /// A `0x97` arrived while a transfer was still in flight.
    Superseded { received: u32, declared_total: u32 },
    /// A `0x98` addressed bytes outside the declared file.
    OutOfRange { addr: u32, end: u32, declared_total: u32 },
    /// A `0x99` arrived with fewer bytes genuinely delivered than declared. `first_gap` is the
    /// offset of the first byte never received.
    Incomplete { received: u32, declared_total: u32, first_gap: Option<u32> },
}

/// An offset that may be missing, in 32 bits.
pub open spec fn gap_out(gap: Option<usize>) -> Option<u32> {
    match gap {
        Some(g) => Some(g as u32),
        None => None,
    }
}

fn gap_of(gap: Option<usize>) -> (r: Option<u32>)
    ensures
        r == gap_out(gap),
{
    match gap {
        Some(g) => Some(g as u32),
        None => None,
    }
}

/// What crosses the boundary for a [`FileAbort`].
pub open spec fn abort_out(abort: FileAbort) -> FfiGlassesFileAbort {
    match abort {
        FileAbort::NoFileInfo => FfiGlassesFileAbort::NoFileInfo,
        FileAbort::ImplausibleSize { declared_total } => FfiGlassesFileAbort::ImplausibleSize {
            declared_total: declared_total as u32,
        },
        FileAbort::Superseded { received, declared_total } => FfiGlassesFileAbort::Superseded {
            received: received as u32,
            declared_total: declared_total as u32,
        },
        FileAbort::OutOfRange { addr, end, declared_total } => FfiGlassesFileAbort::OutOfRange {
            addr: addr as u32,
            end: end as u32,
            declared_total: declared_total as u32,
        },
        FileAbort::Incomplete { received, declared_total, first_gap } => {
            FfiGlassesFileAbort::Incomplete {
                received: received as u32,
                declared_total: declared_total as u32,
                first_gap: gap_out(first_gap),
            }
        },
    }
}

impl From<FileAbort> for FfiGlassesFileAbort {
    fn from(abort: FileAbort) -> (r: Self)
        ensures
            r == abort_out(abort),
    {
        match abort {
            FileAbort::NoFileInfo => FfiGlassesFileAbort::NoFileInfo,
            FileAbort::ImplausibleSize { declared_total } => FfiGlassesFileAbort::ImplausibleSize {
                declared_total: declared_total as u32,
            },
            FileAbort::Superseded { received, declared_total } => FfiGlassesFileAbort::Superseded {
                received: received as u32,
                declared_total: declared_total as u32,
            },
            FileAbort::OutOfRange { addr, end, declared_total } => {
                FfiGlassesFileAbort::OutOfRange {
                    addr: addr as u32,
                    end: end as u32,
                    declared_total: declared_total as u32,
                }
            },
            FileAbort::Incomplete { received, declared_total, first_gap } => {
                FfiGlassesFileAbort::Incomplete {
                    received: received as u32,
                    declared_total: declared_total as u32,
                    first_gap: gap_of(first_gap),
                }
            },
        }
    }
}

impl vstd::std_specs::convert::FromSpecImpl<FileAbort> for FfiGlassesFileAbort {
    open spec fn obeys_from_spec() -> bool {
        true
    }

    open spec fn from_spec(abort: FileAbort) -> Self {
        abort_out(abort)
    }
}

/// What a chunk of file-channel bytes did to the transfer state.
#[derive(Debug, Clone, PartialEq, Eq)]
pub enum FfiGlassesFileEvent {
    /// A `0x97` header opened a transfer.
    Started { declared_total: u32, file_type: u8 },
    /// A `0x99` closed one and every declared byte was genuinely delivered.
    Completed {
        /// The raw type byte, kept raw because the wire is the authority on it.
        file_type: u8,
        /// The named value, or `None` for an undeclared byte.
        kind: Option<FfiGlassesFileKind>,
        data: Vec<u8>,
    },
    /// The transfer ended with nothing to hand over.
    Aborted { abort: FfiGlassesFileAbort },
    /// Bytes that could not begin a frame were discarded to regain sync.
    Desynced { dropped: u32 },
}

/// A [`FfiGlassesFileEvent`] as values.
#[verifier::ext_equal]
pub enum FfiFileView {
    Started { declared_total: u32, file_type: u8 },
    Completed { file_type: u8, kind: Option<FfiGlassesFileKind>, data: Seq<u8> },
    Aborted { abort: FfiGlassesFileAbort },
    Desynced { dropped: u32 },
}

impl View for FfiGlassesFileEvent {
    type V = FfiFileView;

    open spec fn view(&self) -> FfiFileView {
        match *self {
            FfiGlassesFileEvent::Started { declared_total, file_type } => FfiFileView::Started {
                declared_total,
                file_type,
            },
            FfiGlassesFileEvent::Completed { file_type, kind, data } => FfiFileView::Completed {
                file_type,
                kind,
                data: data@,
            },
            FfiGlassesFileEvent::Aborted { abort } => FfiFileView::Aborted { abort },
            FfiGlassesFileEvent::Desynced { dropped } => FfiFileView::Desynced { dropped },
        }
    }
}

pub open spec fn ffi_file_views(events: Seq<FfiGlassesFileEvent>) -> Seq<FfiFileView> {
    events.map_values(|e: FfiGlassesFileEvent| e@)
}

/// What crosses the boundary for the type of a file.
pub open spec fn file_type_out(file_type: u8) -> Option<FfiGlassesFileKind> {
    match FileKind::of_code(file_type) {
        Some(k) => Some(kind_out(k)),
        None => None,
    }
}

/// What crosses the boundary for a [`FileEvent`].
pub open spec fn file_out(event: FileEventView) -> FfiFileView {
    match event {
        FileEventView::Started { declared_total, file_type } => FfiFileView::Started {
            declared_total: declared_total as u32,
            file_type,
        },
        FileEventView::Completed { file_type, data } => FfiFileView::Completed {
            file_type,
            kind: file_type_out(file_type),
            data,
        },
        FileEventView::Aborted(abort) => FfiFileView::Aborted { abort: abort_out(abort) },
        FileEventView::Desynced { dropped } => FfiFileView::Desynced { dropped: dropped as u32 },
    }
}

/// What crosses the boundary for a list of file events.
pub open spec fn file_outs(events: Seq<FileEventView>) -> Seq<FfiFileView> {
    events.map_values(|e: FileEventView| file_out(e))
}

impl From<FileEvent> for FfiGlassesFileEvent {
    fn from(event: FileEvent) -> (r: Self)
        ensures
            r@ == file_out(event@),
    {
        match event {
            FileEvent::Started { declared_total, file_type } => FfiGlassesFileEvent::Started {
                declared_total: declared_total as u32,
                file_type,
            },
            FileEvent::Completed(f) => {
                let kind = match f.kind() {
                    Some(k) => Some(FfiGlassesFileKind::from(k)),
                    None => None,
                };
                FfiGlassesFileEvent::Completed { file_type: f.file_type, kind, data: f.data }
            },
            FileEvent::Aborted(a) => FfiGlassesFileEvent::Aborted {
                abort: FfiGlassesFileAbort::from(a),
            },
            FileEvent::Desynced { dropped } => FfiGlassesFileEvent::Desynced {
                dropped: dropped as u32,
            },
        }
    }
}

impl vstd::std_specs::convert::FromSpecImpl<FileEvent> for FfiGlassesFileEvent {
    /// What `from` gives is stated of its contents, in its own contract.
    open spec fn obeys_from_spec() -> bool {
        false
    }

    open spec fn from_spec(event: FileEvent) -> Self {
        arbitrary()
    }
}

/// How far along the in-flight transfer is. `received` counts bytes a `0x98` genuinely delivered.
#[derive(Debug, Clone, Copy, PartialEq, Eq, Structural)]
pub struct FfiGlassesTransferProgress {
    pub received: u32,
    pub declared_total: u32,
    pub file_type: u8,
    /// Offset of the first byte not yet delivered, or `None` when the file is complete.
    pub first_gap: Option<u32>,
    /// Whether a `0x97` has opened a transfer that has not yet closed.
    pub is_active: bool,
}

/// What crosses the boundary for a [`TransferProgress`].
pub open spec fn progress_out(progress: TransferProgress) -> FfiGlassesTransferProgress {
    FfiGlassesTransferProgress {
        received: progress.received as u32,
        declared_total: progress.declared_total as u32,
        file_type: progress.file_type,
        first_gap: gap_out(progress.first_gap),
        is_active: progress.declared_total > 0,
    }
}

impl From<TransferProgress> for FfiGlassesTransferProgress {
    fn from(progress: TransferProgress) -> (r: Self)
        ensures
            r == progress_out(progress),
    {
        FfiGlassesTransferProgress {
            received: progress.received as u32,
            declared_total: progress.declared_total as u32,
            file_type: progress.file_type,
            first_gap: gap_of(progress.first_gap),
            is_active: progress.is_active(),
        }
    }
}

impl vstd::std_specs::convert::FromSpecImpl<TransferProgress> for FfiGlassesTransferProgress {
    open spec fn obeys_from_spec() -> bool {
        true
    }

    open spec fn from_spec(progress: TransferProgress) -> Self {
        progress_out(progress)
    }
}

// ---- laws -----------------------------------------------------------------------------

/// A cause comes back from the boundary as it went out, and the other way round.
pub proof fn lemma_cause_round_trip(inside: EndCause, outside: FfiGlassesEndCause)
    ensures
        cause_in(cause_out(inside)) == inside,
        cause_out(cause_in(outside)) == outside,
{
}

/// Nothing is lost at the boundary: every frame has an event there, a byte in neither opcode table
/// keeps its payload, and a malformed frame comes back whole.
pub proof fn lemma_the_boundary_keeps_the_frame(f: FrameView)
    ensures
        event_out(parser::event_of(f)) matches FfiEventView::Unrecognised { cmd, data } ==> cmd
            == f.cmd && data == f.data,
        event_out(parser::event_of(f)) matches FfiEventView::Malformed { cmd, data, reason } ==> cmd
            == f.cmd && data == f.data,
        event_out(parser::event_of(f)) matches FfiEventView::VoiceFrame { cmd, data } ==> cmd
            == f.cmd && data == f.data,
{
    parser::lemma_malformed_keeps_the_frame(f);
    parser::lemma_unrecognised_means_unknown(f);
}

/// A battery source keeps its name across the boundary.
pub proof fn lemma_battery_source_out_keeps_its_name(battery_source: BatterySource)
    ensures
        battery_source == BatterySource::ReadReply
            <==> battery_source_out(battery_source) == FfiGlassesBatterySource::ReadReply,
        battery_source == BatterySource::Push
            <==> battery_source_out(battery_source) == FfiGlassesBatterySource::Push,
{
}

/// A count source keeps its name across the boundary.
pub proof fn lemma_count_source_out_keeps_its_name(count_source: CountSource)
    ensures
        count_source == CountSource::Push
            <==> count_source_out(count_source) == FfiGlassesCountSource::Push,
        count_source == CountSource::ReadReply
            <==> count_source_out(count_source) == FfiGlassesCountSource::ReadReply,
{
}

/// A mode keeps its name across the boundary.
pub proof fn lemma_mode_out_keeps_its_name(mode: OpusMode)
    ensures
        mode == OpusMode::Silk <==> mode_out(mode) == FfiGlassesOpusMode::Silk,
        mode == OpusMode::Hybrid <==> mode_out(mode) == FfiGlassesOpusMode::Hybrid,
        mode == OpusMode::Celt <==> mode_out(mode) == FfiGlassesOpusMode::Celt,
{
}

/// A bandwidth keeps its name across the boundary.
pub proof fn lemma_bandwidth_out_keeps_its_name(bandwidth: OpusBandwidth)
    ensures
        bandwidth == OpusBandwidth::Narrow
            <==> bandwidth_out(bandwidth) == FfiGlassesOpusBandwidth::Narrow,
        bandwidth == OpusBandwidth::Medium
            <==> bandwidth_out(bandwidth) == FfiGlassesOpusBandwidth::Medium,
        bandwidth == OpusBandwidth::Wide
            <==> bandwidth_out(bandwidth) == FfiGlassesOpusBandwidth::Wide,
        bandwidth == OpusBandwidth::SuperWide
            <==> bandwidth_out(bandwidth) == FfiGlassesOpusBandwidth::SuperWide,
        bandwidth == OpusBandwidth::Full
            <==> bandwidth_out(bandwidth) == FfiGlassesOpusBandwidth::Full,
{
}

/// A cause keeps its name across the boundary.
pub proof fn lemma_cause_out_keeps_its_name(cause: EndCause)
    ensures
        cause == EndCause::DeviceSignalled
            <==> cause_out(cause) == FfiGlassesEndCause::DeviceSignalled,
        cause == EndCause::Interrupted <==> cause_out(cause) == FfiGlassesEndCause::Interrupted,
        cause == EndCause::IdleTimeout <==> cause_out(cause) == FfiGlassesEndCause::IdleTimeout,
        cause == EndCause::Disconnected <==> cause_out(cause) == FfiGlassesEndCause::Disconnected,
{
}

/// A cause keeps its name back across the boundary.
pub proof fn lemma_cause_in_keeps_its_name(cause: FfiGlassesEndCause)
    ensures
        cause == FfiGlassesEndCause::DeviceSignalled
            <==> cause_in(cause) == EndCause::DeviceSignalled,
        cause == FfiGlassesEndCause::Interrupted <==> cause_in(cause) == EndCause::Interrupted,
        cause == FfiGlassesEndCause::IdleTimeout <==> cause_in(cause) == EndCause::IdleTimeout,
        cause == FfiGlassesEndCause::Disconnected <==> cause_in(cause) == EndCause::Disconnected,
{
}

/// A kind keeps its name across the boundary.
pub proof fn lemma_kind_out_keeps_its_name(kind: FileKind)
    ensures
        kind == FileKind::ImageThumb <==> kind_out(kind) == FfiGlassesFileKind::ImageThumb,
        kind == FileKind::HdImage <==> kind_out(kind) == FfiGlassesFileKind::HdImage,
        kind == FileKind::VideoThumb <==> kind_out(kind) == FfiGlassesFileKind::VideoThumb,
{
}

/// The three numbers of both firmwares and that of the hardware keep their places.
pub proof fn lemma_versions_keep_their_places(bt: Seq<u8>, isp: Seq<u8>, hardware: u8)
    requires
        bt.len() == 3,
        isp.len() == 3,
    ensures
        ({
            let v = versions_out(bt, isp, hardware);
            &&& v.bt_major == bt[0]
            &&& v.bt_minor == bt[1]
            &&& v.bt_patch == bt[2]
            &&& v.isp_major == isp[0]
            &&& v.isp_minor == isp[1]
            &&& v.isp_patch == isp[2]
            &&& v.hardware == hardware
        }),
{
}

/// A switch report keeps its switch and its value across the boundary.
pub proof fn lemma_a_report_keeps_its_value(r: SwitchReport)
    ensures
        match r {
            SwitchReport::Led(level) => report_out(r) == (FfiGlassesSwitchReport::Led { level }),
            SwitchReport::RecordSeconds(seconds) => report_out(r) == (
            FfiGlassesSwitchReport::RecordSeconds { seconds }),
            SwitchReport::WearDetection(on) => report_out(r) == (
            FfiGlassesSwitchReport::WearDetection { on }),
            SwitchReport::VoiceCommand(on) => report_out(r) == (
            FfiGlassesSwitchReport::VoiceCommand { on }),
            SwitchReport::Orientation(o) => report_out(r) == (
            FfiGlassesSwitchReport::Orientation { orientation: vocabulary::orientation_out(o) }),
        },
{
}

/// The reason of a malformed frame keeps its number.
pub proof fn lemma_a_reason_keeps_its_number(need: usize)
    requires
        need <= u32::MAX,
    ensures
        reason_out(MalformedReason::TooShort { need }) matches FfiGlassesMalformedReason::TooShort {
            need: n,
        } && n == need,
        reason_out(MalformedReason::OutOfRange) == FfiGlassesMalformedReason::OutOfRange,
        reason_out(MalformedReason::NotText) == FfiGlassesMalformedReason::NotText,
{
}

/// What an Opus packet says crosses the boundary whole, with all that follows from it.
pub proof fn lemma_a_toc_crosses_whole(toc: OpusToc)
    ensures
        ({
            let t = toc_out(toc);
            &&& t.config == toc.config
            &&& t.stereo == toc.stereo
            &&& t.code == toc.code
            &&& t.frames == toc.frames
            &&& t.vbr == toc.vbr
            &&& t.padding == toc.padding
            &&& t.mode == mode_out(toc.mode())
            &&& t.bandwidth == bandwidth_out(toc.bandwidth())
            &&& t.nominal_rate_hz == toc.bandwidth().nominal_rate_hz()
            &&& t.frame_duration_us == toc.frame_duration_us()
            &&& t.total_duration_us == toc.total_duration_us()
            &&& t.channels == toc.channels()
        }),
        maybe_toc_out(Some(toc)) == Some(toc_out(toc)),
        maybe_toc_out(None) is None,
{
}

/// A voice event crosses the boundary with its packet or its cause.
pub proof fn lemma_a_voice_event_crosses_whole(e: VoiceEventView)
    ensures
        match e {
            VoiceEventView::Started => voice_out(e) == FfiVoiceView::Started,
            VoiceEventView::StartedRecovered => voice_out(e) == FfiVoiceView::StartedRecovered,
            VoiceEventView::Packet { payload, toc, index } => voice_out(e) == (
            FfiVoiceView::Packet {
                payload,
                toc: match toc {
                    Some(t) => Some(toc_out(t)),
                    None => None,
                },
                index,
            }),
            VoiceEventView::Ended(cause) => voice_out(e) == (FfiVoiceView::Ended {
                cause: cause_out(cause),
            }),
            VoiceEventView::Ignored => voice_out(e) == FfiVoiceView::Ignored,
        },
{
}

/// An event crosses the boundary as what it is, with every value that it carries.
pub proof fn lemma_an_event_crosses_whole(e: DeviceEventView)
    ensures
        match e {
            DeviceEventView::Battery(b) => event_out(e) == (FfiEventView::Battery {
                percent: b.percent,
                charging: b.charging,
                source: battery_source_out(b.source),
            }),
            DeviceEventView::Versions { bt, isp, hardware } => event_out(e) == (
            FfiEventView::Versions { versions: versions_out(bt, isp, hardware) }),
            DeviceEventView::Identity { project, customer } => event_out(e) == (
            FfiEventView::Identity { project, customer }),
            DeviceEventView::MediaCount(m) => event_out(e) == (FfiEventView::MediaCount {
                count: m.count,
                source: count_source_out(m.source),
            }),
            DeviceEventView::Switch(r) => event_out(e) == (FfiEventView::Switch {
                report: report_out(r),
            }),
            DeviceEventView::GestureBinding { slot, action, raw } => event_out(e) == (
            FfiEventView::GestureBinding {
                slot: vocabulary::slot_out(slot),
                action: match action {
                    Some(a) => Some(vocabulary::gesture_out(a)),
                    None => None,
                },
                raw,
            }),
            DeviceEventView::Capabilities(c) => event_out(e) == (FfiEventView::Capabilities {
                raw: c.raw,
                known_configuration: c.raw == 0x040B,
            }),
            DeviceEventView::VoiceFeatures(f) => event_out(e) == (FfiEventView::VoiceFeatures {
                raw: f.raw,
                all_enabled: f.raw == 0,
            }),
            DeviceEventView::Volumes(v) => event_out(e) == (FfiEventView::Volumes {
                system: v.system,
                media: v.media,
                call: v.call,
            }),
            DeviceEventView::WifiCredentials { ssid } => event_out(e) == (
            FfiEventView::WifiCredentials { ssid, passphrase: "12345678"@ }),
            DeviceEventView::WifiOpening { serves, raw } => event_out(e) == (
            FfiEventView::WifiOpening { serves: vocabulary::service_out(serves), raw }),
            DeviceEventView::ActionSync(flags) => event_out(e) matches FfiEventView::ActionSync {
                active,
                bits,
            } && bits.len() == 16 && (forall|i: int|
                0 <= i < 16 ==> #[trigger] bits[i] == (i < 10 && flags[i])) && active.len()
                == parser::active_of(flags, 10).len() && forall|i: int|
                0 <= i < active.len() ==> #[trigger] active[i] == vocabulary::action_out(
                    parser::active_of(flags, 10)[i],
                ),
            DeviceEventView::Voice(v) => event_out(e) == (FfiEventView::Voice {
                event: voice_out(v),
            }),
            DeviceEventView::VoiceFrame { cmd, data } => event_out(e) == (
            FfiEventView::VoiceFrame { cmd, data }),
            DeviceEventView::VoiceAbandoned => event_out(e) == FfiEventView::VoiceAbandoned,
            DeviceEventView::AiBroadcastCancelled => event_out(e)
                == FfiEventView::AiBroadcastCancelled,
            DeviceEventView::HdImageFailed => event_out(e) == FfiEventView::HdImageFailed,
            DeviceEventView::IspUpgradeFinished { ok } => event_out(e) == (
            FfiEventView::IspUpgradeFinished { ok }),
            DeviceEventView::Ack { command, data } => event_out(e) == (FfiEventView::Ack {
                command: vocabulary::command_out(command),
                data,
            }),
            DeviceEventView::Malformed { cmd, data, reason } => event_out(e) == (
            FfiEventView::Malformed { cmd, data, reason: reason_out(reason) }),
            DeviceEventView::Unrecognised { cmd, data } => event_out(e) == (
            FfiEventView::Unrecognised { cmd, data }),
        },
{
}

/// Events cross the boundary one for one and in order.
pub proof fn lemma_events_cross_in_order(
    events: Seq<DeviceEventView>,
    voice: Seq<VoiceEventView>,
    files: Seq<FileEventView>,
    i: int,
)
    ensures
        event_outs(events).len() == events.len(),
        0 <= i < events.len() ==> event_outs(events)[i] == event_out(events[i]),
        voice_outs(voice).len() == voice.len(),
        0 <= i < voice.len() ==> voice_outs(voice)[i] == voice_out(voice[i]),
        file_outs(files).len() == files.len(),
        0 <= i < files.len() ==> file_outs(files)[i] == file_out(files[i]),
{
}

/// What a deframer could not use crosses the boundary with its bytes or how many they are.
pub proof fn lemma_a_residual_crosses_whole(n: usize, bytes: Vec<u8>)
    requires
        n <= u32::MAX,
    ensures
        residual_out(Residual::Empty) == FfiGlassesResidual::Empty,
        residual_out(Residual::PartialFrame(n)) matches FfiGlassesResidual::PartialFrame {
            buffered,
        } && buffered == n,
        residual_out(Residual::Foreign(bytes)) == (FfiGlassesResidual::Foreign { bytes }),
        residual_out(Residual::Overflowed(n)) matches FfiGlassesResidual::Overflowed { dropped }
            && dropped == n,
{
}

/// The settings cross the boundary whole, the gestures in the order of their opcodes.
pub proof fn lemma_settings_cross_whole(s: Settings)
    ensures
        ({
            let f = settings_out(s);
            let slots = seq![
                GestureSlot::SwipeForward,
                GestureSlot::SwipeBack,
                GestureSlot::SingleTap,
                GestureSlot::DoubleTap,
                GestureSlot::TripleTap,
            ];
            &&& f.led == s.led
            &&& f.record_seconds == s.record_seconds
            &&& f.wear_detection == s.wear_detection
            &&& f.voice_command == s.voice_command
            &&& f.orientation == (match s.orientation {
                Some(o) => Some(vocabulary::orientation_out(o)),
                None => None,
            })
            &&& f.is_complete == parser::complete(s)
            &&& f.gestures.len() == 5
            &&& f.gestures_raw.len() == 5
            &&& forall|i: int|
                0 <= i < 5 ==> #[trigger] f.gestures_raw[i] == (if s.gestures.dom().contains(
                    slots[i],
                ) {
                    Some(s.gestures[slots[i]])
                } else {
                    None
                })
            &&& forall|i: int|
                0 <= i < 5 ==> #[trigger] f.gestures[i] == (match f.gestures_raw[i] {
                    Some(raw) => vocabulary::gesture_value_out(raw),
                    None => None,
                })
        }),
{
    assert(GestureSlot::ALL@ =~= seq![
        GestureSlot::SwipeForward,
        GestureSlot::SwipeBack,
        GestureSlot::SingleTap,
        GestureSlot::DoubleTap,
        GestureSlot::TripleTap,
    ]);
}

/// The end of a transfer crosses the boundary with its numbers.
pub proof fn lemma_an_abort_keeps_its_numbers(a: usize, b: usize, c: usize, gap: Option<usize>)
    requires
        a <= u32::MAX,
        b <= u32::MAX,
        c <= u32::MAX,
        gap matches Some(g) ==> g <= u32::MAX,
    ensures
        abort_out(FileAbort::NoFileInfo) == FfiGlassesFileAbort::NoFileInfo,
        abort_out(FileAbort::ImplausibleSize { declared_total: a })
            matches FfiGlassesFileAbort::ImplausibleSize { declared_total } && declared_total == a,
        abort_out(FileAbort::Superseded { received: a, declared_total: b })
            matches FfiGlassesFileAbort::Superseded { received, declared_total } && received == a
            && declared_total == b,
        abort_out(FileAbort::OutOfRange { addr: a, end: b, declared_total: c })
            matches FfiGlassesFileAbort::OutOfRange { addr, end, declared_total } && addr == a
            && end == b && declared_total == c,
        abort_out(FileAbort::Incomplete { received: a, declared_total: b, first_gap: gap })
            matches FfiGlassesFileAbort::Incomplete { received, declared_total, first_gap }
            && received == a && declared_total == b && (match (first_gap, gap) {
            (Some(x), Some(y)) => x == y,
            (None, None) => true,
            _ => false,
        }),
{
}

/// A file event crosses the boundary with its file, and the kind that its type byte names.
pub proof fn lemma_a_file_event_crosses_whole(
    n: usize,
    file_type: u8,
    data: Seq<u8>,
    abort: FileAbort,
)
    requires
        n <= u32::MAX,
    ensures
        file_out(FileEventView::Started { declared_total: n, file_type })
            matches FfiFileView::Started { declared_total, file_type: t } && declared_total == n
            && t == file_type,
        file_out(FileEventView::Completed { file_type, data }) == (FfiFileView::Completed {
            file_type,
            kind: match FileKind::of_code(file_type) {
                Some(k) => Some(kind_out(k)),
                None => None,
            },
            data,
        }),
        file_out(FileEventView::Aborted(abort)) == (FfiFileView::Aborted {
            abort: abort_out(abort),
        }),
        file_out(FileEventView::Desynced { dropped: n }) matches FfiFileView::Desynced { dropped }
            && dropped == n,
{
}

/// Progress crosses the boundary with its numbers, and is active while a size is declared.
pub proof fn lemma_progress_keeps_its_numbers(p: TransferProgress)
    requires
        p.received <= u32::MAX,
        p.declared_total <= u32::MAX,
        p.first_gap matches Some(g) ==> g <= u32::MAX,
    ensures
        ({
            let f = progress_out(p);
            &&& f.received == p.received
            &&& f.declared_total == p.declared_total
            &&& f.file_type == p.file_type
            &&& f.is_active == (p.declared_total > 0)
            &&& match (f.first_gap, p.first_gap) {
                (Some(x), Some(y)) => x == y,
                (None, None) => true,
                _ => false,
            }
        }),
{
}

} // verus!

//! The decisions of a BLE central for the glasses.
//!
//! Subscribe before writing: the glasses push a `0x95` about
//! [`timing::CAPABILITIES_PUSH_DELAY`] milliseconds after the link comes up. Write with response:
//! `AA13` takes an ATT Write Request. The microphone only closes when the client closes it: `0x99`
//! is declared and never sent. The `0x48` read has no `0x48` reply: [`Handshake`] watches the
//! accumulator fill.
use crate::commands;
use crate::gatt;
use crate::opcodes::AppCommand;
use crate::parser;
use crate::parser::BatteryReading;
use crate::parser::Capabilities;
use crate::parser::DeviceEvent;
use crate::parser::DeviceEventView;
use crate::parser::Identity;
use crate::parser::Parser;
use crate::parser::ParserView;
use crate::parser::Settings;
use crate::parser::SwitchStates;
use crate::parser::Versions;
use crate::parser::VoiceFeatures;
use crate::parser::Volumes;
use crate::reassembly;
use crate::reassembly::FileEvent;
use crate::reassembly::FileEventView;
use crate::reassembly::FileReassembler;
use crate::reassembly::ReassemblerView;
use crate::timing;
use crate::voice::VoiceEvent;
use crate::voice::VoiceEventView;
use crate::voice::VoicePacket;
use vstd::prelude::*;

verus! {

/// How many events a broadcast channel holds before a slow subscriber starts missing them. Sized
/// for the voice stream: fifty packets a second, so this is about 20 s of backlog.
pub const EVENT_BUFFER: usize = 1024;

/// How long a handshake waits for its answers, in milliseconds.
pub const HANDSHAKE_BUDGET: u64 = 8_000;

/// The gap between two writes of a handshake, in milliseconds.
pub const HANDSHAKE_WRITE_GAP: u64 = 120;

/// How long to wait for the AI image, in milliseconds.
pub const PHOTO_BUDGET: u64 = timing::PHOTO_CAPTURE_TYPICAL * 4;

/// How long to wait for the SSID, in milliseconds.
pub const SSID_BUDGET: u64 = timing::SSID_ARRIVAL_TYPICAL * 6;

/// The 16-bit UUIDs of the four characteristics' table.
pub const SERVICE_ID: u16 = 0xAA12;

pub const WRITE_ID: u16 = 0xAA13;

pub const CONTROL_ID: u16 = 0xAA14;

pub const FILE_ID: u16 = 0xAA15;

/// The signal strength assumed of a peripheral that reports none.
pub const NO_RSSI: i16 = -127;

/// Anything that stops the radio doing what was asked.
#[derive(Debug, PartialEq, Eq)]
pub enum BleError {
    /// The platform's Bluetooth stack. Includes "no adapter" and "permission denied".
    Adapter { detail: String },
    /// Nothing advertising service `AA12` inside the scan window.
    NotFound,
    /// Connected, but the peripheral does not expose the characteristics this protocol needs. See
    /// [`crate::gatt::is_drivable`].
    NotDrivable { characteristics: Vec<String> },
    /// A GATT operation failed.
    Gatt { operation: String, detail: String },
    /// Waited for something the device did not send inside the window, in milliseconds.
    Timeout { waiting_for: String, after: u64 },
    /// The notification pump stopped: the link dropped.
    Disconnected,
}

/// A [`BleError`] as values.
#[verifier::ext_equal]
pub enum BleErrorView {
    Adapter { detail: Seq<char> },
    NotFound,
    NotDrivable { characteristics: Seq<Seq<char>> },
    Gatt { operation: Seq<char>, detail: Seq<char> },
    Timeout { waiting_for: Seq<char>, after: u64 },
    Disconnected,
}

impl View for BleError {
    type V = BleErrorView;

    open spec fn view(&self) -> BleErrorView {
        match *self {
            BleError::Adapter { detail } => BleErrorView::Adapter { detail: detail@ },
            BleError::NotFound => BleErrorView::NotFound,
            BleError::NotDrivable { characteristics } => BleErrorView::NotDrivable {
                characteristics: characteristics@.map_values(|s: String| s@),
            },
            BleError::Gatt { operation, detail } => BleErrorView::Gatt {
                operation: operation@,
                detail: detail@,
            },
            BleError::Timeout { waiting_for, after } => BleErrorView::Timeout {
                waiting_for: waiting_for@,
                after,
            },
            BleError::Disconnected => BleErrorView::Disconnected,
        }
    }
}

/// Everything one connection publishes, from both notify characteristics.
#[derive(Debug, Clone, PartialEq, Eq)]
pub enum GlassesEvent {
    /// A decoded `AA14` frame.
    Device(DeviceEvent),
    /// Something happened to a `52 58` file transfer on `AA15`.
    File(FileEvent),
    /// The pump stopped.
    Disconnected,
}

/// A [`GlassesEvent`] as values.
#[verifier::ext_equal]
pub enum GlassesEventView {
    Device(DeviceEventView),
    File(FileEventView),
    Disconnected,
}

impl View for GlassesEvent {
    type V = GlassesEventView;

    open spec fn view(&self) -> GlassesEventView {
        match *self {
            GlassesEvent::Device(e) => GlassesEventView::Device(e@),
            GlassesEvent::File(e) => GlassesEventView::File(e@),
            GlassesEvent::Disconnected => GlassesEventView::Disconnected,
        }
    }
}

pub open spec fn glasses_event_views(events: Seq<GlassesEvent>) -> Seq<GlassesEventView> {
    events.map_values(|e: GlassesEvent| e@)
}

/// What waiting for the next event came to.
#[derive(Debug, PartialEq, Eq)]
pub enum Signal {
    Event(GlassesEvent),
    /// The subscriber fell behind, and events were skipped.
    Lagged,
    /// There will be no more events.
    Closed,
    /// The time to wait is over.
    TimedOut,
}

/// A [`Signal`] as values.
#[verifier::ext_equal]
pub enum SignalView {
    Event(GlassesEventView),
    Lagged,
    Closed,
    TimedOut,
}

impl View for Signal {
    type V = SignalView;

    open spec fn view(&self) -> SignalView {
        match *self {
            Signal::Event(e) => SignalView::Event(e@),
            Signal::Lagged => SignalView::Lagged,
            Signal::Closed => SignalView::Closed,
            Signal::TimedOut => SignalView::TimedOut,
        }
    }
}

/// Whether a signal says that the link is gone.
pub open spec fn link_lost(s: SignalView) -> bool {
    s is Closed || s == SignalView::Event(GlassesEventView::Disconnected)
}

// ---- scanning and connecting ----------------------------------------------------------

/// How strong a peripheral's signal is taken to be.
pub open spec fn strength(rssi: Option<i16>) -> i16 {
    match rssi {
        Some(r) => r,
        None => NO_RSSI,
    }
}

fn strength_of(rssi: Option<i16>) -> (r: i16)
    ensures
        r == strength(rssi),
{
    match rssi {
        Some(r) => r,
        None => NO_RSSI,
    }
}

/// Whether the peripheral found at `a` comes before the one at `b`: the stronger first, and the
/// one found first among equals.
pub open spec fn comes_before(rssi: Seq<Option<i16>>, a: int, b: int) -> bool {
    strength(rssi[a]) > strength(rssi[b]) || (strength(rssi[a]) == strength(rssi[b]) && a < b)
}

/// Whether these are the numbers of the peripherals, strongest first.
pub open spec fn is_strongest_first(rssi: Seq<Option<i16>>, order: Seq<usize>) -> bool {
    &&& order.len() == rssi.len()
    &&& forall|i: int| 0 <= i < order.len() ==> #[trigger] order[i] < rssi.len()
    &&& forall|v: int| 0 <= v < rssi.len() ==> #[trigger] order.contains(v as usize)
    &&& forall|i: int, j: int|
        0 <= i < j < order.len() ==> #[trigger] comes_before(
            rssi,
            order[i] as int,
            order[j] as int,
        )
}

/// The order in which to offer the peripherals found, strongest signal first: with two units on a
/// desk, this is the one in your hand.
pub fn strongest_first(rssi: &[Option<i16>]) -> (order: Vec<usize>)
    ensures
        is_strongest_first(rssi@, order@),
{
    let mut order: Vec<usize> = Vec::new();
    for k in 0..rssi.len()
        invariant
            order@.len() == k,
            forall|i: int| 0 <= i < k ==> #[trigger] order@[i] < k,
            forall|v: int| 0 <= v < k ==> #[trigger] order@.contains(v as usize),
            forall|i: int, j: int|
                0 <= i < j < k ==> #[trigger] comes_before(
                    rssi@,
                    order@[i] as int,
                    order@[j] as int,
                ),
    {
        let mut at: usize = order.len();
        while at > 0 && strength_of(rssi[order[at - 1]]) < strength_of(rssi[k])
            invariant
                k < rssi.len(),
                at <= k,
                order@.len() == k,
                forall|i: int| 0 <= i < k ==> #[trigger] order@[i] < k,
                forall|i: int|
                    at <= i < k ==> strength(#[trigger] rssi@[order@[i] as int]) < strength(
                        rssi@[k as int],
                    ),
            ensures
                at > 0 ==> strength(rssi@[order@[at - 1] as int]) >= strength(rssi@[k as int]),
            decreases at,
        {
            at = at - 1;
        }
        let ghost before = order@;
        order.insert(at, k);
        proof {
            assert(order@[at as int] == k);
            assert forall|i: int| 0 <= i < k + 1 implies #[trigger] order@[i] < k + 1 by {
                if i < at {
                    assert(order@[i] == before[i]);
                } else if i > at {
                    assert(order@[i] == before[i - 1]);
                }
            }
            assert forall|v: int| 0 <= v < k + 1 implies #[trigger] order@.contains(
                v as usize,
            ) by {
                if v < k {
                    assert(before.contains(v as usize));
                    let i = choose|i: int| 0 <= i < before.len() && before[i] == v as usize;
                    if i < at {
                        assert(order@[i] == v as usize);
                    } else {
                        assert(order@[i + 1] == v as usize);
                    }
                }
            }
            assert forall|i: int, j: int| 0 <= i < j < k + 1 implies #[trigger] comes_before(
                rssi@,
                order@[i] as int,
                order@[j] as int,
            ) by {
                let a = if i < at {
                    i
                } else {
                    i - 1
                };
                let b = if j < at {
                    j
                } else {
                    j - 1
                };
                if i != at && j != at {
                    assert(comes_before(rssi@, before[a] as int, before[b] as int));
                } else if j == at {
                    if i < at - 1 {
                        assert(comes_before(rssi@, before[i] as int, before[at - 1] as int));
                    }
                    assert(before[i] < k);
                } else {
                    assert(before[b] < k);
                    assert(strength(rssi@[before[b] as int]) < strength(rssi@[k as int]));
                }
            }
        }
    }
    order
}

/// The characteristics that a connection uses, as places in the list that was offered.
#[derive(Debug, Clone, Copy, PartialEq, Eq, Structural)]
pub struct Characteristics {
    pub write: usize,
    /// Carries every control reply and the whole voice stream, so a connection needs it.
    pub control: usize,
    /// Without it only file transfers are lost.
    pub file: Option<usize>,
}

/// The first place of a short UUID.
pub open spec fn first_place(ids: Seq<Option<u16>>, id: u16) -> Option<usize>
    decreases ids.len(),
{
    if ids.len() == 0 {
        None
    } else {
        match first_place(ids.drop_last(), id) {
            Some(at) => Some(at),
            None => if ids.last() == Some(id) {
                Some((ids.len() - 1) as usize)
            } else {
                None
            },
        }
    }
}

fn place_of(ids: &[Option<u16>], id: u16) -> (r: Option<usize>)
    ensures
        r == first_place(ids@, id),
{
    let mut found: Option<usize> = None;
    assert(ids@.take(0) =~= Seq::empty());
    for i in 0..ids.len()
        invariant
            found == first_place(ids@.take(i as int), id),
    {
        assert(ids@.take(i + 1).drop_last() =~= ids@.take(i as int));
        if found.is_none() {
            if let Some(short) = ids[i] {
                if short == id {
                    found = Some(i);
                }
            }
        }
    }
    assert(ids@.take(ids@.len() as int) =~= ids@);
    found
}

/// Which characteristics to use, given the names and the short UUIDs of those that a peripheral
/// exposes. Nothing if it cannot be driven, or lacks the write or the control characteristic.
pub fn choose_characteristics(names: &[&str], ids: &[Option<u16>]) -> (r: Option<Characteristics>)
    ensures
        r == (match (first_place(ids@, WRITE_ID), first_place(ids@, CONTROL_ID)) {
            (Some(write), Some(control)) => if drivable(names@) {
                Some(Characteristics { write, control, file: first_place(ids@, FILE_ID) })
            } else {
                None
            },
            _ => None,
        }),
{
    if !gatt::is_drivable(names) {
        return None;
    }
    match (place_of(ids, WRITE_ID), place_of(ids, CONTROL_ID)) {
        (Some(write), Some(control)) => Some(
            Characteristics { write, control, file: place_of(ids, FILE_ID) },
        ),
        _ => None,
    }
}

/// A write characteristic and a notify.
pub open spec fn drivable(names: Seq<&str>) -> bool {
    gatt::offers(names, gatt::WRITE@) && (gatt::offers(names, gatt::CONTROL_NOTIFY@)
        || gatt::offers(names, gatt::FILE_NOTIFY@))
}

// ---- the notification pump ------------------------------------------------------------

/// Routes both notify characteristics through their decoders.
///
/// `AA14` goes to a [`Parser`], which owns the voice state machine. `AA15` goes to a
/// [`FileReassembler`]. They are separate because they are separate framings: feeding one channel's
/// bytes to the other's decoder is how a picture that happens to contain `AC 55` becomes a phantom
/// control frame.
#[derive(Debug)]
pub struct Pump {
    parser: Parser,
    files: FileReassembler,
}

/// The state of a [`Pump`].
#[verifier::ext_equal]
pub struct PumpView {
    pub parser: ParserView,
    pub files: ReassemblerView,
}

impl View for Pump {
    type V = PumpView;

    closed spec fn view(&self) -> PumpView {
        PumpView { parser: self.parser@, files: self.files@ }
    }
}

/// What a notification does, and the events it gives.
pub open spec fn routed(p: PumpView, id: Option<u16>, value: Seq<u8>) -> (
    PumpView,
    Seq<GlassesEventView>,
) {
    if id == Some(CONTROL_ID) {
        let (parser, events) = parser::after_push(p.parser, value);
        (
            PumpView { parser, ..p },
            events.map_values(|e: DeviceEventView| GlassesEventView::Device(e)),
        )
    } else if id == Some(FILE_ID) {
        let (files, events) = reassembly::after_push(p.files, value);
        (
            PumpView { files, ..p },
            events.map_values(|e: FileEventView| GlassesEventView::File(e)),
        )
    } else {
        (p, Seq::empty())
    }
}

impl Pump {
    pub closed spec fn wf(&self) -> bool {
        self.parser.wf() && self.files.wf()
    }

    pub fn new() -> (p: Self)
        ensures
            p.wf(),
            p@.parser == parser::fresh(),
            p@.files == (ReassemblerView { buffer: Seq::empty(), transfer: None }),
    {
        Pump { parser: Parser::new(), files: FileReassembler::new() }
    }

    /// Feed one notification of the characteristic with this short UUID. Nothing but the two is
    /// subscribed, so nothing else should arrive.
    pub fn route(&mut self, id: Option<u16>, value: &[u8]) -> (events: Vec<GlassesEvent>)
        requires
            old(self).wf(),
        ensures
            final(self).wf(),
            (final(self)@, glasses_event_views(events@)) == routed(old(self)@, id, value@),
    {
        let mut out: Vec<GlassesEvent> = Vec::new();
        assert(glasses_event_views(out@) =~= Seq::empty());
        match id {
            Some(short) => {
                if short == CONTROL_ID {
                    let events = self.parser.push(value);
                    let ghost given = events@;
                    let ghost all = parser::event_views(given).map_values(
                        |e: DeviceEventView| GlassesEventView::Device(e),
                    );
                    for e in it: events.into_iter()
                        invariant
                            it.seq() == given,
                            all == parser::event_views(given).map_values(
                                |e: DeviceEventView| GlassesEventView::Device(e),
                            ),
                            glasses_event_views(out@) == all.take(it.index() as int),
                    {
                        let ghost n = it.index() as int;
                        let ghost before = glasses_event_views(out@);
                        out.push(GlassesEvent::Device(e));
                        assert(all[n] == GlassesEventView::Device(given[n]@));
                        assert(glasses_event_views(out@) =~= before.push(all[n]));
                        assert(all.take(n + 1) =~= all.take(n).push(all[n]));
                    }
                    assert(all.take(given.len() as int) =~= all);
                } else if short == FILE_ID {
                    let events = self.files.push(value);
                    let ghost given = events@;
                    let ghost all = reassembly::file_event_views(given).map_values(
                        |e: FileEventView| GlassesEventView::File(e),
                    );
                    for e in it: events.into_iter()
                        invariant
                            it.seq() == given,
                            all == reassembly::file_event_views(given).map_values(
                                |e: FileEventView| GlassesEventView::File(e),
                            ),
                            glasses_event_views(out@) == all.take(it.index() as int),
                    {
                        let ghost n = it.index() as int;
                        let ghost before = glasses_event_views(out@);
                        out.push(GlassesEvent::File(e));
                        assert(all[n] == GlassesEventView::File(given[n]@));
                        assert(glasses_event_views(out@) =~= before.push(all[n]));
                        assert(all.take(n + 1) =~= all.take(n).push(all[n]));
                    }
                    assert(all.take(given.len() as int) =~= all);
                }
            },
            None => {},
        }
        out
    }
}

// ---- the handshake --------------------------------------------------------------------

/// Everything the connection sequence reads back.
///
/// Every field is an `Option` on purpose: a handshake that times out half way is still worth what
/// it collected, and a `None` says which read did not answer.
#[derive(Debug, Clone)]
pub struct Handshake {
    /// `0x55`: bt / isp / hw firmware versions.
    pub versions: Option<Versions>,
    /// `0x64`: project name and customer code.
    pub identity: Option<Identity>,
    /// `0x17`: battery percentage and charge state.
    pub battery: Option<BatteryReading>,
    /// `0x95`: the capability word.
    pub capabilities: Option<Capabilities>,
    /// `0x71`: which voice features are on.
    pub voice_features: Option<VoiceFeatures>,
    /// `0x69`: the three volume channels.
    pub volumes: Option<Volumes>,
    /// The `0x48` burst, accumulated.
    pub switches: SwitchStates,
}

/// A [`Handshake`] as values: the latest event of each kind.
#[verifier::ext_equal]
pub struct HandshakeView {
    pub versions: Option<DeviceEventView>,
    pub identity: Option<DeviceEventView>,
    pub battery: Option<DeviceEventView>,
    pub capabilities: Option<DeviceEventView>,
    pub voice_features: Option<DeviceEventView>,
    pub volumes: Option<DeviceEventView>,
    pub switches: Settings,
}

/// Nothing answered.
pub open spec fn unanswered() -> HandshakeView {
    HandshakeView {
        versions: None,
        identity: None,
        battery: None,
        capabilities: None,
        voice_features: None,
        volumes: None,
        switches: parser::no_settings(),
    }
}

/// What an event adds to a handshake.
pub open spec fn answered(h: HandshakeView, e: DeviceEventView) -> HandshakeView {
    let h = HandshakeView { switches: parser::after_ingest(h.switches, e), ..h };
    match e {
        DeviceEventView::Versions { .. } => HandshakeView { versions: Some(e), ..h },
        DeviceEventView::Identity { .. } => HandshakeView { identity: Some(e), ..h },
        DeviceEventView::Battery(_) => HandshakeView { battery: Some(e), ..h },
        DeviceEventView::Capabilities(_) => HandshakeView { capabilities: Some(e), ..h },
        DeviceEventView::VoiceFeatures(_) => HandshakeView { voice_features: Some(e), ..h },
        DeviceEventView::Volumes(_) => HandshakeView { volumes: Some(e), ..h },
        _ => h,
    }
}

/// Every read answered.
pub open spec fn all_answered(h: HandshakeView) -> bool {
    &&& h.versions is Some
    &&& h.identity is Some
    &&& h.battery is Some
    &&& h.capabilities is Some
    &&& h.voice_features is Some
    &&& h.volumes is Some
    &&& parser::complete(h.switches)
}

impl View for Handshake {
    type V = HandshakeView;

    open spec fn view(&self) -> HandshakeView {
        HandshakeView {
            versions: match self.versions {
                Some(v) => Some(DeviceEvent::Versions(v)@),
                None => None,
            },
            identity: match self.identity {
                Some(i) => Some(DeviceEvent::Identity(i)@),
                None => None,
            },
            battery: match self.battery {
                Some(b) => Some(DeviceEvent::Battery(b)@),
                None => None,
            },
            capabilities: match self.capabilities {
                Some(c) => Some(DeviceEvent::Capabilities(c)@),
                None => None,
            },
            voice_features: match self.voice_features {
                Some(v) => Some(DeviceEvent::VoiceFeatures(v)@),
                None => None,
            },
            volumes: match self.volumes {
                Some(v) => Some(DeviceEvent::Volumes(v)@),
                None => None,
            },
            switches: self.switches@,
        }
    }
}

impl Default for Handshake {
    fn default() -> (h: Self)
        ensures
            h@ == unanswered(),
    {
        Handshake {
            versions: None,
            identity: None,
            battery: None,
            capabilities: None,
            voice_features: None,
            volumes: None,
            switches: SwitchStates::new(),
        }
    }
}

/// What to do next in a handshake.
#[derive(Debug, Clone, Copy, PartialEq, Eq, Structural)]
pub enum HandshakeStep {
    /// Wait for the next event.
    Wait,
    /// It is over: every read answered, or the time is up.
    Done,
    /// The link dropped.
    Lost,
}

impl Handshake {
    /// Whether every read answered.
    pub fn is_complete(&self) -> (b: bool)
        ensures
            b == all_answered(self@),
    {
        self.versions.is_some() && self.identity.is_some() && self.battery.is_some()
            && self.capabilities.is_some() && self.voice_features.is_some()
            && self.volumes.is_some() && self.switches.is_complete()
    }

    /// Fold one event in.
    pub fn ingest(&mut self, event: DeviceEvent)
        ensures
            final(self)@ == answered(old(self)@, event@),
    {
        self.switches.ingest(&event);
        match event {
            DeviceEvent::Versions(v) => {
                self.versions = Some(v);
            },
            DeviceEvent::Identity(i) => {
                self.identity = Some(i);
            },
            DeviceEvent::Battery(b) => {
                self.battery = Some(b);
            },
            DeviceEvent::Capabilities(c) => {
                self.capabilities = Some(c);
            },
            DeviceEvent::VoiceFeatures(v) => {
                self.voice_features = Some(v);
            },
            DeviceEvent::Volumes(v) => {
                self.volumes = Some(v);
            },
            _ => {},
        }
    }

    /// Take in what waiting came to, and say what to do next.
    pub fn step(&mut self, signal: Signal) -> (next: HandshakeStep)
        ensures
            final(self)@ == (match signal@ {
                SignalView::Event(GlassesEventView::Device(e)) => answered(old(self)@, e),
                _ => old(self)@,
            }),
            next == (match signal@ {
                SignalView::Event(GlassesEventView::Device(e)) => if all_answered(
                    answered(old(self)@, e),
                ) {
                    HandshakeStep::Done
                } else {
                    HandshakeStep::Wait
                },
                SignalView::TimedOut => HandshakeStep::Done,
                _ => if link_lost(signal@) {
                    HandshakeStep::Lost
                } else {
                    HandshakeStep::Wait
                },
            }),
    {
        match signal {
            Signal::Event(GlassesEvent::Device(e)) => {
                self.ingest(e);
                if self.is_complete() {
                    HandshakeStep::Done
                } else {
                    HandshakeStep::Wait
                }
            },
            Signal::Event(GlassesEvent::Disconnected) => HandshakeStep::Lost,
            Signal::Closed => HandshakeStep::Lost,
            Signal::TimedOut => HandshakeStep::Done,
            _ => HandshakeStep::Wait,
        }
    }
}

/// The reads of the connection sequence.
pub open spec fn reads() -> Seq<AppCommand> {
    seq![
        AppCommand::GetVersions,
        AppCommand::GetProjectName,
        AppCommand::GetBattery,
        AppCommand::GetDeviceStatus,
        AppCommand::GetSwitchStates,
        AppCommand::GetVolumes,
        AppCommand::GetCapabilities,
        AppCommand::GetVoiceDisableState,
    ]
}

/// The frames of the connection sequence's reads, in the order to write them.
pub fn handshake_reads() -> (frames: Vec<Vec<u8>>)
    ensures
        frames@.len() == reads().len(),
        forall|i: int|
            0 <= i < frames@.len() ==> (#[trigger] frames@[i])@ == commands::command_bytes(
                reads()[i],
                Seq::empty(),
            ),
{
    let mut frames: Vec<Vec<u8>> = Vec::new();
    frames.push(commands::get_versions());
    frames.push(commands::get_project_name());
    frames.push(commands::get_battery());
    frames.push(commands::get_device_status());
    frames.push(commands::get_switch_states());
    frames.push(commands::get_volumes());
    frames.push(commands::get_capabilities());
    frames.push(commands::get_voice_disable_state());
    frames
}

/// The frames of the connection sequence, in the order to write them: the reads, and after them the
/// phone's wall clock.
pub fn handshake_writes(
    year: u16,
    month: u8,
    day: u8,
    hour: u8,
    minute: u8,
    second: u8,
) -> (frames: Vec<Vec<u8>>)
    ensures
        frames@.len() == reads().len() + 1,
        forall|i: int|
            0 <= i < reads().len() ==> (#[trigger] frames@[i])@ == commands::command_bytes(
                reads()[i],
                Seq::empty(),
            ),
        frames@.last()@ == commands::command_bytes(
            AppCommand::SendPhoneTime,
            seq![(year % 100) as u8, month, day, hour, minute, second],
        ),
{
    let mut frames = handshake_reads();
    frames.push(commands::send_phone_time(year, month, day, hour, minute, second));
    frames
}

// ---- photo and Wi-Fi ------------------------------------------------------------------

/// What to do next while waiting for the AI image.
#[derive(Debug, PartialEq, Eq)]
pub enum PhotoStep {
    /// Wait for the next event.
    Wait,
    /// The image.
    Image(Vec<u8>),
    Failed(BleError),
}

/// A failure of the AI image.
pub open spec fn image_failure(detail: Seq<char>) -> BleErrorView {
    BleErrorView::Gatt { operation: "AI image"@, detail }
}

/// What waiting for the AI image came to.
pub fn photo_step(signal: Signal, budget: u64) -> (next: PhotoStep)
    ensures
        match next {
            PhotoStep::Image(data) => signal@ matches SignalView::Event(
                GlassesEventView::File(FileEventView::Completed { data: image, .. }),
            ) && data@ == image,
            PhotoStep::Failed(e) => match signal@ {
                SignalView::Event(GlassesEventView::File(FileEventView::Aborted(_))) => e@
                    == image_failure("the transfer aborted"@),
                SignalView::Event(GlassesEventView::Device(DeviceEventView::HdImageFailed)) => e@
                    == image_failure("the device reported 0x52, image failed"@),
                SignalView::TimedOut => e@ == (BleErrorView::Timeout {
                    waiting_for: "the AI image"@,
                    after: budget,
                }),
                _ => link_lost(signal@) && e@ == BleErrorView::Disconnected,
            },
            PhotoStep::Wait => match signal@ {
                SignalView::Event(GlassesEventView::File(e)) => !(e is Completed) && !(
                e is Aborted),
                SignalView::Event(GlassesEventView::Device(e)) => e
                    != DeviceEventView::HdImageFailed,
                _ => signal@ is Lagged,
            },
        },
{
    match signal {
        Signal::Event(GlassesEvent::File(FileEvent::Completed(file))) => PhotoStep::Image(
            file.data,
        ),
        Signal::Event(GlassesEvent::File(FileEvent::Aborted(_))) => PhotoStep::Failed(
            BleError::Gatt {
                operation: String::from_str("AI image"),
                detail: String::from_str("the transfer aborted"),
            },
        ),
        Signal::Event(GlassesEvent::Device(DeviceEvent::HdImageFailed)) => PhotoStep::Failed(
            BleError::Gatt {
                operation: String::from_str("AI image"),
                detail: String::from_str("the device reported 0x52, image failed"),
            },
        ),
        Signal::Event(GlassesEvent::Disconnected) => PhotoStep::Failed(BleError::Disconnected),
        Signal::Closed => PhotoStep::Failed(BleError::Disconnected),
        Signal::TimedOut => PhotoStep::Failed(
            BleError::Timeout { waiting_for: String::from_str("the AI image"), after: budget },
        ),
        _ => PhotoStep::Wait,
    }
}

/// What to do next while waiting for the SSID.
#[derive(Debug, PartialEq, Eq)]
pub enum WifiStep {
    /// Wait for the next event.
    Wait,
    /// The SSID. The access point is up but not ready: wait [`timing::SSID_SETTLE`] before use.
    Joinable(String),
    Failed(BleError),
}

/// What waiting for the SSID came to.
pub fn wifi_step(signal: Signal, budget: u64) -> (next: WifiStep)
    ensures
        match next {
            WifiStep::Joinable(ssid) => signal@ == SignalView::Event(
                GlassesEventView::Device(DeviceEventView::WifiCredentials { ssid: ssid@ }),
            ),
            WifiStep::Failed(e) => match signal@ {
                SignalView::TimedOut => e@ == (BleErrorView::Timeout {
                    waiting_for: "the SSID (0x25)"@,
                    after: budget,
                }),
                _ => link_lost(signal@) && e@ == BleErrorView::Disconnected,
            },
            WifiStep::Wait => match signal@ {
                SignalView::Event(GlassesEventView::Device(e)) => !(e is WifiCredentials),
                _ => signal@ is Lagged || signal@ matches SignalView::Event(
                    GlassesEventView::File(_),
                ),
            },
        },
{
    match signal {
        Signal::Event(GlassesEvent::Device(DeviceEvent::WifiCredentials(c))) => WifiStep::Joinable(
            c.ssid,
        ),
        Signal::Event(GlassesEvent::Disconnected) => WifiStep::Failed(BleError::Disconnected),
        Signal::Closed => WifiStep::Failed(BleError::Disconnected),
        Signal::TimedOut => WifiStep::Failed(
            BleError::Timeout { waiting_for: String::from_str("the SSID (0x25)"), after: budget },
        ),
        _ => WifiStep::Wait,
    }
}

// ---- voice ----------------------------------------------------------------------------

/// What to do next in a wake-word capture.
#[derive(Debug, Clone, Copy, PartialEq, Eq, Structural)]
pub enum CaptureStep {
    /// A packet came: the silence begins anew.
    Heard,
    /// Something else came: listen on.
    Listen,
    /// The capture is over. Close the microphone, which nothing else does: write the frames of
    /// [`microphone_close_writes`].
    Close,
    /// The link dropped, and there is none left to close the microphone on.
    Lost,
}

/// The frames that close the microphone: `0x56` twice, to be written
/// [`timing::VOICE_INTERRUPT_REPEAT_GAP`] milliseconds apart.
pub fn microphone_close_writes() -> (frames: Vec<Vec<u8>>)
    ensures
        frames@.len() == 2,
        forall|i: int|
            0 <= i < frames@.len() ==> (#[trigger] frames@[i])@ == commands::command_bytes(
                AppCommand::InterruptVoice,
                Seq::empty(),
            ),
{
    let mut frames: Vec<Vec<u8>> = Vec::new();
    frames.push(commands::interrupt_voice());
    frames.push(commands::interrupt_voice());
    frames
}

/// What a signal means to a capture.
pub open spec fn capture_step_of(s: SignalView) -> CaptureStep {
    match s {
        SignalView::Event(GlassesEventView::Device(DeviceEventView::Voice(v))) => if v is Packet {
            CaptureStep::Heard
        } else if v is Ended {
            CaptureStep::Close
        } else {
            CaptureStep::Listen
        },
        SignalView::TimedOut => CaptureStep::Close,
        _ => if link_lost(s) {
            CaptureStep::Lost
        } else {
            CaptureStep::Listen
        },
    }
}

/// The packets of one capture, as values.
pub open spec fn packet_views(packets: Seq<VoicePacket>) -> Seq<VoiceEventView> {
    packets.map_values(|p: VoicePacket| VoiceEvent::Packet(p)@)
}

/// Take in what listening came to: a packet is added to those collected.
pub fn capture_step(packets: &mut Vec<VoicePacket>, signal: Signal) -> (next: CaptureStep)
    ensures
        next == capture_step_of(signal@),
        packet_views(final(packets)@) == (match signal@ {
            SignalView::Event(GlassesEventView::Device(DeviceEventView::Voice(v))) => if v is Packet {
                packet_views(old(packets)@).push(v)
            } else {
                packet_views(old(packets)@)
            },
            _ => packet_views(old(packets)@),
        }),
{
    match signal {
        Signal::Event(GlassesEvent::Device(DeviceEvent::Voice(VoiceEvent::Packet(p)))) => {
            packets.push(p);
            assert(packet_views(packets@) =~= packet_views(old(packets)@).push(
                VoiceEvent::Packet(p)@,
            ));
            CaptureStep::Heard
        },
        Signal::Event(GlassesEvent::Device(DeviceEvent::Voice(VoiceEvent::Ended(_)))) => {
            CaptureStep::Close
        },
        Signal::Event(GlassesEvent::Disconnected) => CaptureStep::Lost,
        Signal::Closed => CaptureStep::Lost,
        Signal::TimedOut => CaptureStep::Close,
        _ => CaptureStep::Listen,
    }
}

/// How long to listen before the capture is over, if it is not: until `idle_gap` has passed since
/// the last `0x46`, or `hard_cap` since the capture began, whichever comes first.
pub fn listen_window(idle_gap: u64, hard_cap: u64, since_voice: u64, since_start: u64) -> (r:
    Option<u64>)
    ensures
        r is Some <==> since_voice < idle_gap && since_start < hard_cap,
        r matches Some(window) ==> {
            &&& since_voice + window <= idle_gap
            &&& since_start + window <= hard_cap
            &&& since_voice + window == idle_gap || since_start + window == hard_cap
        },
{
    if since_voice >= idle_gap || since_start >= hard_cap {
        return None;
    }
    let idle: u64 = idle_gap - since_voice;
    let left: u64 = hard_cap - since_start;
    Some(
        if idle < left {
            idle
        } else {
            left
        },
    )
}

// ---- laws -----------------------------------------------------------------------------

/// What a sequence of events adds to a handshake.
pub open spec fn after_answers(h: HandshakeView, events: Seq<DeviceEventView>) -> HandshakeView
    decreases events.len(),
{
    if events.len() == 0 {
        h
    } else {
        answered(after_answers(h, events.drop_last()), events.last())
    }
}

/// Whether the answer to every read, the whole burst among them, is in the events.
pub open spec fn answers_every_read(events: Seq<DeviceEventView>) -> bool {
    &&& exists|i: int| 0 <= i < events.len() && #[trigger] events[i] is Versions
    &&& exists|i: int| 0 <= i < events.len() && #[trigger] events[i] is Identity
    &&& exists|i: int| 0 <= i < events.len() && #[trigger] events[i] is Battery
    &&& exists|i: int| 0 <= i < events.len() && #[trigger] events[i] is Capabilities
    &&& exists|i: int| 0 <= i < events.len() && #[trigger] events[i] is VoiceFeatures
    &&& exists|i: int| 0 <= i < events.len() && #[trigger] events[i] is Volumes
    &&& parser::full_burst(events)
}

/// A handshake is complete once the answer to every read has come, in whatever order and with
/// whatever else between them. No `0x48` frame is among what it waits for.
pub proof fn lemma_answers_complete_a_handshake(h: HandshakeView, events: Seq<DeviceEventView>)
    requires
        answers_every_read(events),
    ensures
        all_answered(after_answers(h, events)),
{
    lemma_handshake_switches(h, events);
    parser::lemma_full_burst_completes(h.switches, events);
    let i = choose|i: int| 0 <= i < events.len() && #[trigger] events[i] is Versions;
    lemma_answer_counts(h, events, i);
    let i = choose|i: int| 0 <= i < events.len() && #[trigger] events[i] is Identity;
    lemma_answer_counts(h, events, i);
    let i = choose|i: int| 0 <= i < events.len() && #[trigger] events[i] is Battery;
    lemma_answer_counts(h, events, i);
    let i = choose|i: int| 0 <= i < events.len() && #[trigger] events[i] is Capabilities;
    lemma_answer_counts(h, events, i);
    let i = choose|i: int| 0 <= i < events.len() && #[trigger] events[i] is VoiceFeatures;
    lemma_answer_counts(h, events, i);
    let i = choose|i: int| 0 <= i < events.len() && #[trigger] events[i] is Volumes;
    lemma_answer_counts(h, events, i);
}

/// The settings of a handshake are those that the events report.
proof fn lemma_handshake_switches(h: HandshakeView, events: Seq<DeviceEventView>)
    ensures
        after_answers(h, events).switches == parser::after_ingests(h.switches, events),
    decreases events.len(),
{
    if events.len() > 0 {
        lemma_handshake_switches(h, events.drop_last());
    }
}

/// An answer among others is kept.
proof fn lemma_answer_counts(h: HandshakeView, events: Seq<DeviceEventView>, i: int)
    requires
        0 <= i < events.len(),
    ensures
        ({
            let t = after_answers(h, events);
            &&& events[i] is Versions ==> t.versions is Some
            &&& events[i] is Identity ==> t.identity is Some
            &&& events[i] is Battery ==> t.battery is Some
            &&& events[i] is Capabilities ==> t.capabilities is Some
            &&& events[i] is VoiceFeatures ==> t.voice_features is Some
            &&& events[i] is Volumes ==> t.volumes is Some
        }),
    decreases events.len(),
{
    if i < events.len() - 1 {
        lemma_answer_counts(h, events.drop_last(), i);
    }
}

// ---- what the pieces decide ----------------------------------------------------------------

/// The order of the peripherals: every one of them once, a stronger signal before a weaker one, no
/// signal taken as -127, and the one that was seen first before an equally strong one.
pub proof fn lemma_the_order_of_peripherals(
    rssi: Seq<Option<i16>>,
    order: Seq<usize>,
    i: int,
    j: int,
)
    requires
        is_strongest_first(rssi, order),
        0 <= i < j < order.len(),
    ensures
        order.len() == rssi.len(),
        order[i] != order[j],
        order[i] < rssi.len(),
        order[j] < rssi.len(),
        ({
            let a = match rssi[order[i] as int] {
                Some(r) => r as int,
                None => -127,
            };
            let b = match rssi[order[j] as int] {
                Some(r) => r as int,
                None => -127,
            };
            a > b || a == b && order[i] < order[j]
        }),
{
    assert(comes_before(rssi, order[i] as int, order[j] as int));
}

/// A characteristic is the first that has its number.
pub proof fn lemma_which_characteristic_is_taken(ids: Seq<Option<u16>>, id: u16)
    requires
        ids.len() <= usize::MAX,
    ensures
        match first_place(ids, id) {
            Some(at) => at < ids.len() && ids[at as int] == Some(id) && forall|k: int|
                0 <= k < at ==> #[trigger] ids[k] != Some(id),
            None => forall|k: int| 0 <= k < ids.len() ==> #[trigger] ids[k] != Some(id),
        },
    decreases ids.len(),
{
    if ids.len() > 0 {
        let before = ids.drop_last();
        lemma_which_characteristic_is_taken(before, id);
        assert forall|k: int| 0 <= k < before.len() implies #[trigger] ids[k] == before[k] by {}
        match first_place(before, id) {
            Some(at) => {
                assert(ids[at as int] == before[at as int]);
            },
            None => {
                assert forall|k: int| 0 <= k < before.len() implies #[trigger] ids[k] != Some(
                    id,
                ) by {
                    assert(before[k] != Some(id));
                }
            },
        }
    }
}

/// A device can be driven when one of its characteristics has `AA13` in its name and one has `AA14`
/// or `AA15`, in upper or lower case.
pub proof fn lemma_what_can_be_driven(names: Seq<&str>)
    ensures
        drivable(names) <==> {
            &&& exists|i: int|
                0 <= i < names.len() && crate::text::occurs(
                    "AA13"@,
                    crate::text::upper_text((#[trigger] names[i])@),
                )
            &&& exists|i: int|
                0 <= i < names.len() && (crate::text::occurs(
                    "AA14"@,
                    crate::text::upper_text((#[trigger] names[i])@),
                ) || crate::text::occurs("AA15"@, crate::text::upper_text(names[i]@)))
        },
{
    let a = exists|i: int|
        0 <= i < names.len() && crate::text::occurs("AA13"@, crate::text::upper_text((#[trigger] names[i])@));
    let b = exists|i: int|
        0 <= i < names.len() && (crate::text::occurs("AA14"@, crate::text::upper_text((#[trigger] names[i])@))
            || crate::text::occurs("AA15"@, crate::text::upper_text(names[i]@)));
    assert(gatt::offers(names, gatt::WRITE@) == a);
    if b {
        let i = choose|i: int|
            0 <= i < names.len() && (crate::text::occurs("AA14"@, crate::text::upper_text((#[trigger] names[i])@))
                || crate::text::occurs("AA15"@, crate::text::upper_text(names[i]@)));
        if crate::text::occurs("AA14"@, crate::text::upper_text(names[i]@)) {
            assert(gatt::offers(names, gatt::CONTROL_NOTIFY@));
        } else {
            assert(gatt::offers(names, gatt::FILE_NOTIFY@));
        }
    }
    if gatt::offers(names, gatt::CONTROL_NOTIFY@) {
        let i = choose|i: int|
            0 <= i < names.len() && crate::text::occurs(
                gatt::CONTROL_NOTIFY@,
                crate::text::upper_text((#[trigger] names[i])@),
            );
        assert(b);
    }
    if gatt::offers(names, gatt::FILE_NOTIFY@) {
        let i = choose|i: int|
            0 <= i < names.len() && crate::text::occurs(
                gatt::FILE_NOTIFY@,
                crate::text::upper_text((#[trigger] names[i])@),
            );
        assert(b);
    }
}

/// What comes on `AA14` goes to the parser, what comes on `AA15` to the reassembler, and what comes
/// on any other characteristic nowhere. Every event comes out, in order, and the other side is left
/// alone.
pub proof fn lemma_where_a_notification_goes(p: PumpView, id: Option<u16>, value: Seq<u8>, i: int)
    ensures
        ({
            let (after, events) = routed(p, Some(0xAA14), value);
            let (parser, own) = parser::after_push(p.parser, value);
            &&& after.parser == parser
            &&& after.files == p.files
            &&& events.len() == own.len()
            &&& 0 <= i < own.len() ==> events[i] == GlassesEventView::Device(own[i])
        }),
        ({
            let (after, events) = routed(p, Some(0xAA15), value);
            let (files, own) = reassembly::after_push(p.files, value);
            &&& after.files == files
            &&& after.parser == p.parser
            &&& events.len() == own.len()
            &&& 0 <= i < own.len() ==> events[i] == GlassesEventView::File(own[i])
        }),
        id != Some(0xAA14u16) && id != Some(0xAA15u16) ==> routed(p, id, value) == (
            p,
            Seq::<GlassesEventView>::empty(),
        ),
{
}

/// Each answer is kept under its own name, the latest one, and the settings are taken in beside
/// them. No other event changes an answer.
pub proof fn lemma_each_answer_is_kept(h: HandshakeView, e: DeviceEventView)
    ensures
        ({
            let u = answered(h, e);
            &&& u.versions == (if e is Versions {
                Some(e)
            } else {
                h.versions
            })
            &&& u.identity == (if e is Identity {
                Some(e)
            } else {
                h.identity
            })
            &&& u.battery == (if e is Battery {
                Some(e)
            } else {
                h.battery
            })
            &&& u.capabilities == (if e is Capabilities {
                Some(e)
            } else {
                h.capabilities
            })
            &&& u.voice_features == (if e is VoiceFeatures {
                Some(e)
            } else {
                h.voice_features
            })
            &&& u.volumes == (if e is Volumes {
                Some(e)
            } else {
                h.volumes
            })
            &&& u.switches == parser::after_ingest(h.switches, e)
        }),
{
}

/// A handshake is complete when all six replies and all settings have come, and only then. At first
/// none has.
pub proof fn lemma_when_a_handshake_is_complete(h: HandshakeView)
    ensures
        all_answered(h) <==> {
            &&& h.versions is Some
            &&& h.identity is Some
            &&& h.battery is Some
            &&& h.capabilities is Some
            &&& h.voice_features is Some
            &&& h.volumes is Some
            &&& parser::complete(h.switches)
        },
        unanswered().versions is None,
        unanswered().identity is None,
        unanswered().battery is None,
        unanswered().capabilities is None,
        unanswered().voice_features is None,
        unanswered().volumes is None,
        unanswered().switches == parser::no_settings(),
{
}

/// The reads of the connection sequence by their bytes.
pub proof fn lemma_the_reads_by_byte()
    ensures
        reads().map_values(|c: AppCommand| c.code()) == seq![
            0x55u8,
            0x64,
            0x17,
            0x45,
            0x48,
            0x69,
            0x95,
            0x71,
        ],
{
    assert(reads().map_values(|c: AppCommand| c.code()) =~= seq![
        0x55u8,
        0x64,
        0x17,
        0x45,
        0x48,
        0x69,
        0x95,
        0x71,
    ]);
}

/// A capture goes on with every packet, closes when the voice ends or nothing more comes, and is
/// lost with the link. Everything else leaves it listening.
pub proof fn lemma_what_a_capture_does(s: SignalView, v: VoiceEventView)
    ensures
        ({
            let voice = SignalView::Event(GlassesEventView::Device(DeviceEventView::Voice(v)));
            &&& v is Packet ==> capture_step_of(voice) == CaptureStep::Heard
            &&& v is Ended ==> capture_step_of(voice) == CaptureStep::Close
            &&& !(v is Packet) && !(v is Ended) ==> capture_step_of(voice) == CaptureStep::Listen
        }),
        capture_step_of(SignalView::TimedOut) == CaptureStep::Close,
        capture_step_of(SignalView::Closed) == CaptureStep::Lost,
        capture_step_of(SignalView::Event(GlassesEventView::Disconnected)) == CaptureStep::Lost,
        capture_step_of(SignalView::Lagged) == CaptureStep::Listen,
        s matches SignalView::Event(GlassesEventView::Device(e)) ==> !(e is Voice)
            ==> capture_step_of(s) == CaptureStep::Listen,
        s matches SignalView::Event(GlassesEventView::File(_)) ==> capture_step_of(s)
            == CaptureStep::Listen,
{
}

/// The link is lost when the stream closes or a disconnect is reported, and only then.
pub proof fn lemma_when_the_link_is_lost(s: SignalView)
    ensures
        link_lost(s) <==> s == SignalView::Closed || s == SignalView::Event(
            GlassesEventView::Disconnected,
        ),
{
}

/// A signal, an event and a handshake show what they carry.
pub proof fn lemma_what_a_signal_shows(s: Signal, e: GlassesEvent, h: Handshake)
    ensures
        match s {
            Signal::Event(inner) => s@ == SignalView::Event(inner@),
            Signal::Lagged => s@ == SignalView::Lagged,
            Signal::Closed => s@ == SignalView::Closed,
            Signal::TimedOut => s@ == SignalView::TimedOut,
        },
        match e {
            GlassesEvent::Device(inner) => e@ == GlassesEventView::Device(inner@),
            GlassesEvent::File(inner) => e@ == GlassesEventView::File(inner@),
            GlassesEvent::Disconnected => e@ == GlassesEventView::Disconnected,
        },
        h@.versions == (match h.versions {
            Some(v) => Some(DeviceEvent::Versions(v)@),
            None => None,
        }),
        h@.identity == (match h.identity {
            Some(i) => Some(DeviceEvent::Identity(i)@),
            None => None,
        }),
        h@.battery == (match h.battery {
            Some(b) => Some(DeviceEvent::Battery(b)@),
            None => None,
        }),
        h@.capabilities == (match h.capabilities {
            Some(c) => Some(DeviceEvent::Capabilities(c)@),
            None => None,
        }),
        h@.voice_features == (match h.voice_features {
            Some(v) => Some(DeviceEvent::VoiceFeatures(v)@),
            None => None,
        }),
        h@.volumes == (match h.volumes {
            Some(v) => Some(DeviceEvent::Volumes(v)@),
            None => None,
        }),
        h@.switches == h.switches@,
{
}

// ---- what the operations give back -----------------------------------------------------------

/// A connection takes the first characteristic that has each number. It needs `AA13` and `AA14`;
/// `AA15` may be missing.
pub proof fn lemma_what_a_connection_takes(
    names: &[&str],
    ids: &[Option<u16>],
    r: Option<Characteristics>,
    k: int,
)
    requires
        ids@.len() <= usize::MAX,
    ensures
        call_ensures(choose_characteristics, (names, ids), r) ==> {
            &&& r is Some <==> drivable(names@) && ids@.contains(Some(0xAA13u16)) && ids@.contains(
                Some(0xAA14u16),
            )
            &&& r matches Some(c) ==> {
                &&& ids@[c.write as int] == Some(0xAA13u16)
                &&& ids@[c.control as int] == Some(0xAA14u16)
                &&& 0 <= k < c.write ==> ids@[k] != Some(0xAA13u16)
                &&& 0 <= k < c.control ==> ids@[k] != Some(0xAA14u16)
                &&& c.file is Some <==> ids@.contains(Some(0xAA15u16))
                &&& c.file matches Some(file) ==> ids@[file as int] == Some(0xAA15u16) && (0 <= k
                    < file ==> ids@[k] != Some(0xAA15u16))
            }
        },
{
    lemma_which_characteristic_is_taken(ids@, 0xAA13);
    lemma_which_characteristic_is_taken(ids@, 0xAA14);
    lemma_which_characteristic_is_taken(ids@, 0xAA15);
}

/// A handshake takes in every answer, is done when all are there or the time is up, and is lost
/// with the link.
pub proof fn lemma_how_a_handshake_goes_on(h: &mut Handshake, signal: Signal, next: HandshakeStep)
    ensures
        call_ensures(Handshake::step, (old(h), signal), next) ==> {
            &&& signal@ == SignalView::TimedOut ==> next == HandshakeStep::Done && final(h)@
                == old(h)@
            &&& signal@ == SignalView::Lagged ==> next == HandshakeStep::Wait && final(h)@
                == old(h)@
            &&& signal@ == SignalView::Closed || signal@ == SignalView::Event(
                GlassesEventView::Disconnected,
            ) ==> next == HandshakeStep::Lost && final(h)@ == old(h)@
            &&& signal@ matches SignalView::Event(GlassesEventView::File(_)) ==> next
                == HandshakeStep::Wait && final(h)@ == old(h)@
            &&& signal@ matches SignalView::Event(GlassesEventView::Device(e)) ==> final(h)@
                == answered(old(h)@, e) && next == if all_answered(final(h)@) {
                HandshakeStep::Done
            } else {
                HandshakeStep::Wait
            }
        },
{
}

/// The frames that a connection writes, by their bytes: eight reads, each without a payload, and
/// then the phone's time.
pub proof fn lemma_what_a_connection_writes(
    year: u16,
    month: u8,
    day: u8,
    hour: u8,
    minute: u8,
    second: u8,
    frames: Vec<Vec<u8>>,
    i: int,
)
    ensures
        ({
            let codes = seq![0x55u8, 0x64, 0x17, 0x45, 0x48, 0x69, 0x95, 0x71];
            &&& call_ensures(handshake_reads, (), frames) ==> frames@.len() == 8
            &&& call_ensures(handshake_reads, (), frames) && 0 <= i < 8 ==> commands::sends(
                frames@[i]@,
                codes[i],
                seq![0u8],
            )
            &&& call_ensures(handshake_writes, (year, month, day, hour, minute, second), frames)
                ==> frames@.len() == 9 && commands::sends(
                frames@[8]@,
                0x59,
                seq![(year % 100) as u8, month, day, hour, minute, second],
            )
            &&& call_ensures(handshake_writes, (year, month, day, hour, minute, second), frames)
                && 0 <= i < 8 ==> commands::sends(frames@[i]@, codes[i], seq![0u8])
        }),
{
    if 0 <= i < 8 {
        commands::lemma_sends(reads()[i], Seq::empty());
        lemma_the_reads_by_byte();
        let codes = seq![0x55u8, 0x64, 0x17, 0x45, 0x48, 0x69, 0x95, 0x71];
        assert(reads().map_values(|c: AppCommand| c.code())[i] == codes[i]);
    }
    commands::lemma_sends(
        AppCommand::SendPhoneTime,
        seq![(year % 100) as u8, month, day, hour, minute, second],
    );
}

/// Waiting for the image ends with the image, with a failure that says what happened, or goes on.
pub proof fn lemma_what_waiting_for_an_image_comes_to(
    signal: Signal,
    budget: u64,
    next: PhotoStep,
)
    ensures
        call_ensures(photo_step, (signal, budget), next) ==> match signal@ {
            SignalView::Event(GlassesEventView::File(e)) => match e {
                FileEventView::Completed { data, .. } => next matches PhotoStep::Image(image)
                    && image@ == data,
                FileEventView::Aborted(_) => next matches PhotoStep::Failed(f) && f@ == (
                BleErrorView::Gatt { operation: "AI image"@, detail: "the transfer aborted"@ }),
                _ => next is Wait,
            },
            SignalView::Event(GlassesEventView::Device(e)) => if e
                == DeviceEventView::HdImageFailed {
                next matches PhotoStep::Failed(f) && f@ == (BleErrorView::Gatt {
                    operation: "AI image"@,
                    detail: "the device reported 0x52, image failed"@,
                })
            } else {
                next is Wait
            },
            SignalView::Event(GlassesEventView::Disconnected) | SignalView::Closed => next
                matches PhotoStep::Failed(f) && f@ == BleErrorView::Disconnected,
            SignalView::Lagged => next is Wait,
            SignalView::TimedOut => next matches PhotoStep::Failed(f) && f@ == (
            BleErrorView::Timeout { waiting_for: "the AI image"@, after: budget }),
        },
{
}

/// Waiting for the network's name ends with the name, with a failure that says what happened, or
/// goes on.
pub proof fn lemma_what_waiting_for_a_network_comes_to(
    signal: Signal,
    budget: u64,
    next: WifiStep,
)
    ensures
        call_ensures(wifi_step, (signal, budget), next) ==> match signal@ {
            SignalView::Event(GlassesEventView::Device(e)) => match e {
                DeviceEventView::WifiCredentials { ssid } => next matches WifiStep::Joinable(s)
                    && s@ == ssid,
                _ => next is Wait,
            },
            SignalView::Event(GlassesEventView::Disconnected) | SignalView::Closed => next
                matches WifiStep::Failed(f) && f@ == BleErrorView::Disconnected,
            SignalView::TimedOut => next matches WifiStep::Failed(f) && f@ == (
            BleErrorView::Timeout { waiting_for: "the SSID (0x25)"@, after: budget }),
            _ => next is Wait,
        },
{
}

/// The microphone is closed by two interrupts, and a capture keeps every packet that it hears, in
/// order, and nothing else.
pub proof fn lemma_what_a_capture_keeps(
    packets: &mut Vec<VoicePacket>,
    signal: Signal,
    next: CaptureStep,
    frames: Vec<Vec<u8>>,
    v: VoiceEventView,
)
    ensures
        call_ensures(microphone_close_writes, (), frames) ==> frames@.len() == 2
            && commands::sends(frames@[0]@, 0x56, seq![0u8]) && commands::sends(
            frames@[1]@,
            0x56,
            seq![0u8],
        ),
        call_ensures(capture_step, (old(packets), signal), next) && signal@ == SignalView::Event(
            GlassesEventView::Device(DeviceEventView::Voice(v)),
        ) && v is Packet ==> packet_views(final(packets)@) == packet_views(old(packets)@).push(v)
            && next == CaptureStep::Heard,
        call_ensures(capture_step, (old(packets), signal), next) && !(signal@
            matches SignalView::Event(
            GlassesEventView::Device(DeviceEventView::Voice(VoiceEventView::Packet { .. })),
        )) ==> packet_views(final(packets)@) == packet_views(old(packets)@) && next
            != CaptureStep::Heard,
{
    commands::lemma_sends(AppCommand::InterruptVoice, Seq::empty());
}

/// Listening goes on until the silence or the whole capture has been as long as allowed, whichever
/// comes first.
pub proof fn lemma_how_long_to_listen(
    idle_gap: u64,
    hard_cap: u64,
    since_voice: u64,
    since_start: u64,
    r: Option<u64>,
)
    ensures
        call_ensures(listen_window, (idle_gap, hard_cap, since_voice, since_start), r) ==> {
            let silence = idle_gap - since_voice;
            let whole = hard_cap - since_start;
            if silence > 0 && whole > 0 {
                r is Some && r->Some_0 == if silence < whole {
                    silence
                } else {
                    whole
                }
            } else {
                r is None
            }
        },
{
}

/// How long is waited for an image and for a network: four times and six times what either
/// typically takes.
pub proof fn lemma_how_long_is_waited()
    ensures
        PHOTO_BUDGET == 4 * 2_400,
        SSID_BUDGET == 6 * 2_500,
        HANDSHAKE_BUDGET == 8_000,
        HANDSHAKE_WRITE_GAP == 120,
{
}

/// Every peripheral that was found is offered, each once.
pub proof fn lemma_every_peripheral_is_offered(rssi: &[Option<i16>], order: Vec<usize>, v: int)
    ensures
        call_ensures(strongest_first, (rssi,), order) ==> order@.len() == rssi@.len(),
        call_ensures(strongest_first, (rssi,), order) && 0 <= v < rssi@.len() ==> order@.contains(
            v as usize,
        ),
        call_ensures(strongest_first, (rssi,), order) && 0 <= v < order@.len() ==> order@[v]
            < rssi@.len(),
{
}

} // verus!

//! The stateful pieces, as they cross the boundary: a client feeds bytes in per characteristic and
//! publishes decoded state out.
//!
//! | Characteristic | Object | What the client does with the result |
//! |---|---|---|
//! | `AA14` control | [`GlassesParser`] | `push(bytes)`, publish the events |
//! | `AA15` file | [`GlassesParser`] then [`GlassesFileReassembler`] | route the parser's foreign residual into the reassembler |
//!
//! [`GlassesParser`] folds every event into settings of its own as it goes, so the `0x48` burst is
//! already accumulated by the time the client asks.
use crate::ffi::codec::FfiGlassesFrame;
use crate::ffi::events;
use crate::ffi::events::FfiGlassesEndCause;
use crate::ffi::events::FfiGlassesEvent;
use crate::ffi::events::FfiGlassesFileEvent;
use crate::ffi::events::FfiGlassesResidual;
use crate::ffi::events::FfiGlassesSwitchStates;
use crate::ffi::events::FfiGlassesTransferProgress;
use crate::ffi::events::FfiGlassesVoiceEvent;
use crate::frame;
use crate::frame::Deframer;
use crate::frame::Frame;
use crate::frame::FrameView;
use crate::frame::Residual;
use crate::frame::APP_HEADER;
use crate::frame::DEVICE_HEADER;
use crate::parser;
use crate::parser::DeviceEvent;
use crate::parser::DeviceEventView;
use crate::parser::Parser;
use crate::parser::ParserView;
use crate::parser::Settings;
use crate::parser::SwitchStates;
use crate::reassembly;
use crate::reassembly::FileEvent;
use crate::reassembly::FileReassembler;
use crate::reassembly::ReassemblerView;
use crate::voice;
use crate::voice::EndCause;
use crate::voice::VoiceState;
use crate::voice::VoiceStream;
use vstd::prelude::*;

verus! {

// ---- the parser -----------------------------------------------------------------------

/// One [`GlassesParser::push_detailed`] result.
#[derive(Debug, Clone, PartialEq, Eq)]
pub struct FfiGlassesParsed {
    pub events: Vec<FfiGlassesEvent>,
    pub residual: FfiGlassesResidual,
}

/// The control-channel pump: bytes in, decoded events out.
///
/// Owns a deframer, the voice state machine and the settings. One instance per characteristic:
/// sharing a deframer between two byte streams interleaves two half-frames into one corrupt one.
#[derive(Debug, Clone)]
pub struct GlassesParser {
    parser: Parser,
    switches: SwitchStates,
}

/// The state of a [`GlassesParser`].
#[verifier::ext_equal]
pub struct PumpState {
    pub parser: ParserView,
    pub switches: Settings,
}

impl View for GlassesParser {
    type V = PumpState;

    closed spec fn view(&self) -> PumpState {
        PumpState { parser: self.parser@, switches: self.switches@ }
    }
}

/// Whether these bytes, left by draining, are what crosses the boundary as this residual.
pub open spec fn is_residual(header: [u8; 2], rest: Seq<u8>, residual: FfiGlassesResidual) -> bool {
    exists|r: Residual| #[trigger]
        frame::residual_of(header, rest, r) && residual == events::residual_out(r)
}

impl GlassesParser {
    pub closed spec fn wf(&self) -> bool {
        self.parser.wf()
    }

    pub fn new() -> (p: Self)
        ensures
            p.wf(),
            p@ == (PumpState { parser: parser::fresh(), switches: parser::no_settings() }),
    {
        GlassesParser { parser: Parser::new(), switches: SwitchStates::new() }
    }

    /// Folds events into the settings on their way out.
    fn fold(&mut self, given: Vec<DeviceEvent>) -> (out: Vec<FfiGlassesEvent>)
        requires
            old(self).wf(),
        ensures
            final(self).wf(),
            final(self)@.parser == old(self)@.parser,
            final(self)@.switches == parser::after_ingests(
                old(self)@.switches,
                parser::event_views(given@),
            ),
            events::ffi_event_views(out@) == events::event_outs(parser::event_views(given@)),
    {
        let ghost views = parser::event_views(given@);
        let ghost all = events::event_outs(views);
        let ghost before = self@;
        let ghost items = given@;
        let mut out: Vec<FfiGlassesEvent> = Vec::new();
        assert(views.take(0) =~= Seq::empty());
        assert(events::ffi_event_views(out@) =~= all.take(0));
        for e in it: given.into_iter()
            invariant
                self.wf(),
                it.seq() == items,
                views == parser::event_views(items),
                all == events::event_outs(views),
                self@.parser == before.parser,
                self@.switches == parser::after_ingests(
                    before.switches,
                    views.take(it.index() as int),
                ),
                events::ffi_event_views(out@) == all.take(it.index() as int),
        {
            let ghost n = it.index() as int;
            let ghost so_far = events::ffi_event_views(out@);
            assert(views[n] == e@);
            assert(views.take(n + 1).drop_last() =~= views.take(n));
            self.switches.ingest(&e);
            out.push(FfiGlassesEvent::from(e));
            assert(events::ffi_event_views(out@) =~= so_far.push(all[n]));
            assert(all.take(n + 1) =~= all.take(n).push(all[n]));
        }
        assert(views.take(views.len() as int) =~= views);
        assert(all.take(views.len() as int) =~= all);
        out
    }

    /// Feed one notification's bytes. Use [`Self::push_detailed`] on the file characteristic, where
    /// the residual is the `52 58` stream.
    pub fn push(&mut self, chunk: Vec<u8>) -> (out: Vec<FfiGlassesEvent>)
        requires
            old(self).wf(),
        ensures
            final(self).wf(),
            ({
                let (after, given) = parser::after_push(old(self)@.parser, chunk@);
                &&& final(self)@.parser == after
                &&& final(self)@.switches == parser::after_ingests(old(self)@.switches, given)
                &&& events::ffi_event_views(out@) == events::event_outs(given)
            }),
    {
        let given = self.parser.push(chunk.as_slice());
        self.fold(given)
    }

    /// [`Self::push`], plus what happened to the bytes that did not become frames.
    pub fn push_detailed(&mut self, chunk: Vec<u8>) -> (r: FfiGlassesParsed)
        requires
            old(self).wf(),
        ensures
            final(self).wf(),
            ({
                let (after, given) = parser::after_push(old(self)@.parser, chunk@);
                &&& final(self)@.parser == after
                &&& final(self)@.switches == parser::after_ingests(old(self)@.switches, given)
                &&& events::ffi_event_views(r.events@) == events::event_outs(given)
            }),
            is_residual(
                DEVICE_HEADER,
                frame::drained(DEVICE_HEADER, old(self)@.parser.buffer + chunk@).1,
                r.residual,
            ),
    {
        let (given, residual) = self.parser.push_detailed(chunk.as_slice());
        let out = self.fold(given);
        FfiGlassesParsed { events: out, residual: FfiGlassesResidual::from(residual) }
    }

    /// Decode one already-deframed frame, applying the voice state machine.
    pub fn feed_frame(&mut self, cmd: u8, data: Vec<u8>) -> (out: Vec<FfiGlassesEvent>)
        requires
            old(self).wf(),
        ensures
            final(self).wf(),
            ({
                let f = FrameView { cmd, data: data@ };
                let (voice, given) = parser::after_feed(old(self)@.parser.voice, f);
                &&& final(self)@.parser == (ParserView { voice, ..old(self)@.parser })
                &&& final(self)@.switches == parser::after_ingests(old(self)@.switches, given)
                &&& events::ffi_event_views(out@) == events::event_outs(given)
            }),
    {
        let given = self.parser.feed(&Frame::new(cmd, data));
        self.fold(given)
    }

    /// True while a voice capture is open.
    pub fn is_capturing(&self) -> (b: bool)
        ensures
            b == self@.parser.voice.capturing,
    {
        self.parser.is_capturing()
    }

    /// End the capture for a reason only the client knows. `0x56` never appears on the stream being
    /// parsed, and it is the only thing that closes the mic: a parser that waits to observe the close
    /// waits forever.
    pub fn close_voice(&mut self, cause: FfiGlassesEndCause) -> (out: Vec<FfiGlassesEvent>)
        requires
            old(self).wf(),
        ensures
            final(self).wf(),
            ({
                let (voice, given) = voice::after_close(
                    old(self)@.parser.voice,
                    events::cause_in(cause),
                );
                &&& final(self)@ == (PumpState {
                    parser: ParserView { voice, ..old(self)@.parser },
                    ..old(self)@
                })
                &&& events::ffi_event_views(out@) == events::event_outs(parser::voice_events(given))
            }),
    {
        let given = self.parser.close_voice(EndCause::from(cause));
        proof {
            lemma_voice_keeps_the_settings(self@.switches, parser::event_views(given@));
        }
        self.fold(given)
    }

    /// Bytes held that have not yet completed a frame: diagnostics only.
    pub fn buffered(&self) -> (n: u32)
        ensures
            n == self@.parser.buffer.len() as u32,
    {
        self.parser.buffered().len() as u32
    }

    /// The accumulated `0x48` burst, folded from every event this parser has emitted.
    pub fn switch_states(&self) -> (s: FfiGlassesSwitchStates)
        ensures
            s@ == events::settings_out(self@.switches),
    {
        FfiGlassesSwitchStates::from(&self.switches)
    }

    /// Forget the frame buffer, the capture state and the accumulated settings. Called on
    /// disconnect.
    pub fn reset(&mut self)
        requires
            old(self).wf(),
        ensures
            final(self).wf(),
            final(self)@ == (PumpState {
                parser: parser::fresh(),
                switches: parser::no_settings(),
            }),
    {
        self.parser.reset();
        self.switches.reset();
    }
}

/// Voice events report no settings.
proof fn lemma_voice_keeps_the_settings(s: Settings, given: Seq<DeviceEventView>)
    requires
        forall|i: int| 0 <= i < given.len() ==> #[trigger] given[i] is Voice,
    ensures
        parser::after_ingests(s, given) == s,
    decreases given.len(),
{
    if given.len() > 0 {
        lemma_voice_keeps_the_settings(s, given.drop_last());
        assert(given.last() is Voice);
    }
}

// ---- settings -------------------------------------------------------------------------

/// The switch-state accumulator on its own, for a client that routes events itself.
#[derive(Debug, Clone)]
pub struct GlassesSwitchStates {
    inner: SwitchStates,
}

impl View for GlassesSwitchStates {
    type V = Settings;

    closed spec fn view(&self) -> Settings {
        self.inner@
    }
}

impl GlassesSwitchStates {
    pub fn new() -> (s: Self)
        ensures
            s@ == parser::no_settings(),
    {
        GlassesSwitchStates { inner: SwitchStates::new() }
    }

    /// Fold one raw frame in. Returns true when it was a settings frame.
    pub fn ingest_frame(&mut self, cmd: u8, data: Vec<u8>) -> (was_setting: bool)
        ensures
            ({
                let event = parser::event_of(FrameView { cmd, data: data@ });
                &&& was_setting == parser::is_setting(event)
                &&& final(self)@ == parser::after_ingest(old(self)@, event)
            }),
    {
        let event = parser::parse(&Frame::new(cmd, data));
        self.inner.ingest(&event)
    }

    pub fn snapshot(&self) -> (s: FfiGlassesSwitchStates)
        ensures
            s@ == events::settings_out(self@),
    {
        FfiGlassesSwitchStates::from(&self.inner)
    }

    /// True once all ten burst fields have arrived, gestures included.
    pub fn is_complete(&self) -> (b: bool)
        ensures
            b == parser::complete(self@),
    {
        self.inner.is_complete()
    }

    /// Forget everything reported, so that a new session cannot inherit the previous device's
    /// settings.
    pub fn reset(&mut self)
        ensures
            final(self)@ == parser::no_settings(),
    {
        self.inner.reset();
    }
}

// ---- the deframer ---------------------------------------------------------------------

/// One [`GlassesDeframer::push_detailed`] result.
#[derive(Debug, Clone, PartialEq, Eq)]
pub struct FfiGlassesDeframed {
    pub frames: Vec<FfiGlassesFrame>,
    pub residual: FfiGlassesResidual,
}

/// The frames as values.
pub open spec fn ffi_frame_views(frames: Seq<FfiGlassesFrame>) -> Seq<FrameView> {
    frames.map_values(|f: FfiGlassesFrame| f@)
}

fn frames_out(frames: &Vec<Frame>) -> (out: Vec<FfiGlassesFrame>)
    ensures
        ffi_frame_views(out@) == frame::frame_views(frames@),
{
    let mut out: Vec<FfiGlassesFrame> = Vec::new();
    assert(ffi_frame_views(out@) =~= frame::frame_views(frames@).take(0));
    for i in 0..frames.len()
        invariant
            ffi_frame_views(out@) == frame::frame_views(frames@).take(i as int),
    {
        let ghost before = ffi_frame_views(out@);
        out.push(FfiGlassesFrame::from(&frames[i]));
        assert(ffi_frame_views(out@) =~= before.push(frames@[i as int]@));
        assert(frame::frame_views(frames@).take(i + 1) =~= before.push(frames@[i as int]@));
    }
    assert(frame::frame_views(frames@).take(frames@.len() as int) =~= frame::frame_views(frames@));
    out
}

/// The raw frame demuxer, without the decode: for capture analysis and for reading back the
/// outbound stream.
#[derive(Debug, Clone)]
pub struct GlassesDeframer {
    inner: Deframer,
}

impl View for GlassesDeframer {
    type V = Seq<u8>;

    /// The bytes held.
    closed spec fn view(&self) -> Seq<u8> {
        self.inner@
    }
}

impl GlassesDeframer {
    /// The magic this deframer looks for.
    pub closed spec fn magic(&self) -> [u8; 2] {
        self.inner.magic()
    }

    /// For the device to app channels.
    pub fn device() -> (d: Self)
        ensures
            d.magic() == DEVICE_HEADER,
            d@ == Seq::<u8>::empty(),
    {
        GlassesDeframer { inner: Deframer::device() }
    }

    /// For reading back the outbound stream.
    pub fn app() -> (d: Self)
        ensures
            d.magic() == APP_HEADER,
            d@ == Seq::<u8>::empty(),
    {
        GlassesDeframer { inner: Deframer::app() }
    }

    pub fn push(&mut self, chunk: Vec<u8>) -> (frames: Vec<FfiGlassesFrame>)
        ensures
            ({
                let (out, rest) = frame::drained(old(self).magic(), old(self)@ + chunk@);
                &&& ffi_frame_views(frames@) == out
                &&& final(self)@ == frame::kept(old(self).magic(), rest)
            }),
            final(self).magic() == old(self).magic(),
    {
        let frames = self.inner.push(chunk.as_slice());
        frames_out(&frames)
    }

    pub fn push_detailed(&mut self, chunk: Vec<u8>) -> (r: FfiGlassesDeframed)
        ensures
            ({
                let (out, rest) = frame::drained(old(self).magic(), old(self)@ + chunk@);
                &&& ffi_frame_views(r.frames@) == out
                &&& is_residual(old(self).magic(), rest, r.residual)
                &&& final(self)@ == frame::kept(old(self).magic(), rest)
            }),
            final(self).magic() == old(self).magic(),
    {
        let (frames, residual) = self.inner.push_detailed(chunk.as_slice());
        FfiGlassesDeframed {
            frames: frames_out(&frames),
            residual: FfiGlassesResidual::from(residual),
        }
    }

    pub fn buffered(&self) -> (n: u32)
        ensures
            n == self@.len() as u32,
    {
        self.inner.buffered().len() as u32
    }

    pub fn reset(&mut self)
        ensures
            final(self)@ == Seq::<u8>::empty(),
            final(self).magic() == old(self).magic(),
    {
        self.inner.reset();
    }
}

// ---- voice ----------------------------------------------------------------------------

/// The capture state machine on its own. Control-channel frames only: a `52 58` file frame carries
/// `0x97` and `0x99` with entirely different meanings.
#[derive(Debug, Clone)]
pub struct GlassesVoiceStream {
    inner: VoiceStream,
}

impl View for GlassesVoiceStream {
    type V = VoiceState;

    closed spec fn view(&self) -> VoiceState {
        self.inner@
    }
}

impl GlassesVoiceStream {
    pub fn new() -> (s: Self)
        ensures
            s@ == voice::idle(),
    {
        GlassesVoiceStream { inner: VoiceStream::new() }
    }

    /// Drive the machine with one decoded `AC 55` frame.
    pub fn handle(&mut self, cmd: u8, data: Vec<u8>) -> (out: Vec<FfiGlassesVoiceEvent>)
        ensures
            ({
                let (after, given) = voice::after_upload(old(self)@, cmd, data@);
                &&& final(self)@ == after
                &&& events::ffi_voice_views(out@) == events::voice_outs(given)
            }),
    {
        let given = self.inner.handle_upload(cmd, data.as_slice());
        events::voice_events_out(given)
    }

    /// Close the capture for a reason the client knows and this cannot.
    pub fn close(&mut self, cause: FfiGlassesEndCause) -> (out: Vec<FfiGlassesVoiceEvent>)
        ensures
            ({
                let (after, given) = voice::after_close(old(self)@, events::cause_in(cause));
                &&& final(self)@ == after
                &&& events::ffi_voice_views(out@) == events::voice_outs(given)
            }),
    {
        let given = self.inner.close(EndCause::from(cause));
        events::voice_events_out(given)
    }

    pub fn is_capturing(&self) -> (b: bool)
        ensures
            b == self@.capturing,
    {
        self.inner.is_capturing()
    }

    /// How many `0x46` packets the current (or most recent) capture carried.
    pub fn packets_in_capture(&self) -> (n: u64)
        ensures
            n == self@.packets,
    {
        self.inner.packets_in_capture()
    }

    /// Forget the capture without emitting anything.
    pub fn reset(&mut self)
        ensures
            final(self)@ == voice::idle(),
    {
        self.inner.reset();
    }
}

// ---- files ----------------------------------------------------------------------------

fn file_events_out(given: Vec<FileEvent>) -> (out: Vec<FfiGlassesFileEvent>)
    ensures
        events::ffi_file_views(out@) == events::file_outs(reassembly::file_event_views(given@)),
{
    let ghost items = given@;
    let ghost all = events::file_outs(reassembly::file_event_views(items));
    let mut out: Vec<FfiGlassesFileEvent> = Vec::new();
    assert(events::ffi_file_views(out@) =~= all.take(0));
    for e in it: given.into_iter()
        invariant
            it.seq() == items,
            all == events::file_outs(reassembly::file_event_views(items)),
            events::ffi_file_views(out@) == all.take(it.index() as int),
    {
        let ghost n = it.index() as int;
        let ghost before = events::ffi_file_views(out@);
        out.push(FfiGlassesFileEvent::from(e));
        assert(all[n] == events::file_out(items[n]@));
        assert(events::ffi_file_views(out@) =~= before.push(all[n]));
        assert(all.take(n + 1) =~= all.take(n).push(all[n]));
    }
    assert(all.take(items.len() as int) =~= all);
    out
}

/// Streaming accumulator for the `52 58` file channel. Feed it the foreign bytes that a
/// [`GlassesParser`] on the file characteristic hands back.
#[derive(Debug, Clone)]
pub struct GlassesFileReassembler {
    inner: FileReassembler,
}

impl View for GlassesFileReassembler {
    type V = ReassemblerView;

    closed spec fn view(&self) -> ReassemblerView {
        self.inner@
    }
}

impl GlassesFileReassembler {
    pub closed spec fn wf(&self) -> bool {
        self.inner.wf()
    }

    pub fn new() -> (r: Self)
        ensures
            r.wf(),
            r@ == (ReassemblerView { buffer: Seq::empty(), transfer: None }),
    {
        GlassesFileReassembler { inner: FileReassembler::new() }
    }

    /// Feed one chunk of file-channel bytes; returns what happened.
    pub fn push(&mut self, chunk: Vec<u8>) -> (out: Vec<FfiGlassesFileEvent>)
        requires
            old(self).wf(),
        ensures
            final(self).wf(),
            ({
                let (after, given) = reassembly::after_push(old(self)@, chunk@);
                &&& final(self)@ == after
                &&& events::ffi_file_views(out@) == events::file_outs(given)
            }),
    {
        let given = self.inner.push(chunk.as_slice());
        file_events_out(given)
    }

    /// Route one already-decoded file frame, for a client that does its own framing.
    pub fn handle_frame(&mut self, cmd: u8, data: Vec<u8>) -> (out: Vec<FfiGlassesFileEvent>)
        requires
            old(self).wf(),
        ensures
            final(self).wf(),
            ({
                let f = FrameView { cmd, data: data@ };
                let (transfer, given) = reassembly::after_frame(old(self)@.transfer, f);
                &&& final(self)@ == (ReassemblerView { transfer, ..old(self)@ })
                &&& events::ffi_file_views(out@) == events::file_outs(given)
            }),
    {
        let given = self.inner.handle_frame(&Frame::new(cmd, data));
        file_events_out(given)
    }

    pub fn progress(&self) -> (p: FfiGlassesTransferProgress)
        requires
            self.wf(),
        ensures
            p == events::progress_out(reassembly::progress_of(self@.transfer)),
    {
        FfiGlassesTransferProgress::from(self.inner.progress())
    }

    /// Whether a partial frame is buffered.
    pub fn has_buffered_frame_data(&self) -> (b: bool)
        ensures
            b == (self@.buffer.len() > 0),
    {
        self.inner.has_buffered_frame_data()
    }

    pub fn buffered(&self) -> (n: u32)
        ensures
            n == self@.buffer.len() as u32,
    {
        self.inner.buffered().len() as u32
    }

    /// Forget everything: buffered bytes and any transfer in flight.
    pub fn reset(&mut self)
        ensures
            final(self).wf(),
            final(self)@ == (ReassemblerView { buffer: Seq::empty(), transfer: None }),
    {
        self.inner.reset();
    }
}

/// Build one `52 58` file frame, for tests, fixtures and replay tooling.
pub fn glasses_encode_file_frame(cmd: u8, payload: Vec<u8>) -> (bytes: Vec<u8>)
    ensures
        bytes@ == reassembly::file_frame_bytes(FrameView { cmd, data: payload@ }),
{
    reassembly::encode_file_frame(cmd, payload.as_slice())
}

/// The largest file that a reassembler will accept a header for.
pub fn glasses_max_file_bytes() -> (n: u32)
    ensures
        n == reassembly::MAX_FILE_BYTES,
{
    reassembly::MAX_FILE_BYTES as u32
}

// ---- what the operations give back -----------------------------------------------------------

/// A frame fed past the framing gives its event across the boundary, and a setting in it is kept.
/// What is buffered stays as it was.
pub proof fn lemma_what_feeding_a_frame_gives(
    p: &mut GlassesParser,
    cmd: u8,
    data: Vec<u8>,
    out: Vec<FfiGlassesEvent>,
)
    requires
        !(cmd == 0x46 || cmd == 0x97 || cmd == 0x99),
    ensures
        call_ensures(GlassesParser::feed_frame, (old(p), cmd, data), out) ==> {
            let event = parser::event_of(FrameView { cmd, data: data@ });
            &&& out@.len() == 1
            &&& out@[0]@ == events::event_out(event)
            &&& final(p)@.parser.buffer == old(p)@.parser.buffer
            &&& cmd != 0x49 ==> final(p)@.parser == old(p)@.parser
            &&& cmd == 0x49 ==> !final(p)@.parser.voice.capturing
            &&& final(p)@.switches == parser::after_ingest(old(p)@.switches, event)
        },
{
    let f = FrameView { cmd, data: data@ };
    let event = parser::event_of(f);
    if call_ensures(GlassesParser::feed_frame, (old(p), cmd, data), out) {
        let given = parser::after_feed(old(p)@.parser.voice, f).1;
        assert(given =~= seq![event]);
        reveal_with_fuel(parser::after_ingests, 2);
        assert(given.drop_last() =~= Seq::<DeviceEventView>::empty());
        assert(events::ffi_event_views(out@).len() == out@.len());
        assert(events::event_outs(given).len() == 1);
        assert(events::ffi_event_views(out@)[0] == out@[0]@);
        assert(events::event_outs(given)[0] == events::event_out(event));
    }
}

/// What a push gives crosses the boundary event for event, and every setting in it is kept.
pub proof fn lemma_what_a_push_gives(
    p: &mut GlassesParser,
    chunk: Vec<u8>,
    out: Vec<FfiGlassesEvent>,
    i: int,
)
    ensures
        call_ensures(GlassesParser::push, (old(p), chunk), out) ==> {
            let (after, given) = parser::after_push(old(p)@.parser, chunk@);
            &&& out@.len() == given.len()
            &&& 0 <= i < given.len() ==> out@[i]@ == events::event_out(given[i])
            &&& final(p)@.parser == after
            &&& final(p)@.switches == parser::after_ingests(old(p)@.switches, given)
        },
{
    if call_ensures(GlassesParser::push, (old(p), chunk), out) {
        let given = parser::after_push(old(p)@.parser, chunk@).1;
        assert(events::ffi_event_views(out@).len() == out@.len());
        assert(events::event_outs(given).len() == given.len());
        if 0 <= i < given.len() {
            assert(events::ffi_event_views(out@)[i] == out@[i]@);
        }
    }
}

/// Settings take in a frame that reports one, and say whether it did.
pub proof fn lemma_what_the_settings_take_in(
    s: &mut GlassesSwitchStates,
    cmd: u8,
    data: Vec<u8>,
    taken: bool,
)
    ensures
        call_ensures(GlassesSwitchStates::ingest_frame, (old(s), cmd, data), taken) ==> {
            let event = parser::event_of(FrameView { cmd, data: data@ });
            &&& taken <==> event is Switch || event is GestureBinding
            &&& final(s)@ == parser::after_ingest(old(s)@, event)
            &&& !taken ==> final(s)@ == old(s)@
        },
{
}

/// The two deframers look for `AC 55` and `AB 55`, and hold nothing at first.
pub proof fn lemma_which_magic_is_looked_for(d: GlassesDeframer)
    ensures
        call_ensures(GlassesDeframer::device, (), d) ==> d.magic()@ == seq![0xACu8, 0x55] && d@.len()
            == 0,
        call_ensures(GlassesDeframer::app, (), d) ==> d.magic()@ == seq![0xABu8, 0x55] && d@.len()
            == 0,
{
}

} // verus!

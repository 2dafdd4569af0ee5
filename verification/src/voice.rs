//! The wake-word audio stream: the `0x97`, `0x46`, `0x99` capture machine, and the header of the
//! Opus packets it carries.
//!
//! One `0x46` frame carries one complete Opus packet. `0x97` opens a capture; a `0x46` with no
//! capture open recovers the lost start rather than dropping the utterance. This firmware never
//! sends `0x99`: the microphone closes when the app writes `0x56`, so the close has to be told
//! to the machine.
//!
//! The packet header is the table-of-contents byte of RFC 6716. This module parses it and never
//! decodes audio.
use crate::frame::Frame;
use crate::opcodes::DeviceUpload;
use vstd::prelude::*;
use vstd::slice::slice_to_vec;

verus! {

/// The sample rate to request from an Opus decoder.
pub const REQUESTED_SAMPLE_RATE_HZ: u32 = 16000;

/// Bits per sample of the PCM a decoder returns.
pub const BITS_PER_SAMPLE: u32 = 16;

/// Channel count of the captured stream.
pub const CHANNELS: u32 = 1;

/// The payload length of every captured `0x46` frame.
pub const CAPTURED_PACKET_BYTES: usize = 40;

/// Opus operating mode.
#[derive(Debug, Clone, Copy, PartialEq, Eq, PartialOrd, Ord, Hash, Structural)]
pub enum OpusMode {
    Silk,
    Hybrid,
    Celt,
}

/// Opus audio bandwidth.
#[derive(Debug, Clone, Copy, PartialEq, Eq, PartialOrd, Ord, Hash, Structural)]
pub enum OpusBandwidth {
    Narrow,
    Medium,
    Wide,
    SuperWide,
    Full,
}

impl OpusBandwidth {
    /// The rate that covers this bandwidth.
    pub open spec fn spec_nominal_rate_hz(self) -> u32 {
        match self {
            OpusBandwidth::Narrow => 8000,
            OpusBandwidth::Medium => 12000,
            OpusBandwidth::Wide => 16000,
            OpusBandwidth::SuperWide => 24000,
            OpusBandwidth::Full => 48000,
        }
    }

    /// The rate to request from a decoder so that it does not resample.
    #[verifier::when_used_as_spec(spec_nominal_rate_hz)]
    pub fn nominal_rate_hz(self) -> (hz: u32)
        ensures
            hz == self.nominal_rate_hz(),
    {
        match self {
            OpusBandwidth::Narrow => 8000,
            OpusBandwidth::Medium => 12000,
            OpusBandwidth::Wide => 16000,
            OpusBandwidth::SuperWide => 24000,
            OpusBandwidth::Full => 48000,
        }
    }
}

/// One Opus packet's self-describing header: packet framing, not the codec.
#[derive(Debug, Clone, Copy, PartialEq, Eq, Structural)]
pub struct OpusToc {
    /// The configuration number, `0..=31`: mode, bandwidth and frame size.
    pub config: u8,
    pub stereo: bool,
    /// The frame-count code, `0..=3`.
    pub code: u8,
    /// How many frames the packet holds.
    pub frames: u8,
    /// Whether a code 3 packet says that its frames vary in size.
    pub vbr: bool,
    /// Whether a code 3 packet says that it is padded.
    pub padding: bool,
}

/// The header of a packet: the first byte holds the configuration (five bits), the stereo flag
/// and the frame-count code (two bits). A code 3 packet has a second byte with the variable-size
/// flag, the padding flag and the frame count (six bits); without it there is no header.
pub open spec fn toc_of(packet: Seq<u8>) -> Option<OpusToc> {
    if packet.len() == 0 {
        None
    } else {
        let config = packet[0] / 8;
        let stereo = packet[0] / 4 % 2 == 1;
        let code = packet[0] % 4;
        if code == 3 {
            if packet.len() < 2 {
                None
            } else {
                Some(
                    OpusToc {
                        config,
                        stereo,
                        code,
                        frames: packet[1] % 64,
                        vbr: packet[1] / 128 == 1,
                        padding: packet[1] / 64 % 2 == 1,
                    },
                )
            }
        } else {
            Some(
                OpusToc {
                    config,
                    stereo,
                    code,
                    frames: if code == 0 {
                        1
                    } else {
                        2
                    },
                    vbr: false,
                    padding: false,
                },
            )
        }
    }
}

impl OpusToc {
    /// Parse the header of one packet. `None` for an empty packet and for a code 3 packet that
    /// ends before its frame count.
    pub fn parse(packet: &[u8]) -> (r: Option<OpusToc>)
        ensures
            r == toc_of(packet@),
    {
        if packet.len() == 0 {
            return None;
        }
        let b: u8 = packet[0];
        let config: u8 = b / 8;
        let stereo: bool = b / 4 % 2 == 1;
        let code: u8 = b % 4;
        if code == 3 {
            if packet.len() < 2 {
                return None;
            }
            let m: u8 = packet[1];
            Some(
                OpusToc {
                    config,
                    stereo,
                    code,
                    frames: m % 64,
                    vbr: m / 128 == 1,
                    padding: m / 64 % 2 == 1,
                },
            )
        } else {
            let frames: u8 = if code == 0 {
                1
            } else {
                2
            };
            Some(OpusToc { config, stereo, code, frames, vbr: false, padding: false })
        }
    }

    /// The operating mode of a configuration.
    pub open spec fn spec_mode(self) -> OpusMode {
        if self.config < 12 {
            OpusMode::Silk
        } else if self.config < 16 {
            OpusMode::Hybrid
        } else {
            OpusMode::Celt
        }
    }

    /// The operating mode of a configuration.
    #[verifier::when_used_as_spec(spec_mode)]
    pub fn mode(self) -> (mode: OpusMode)
        ensures
            mode == self.mode(),
    {
        if self.config < 12 {
            OpusMode::Silk
        } else if self.config < 16 {
            OpusMode::Hybrid
        } else {
            OpusMode::Celt
        }
    }

    /// The bandwidth of a configuration.
    pub open spec fn spec_bandwidth(self) -> OpusBandwidth {
        if self.config < 4 || 16 <= self.config < 20 {
            OpusBandwidth::Narrow
        } else if self.config < 8 {
            OpusBandwidth::Medium
        } else if self.config < 12 || 20 <= self.config < 24 {
            OpusBandwidth::Wide
        } else if self.config < 14 || 24 <= self.config < 28 {
            OpusBandwidth::SuperWide
        } else {
            OpusBandwidth::Full
        }
    }

    /// The bandwidth of a configuration.
    #[verifier::when_used_as_spec(spec_bandwidth)]
    pub fn bandwidth(self) -> (bandwidth: OpusBandwidth)
        ensures
            bandwidth == self.bandwidth(),
    {
        if self.config < 4 || (16 <= self.config && self.config < 20) {
            OpusBandwidth::Narrow
        } else if self.config < 8 {
            OpusBandwidth::Medium
        } else if self.config < 12 || (20 <= self.config && self.config < 24) {
            OpusBandwidth::Wide
        } else if self.config < 14 || (24 <= self.config && self.config < 28) {
            OpusBandwidth::SuperWide
        } else {
            OpusBandwidth::Full
        }
    }

    /// The length of one frame in microseconds: 10, 20, 40 or 60 ms for SILK, 10 or 20 ms for
    /// hybrid, 2.5, 5, 10 or 20 ms for CELT.
    pub open spec fn spec_frame_duration_us(self) -> u32 {
        match self.mode() {
            OpusMode::Silk => if self.config % 4 == 0 {
                10000
            } else if self.config % 4 == 1 {
                20000
            } else if self.config % 4 == 2 {
                40000
            } else {
                60000
            },
            OpusMode::Hybrid => if self.config % 2 == 0 {
                10000
            } else {
                20000
            },
            OpusMode::Celt => if self.config % 4 == 0 {
                2500
            } else if self.config % 4 == 1 {
                5000
            } else if self.config % 4 == 2 {
                10000
            } else {
                20000
            },
        }
    }

    /// The length of one frame in microseconds.
    #[verifier::when_used_as_spec(spec_frame_duration_us)]
    pub fn frame_duration_us(self) -> (us: u32)
        ensures
            us == self.frame_duration_us(),
    {
        match self.mode() {
            OpusMode::Silk => match self.config % 4 {
                0 => 10000,
                1 => 20000,
                2 => 40000,
                _ => 60000,
            },
            OpusMode::Hybrid => match self.config % 2 {
                0 => 10000,
                _ => 20000,
            },
            OpusMode::Celt => match self.config % 4 {
                0 => 2500,
                1 => 5000,
                2 => 10000,
                _ => 20000,
            },
        }
    }

    /// The length of the packet in microseconds. `None` for a frame count of zero, which is
    /// malformed.
    pub open spec fn spec_total_duration_us(self) -> Option<u32> {
        if self.frames == 0 {
            None
        } else {
            Some((self.frames * self.frame_duration_us()) as u32)
        }
    }

    /// The length of the packet in microseconds. `None` for a frame count of zero, which is
    /// malformed.
    #[verifier::when_used_as_spec(spec_total_duration_us)]
    pub fn total_duration_us(self) -> (us: Option<u32>)
        ensures
            us == self.total_duration_us(),
    {
        if self.frames == 0 {
            None
        } else {
            let n: u32 = self.frames as u32;
            let us: u32 = self.frame_duration_us();
            assert(n * us <= 255 * 60000) by (nonlinear_arith)
                requires
                    n <= 255,
                    us <= 60000,
            ;
            Some(n * us)
        }
    }

    /// How many channels the packet has.
    pub open spec fn spec_channels(self) -> u8 {
        if self.stereo {
            2
        } else {
            1
        }
    }

    /// How many channels the packet has.
    #[verifier::when_used_as_spec(spec_channels)]
    pub fn channels(self) -> (n: u8)
        ensures
            n == self.channels(),
    {
        if self.stereo {
            2
        } else {
            1
        }
    }
}

/// One `0x46` payload: a complete Opus packet, ready for a decoder.
#[derive(Debug, Clone, PartialEq, Eq)]
pub struct VoicePacket {
    /// The packet bytes, verbatim.
    pub payload: Vec<u8>,
    /// Its parsed header, or `None` if malformed. Malformed packets are still delivered.
    pub toc: Option<OpusToc>,
    /// Ordinal within the current capture, from 0.
    pub index: u64,
}

/// Why a capture ended.
#[derive(Debug, Clone, Copy, PartialEq, Eq, Structural)]
pub enum EndCause {
    /// A `0x99` arrived. Never observed.
    DeviceSignalled,
    /// The app wrote `0x56`.
    Interrupted,
    /// The caller's inter-frame idle timer expired.
    IdleTimeout,
    /// The link dropped mid-capture.
    Disconnected,
}

/// What one inbound frame did to the voice capture.
#[derive(Debug, Clone, PartialEq, Eq)]
pub enum VoiceEvent {
    /// `0x97`: the microphone opened.
    Started,
    /// A `0x46` arrived with no capture open: the start was lost and the capture opened
    /// implicitly.
    StartedRecovered,
    /// One Opus packet.
    Packet(VoicePacket),
    /// The capture closed.
    Ended(EndCause),
    /// Not a voice frame, or a close with nothing open.
    Ignored,
}

/// The mathematical content of a [`VoiceEvent`].
#[verifier::ext_equal]
pub enum VoiceEventView {
    Started,
    StartedRecovered,
    Packet { payload: Seq<u8>, toc: Option<OpusToc>, index: u64 },
    Ended(EndCause),
    Ignored,
}

impl View for VoiceEvent {
    type V = VoiceEventView;

    open spec fn view(&self) -> VoiceEventView {
        match *self {
            VoiceEvent::Started => VoiceEventView::Started,
            VoiceEvent::StartedRecovered => VoiceEventView::StartedRecovered,
            VoiceEvent::Packet(p) => VoiceEventView::Packet {
                payload: p.payload@,
                toc: p.toc,
                index: p.index,
            },
            VoiceEvent::Ended(cause) => VoiceEventView::Ended(cause),
            VoiceEvent::Ignored => VoiceEventView::Ignored,
        }
    }
}

/// The contents of a list of events, in order.
pub open spec fn voice_event_views(events: Seq<VoiceEvent>) -> Seq<VoiceEventView> {
    events.map_values(|e: VoiceEvent| e@)
}

/// The state of the capture machine.
pub struct VoiceState {
    /// Whether a capture is open.
    pub capturing: bool,
    /// How many packets the current or most recent capture carried.
    pub packets: u64,
}

/// No capture, and no packets.
pub open spec fn idle() -> VoiceState {
    VoiceState { capturing: false, packets: 0 }
}

/// The packet that a payload becomes.
pub open spec fn packet_event(payload: Seq<u8>, index: u64) -> VoiceEventView {
    VoiceEventView::Packet { payload, toc: toc_of(payload), index }
}

/// One more packet, as far as the counter goes.
pub open spec fn one_more(packets: u64) -> u64 {
    if packets < u64::MAX {
        (packets + 1) as u64
    } else {
        packets
    }
}

/// What ending the capture does: a capture that is not open cannot end.
pub open spec fn after_close(s: VoiceState, cause: EndCause) -> (VoiceState, Seq<VoiceEventView>) {
    if s.capturing {
        (VoiceState { capturing: false, ..s }, seq![VoiceEventView::Ended(cause)])
    } else {
        (s, seq![VoiceEventView::Ignored])
    }
}

/// What one control frame does to the capture.
pub open spec fn after_upload(s: VoiceState, cmd: u8, data: Seq<u8>) -> (
    VoiceState,
    Seq<VoiceEventView>,
) {
    if cmd == DeviceUpload::VoiceUploadStart.code() {
        (VoiceState { capturing: true, packets: 0 }, seq![VoiceEventView::Started])
    } else if cmd == DeviceUpload::VoiceData.code() {
        if s.capturing {
            (
                VoiceState { capturing: true, packets: one_more(s.packets) },
                seq![packet_event(data, s.packets)],
            )
        } else {
            (
                VoiceState { capturing: true, packets: 1 },
                seq![VoiceEventView::StartedRecovered, packet_event(data, 0)],
            )
        }
    } else if cmd == DeviceUpload::VoiceUploadEnd.code() {
        after_close(s, EndCause::DeviceSignalled)
    } else {
        (s, seq![VoiceEventView::Ignored])
    }
}

/// The capture machine. Control-channel frames only: a `52 58` file frame carries `0x97` and
/// `0x99` with entirely different meanings.
#[derive(Debug, Clone, PartialEq, Eq)]
pub struct VoiceStream {
    capturing: bool,
    packets: u64,
}

impl View for VoiceStream {
    type V = VoiceState;

    closed spec fn view(&self) -> VoiceState {
        VoiceState { capturing: self.capturing, packets: self.packets }
    }
}

impl Default for VoiceStream {
    fn default() -> (s: Self)
        ensures
            s@ == idle(),
    {
        VoiceStream { capturing: false, packets: 0 }
    }
}

impl VoiceStream {
    pub fn new() -> (s: Self)
        ensures
            s@ == idle(),
    {
        Self::default()
    }

    /// True while a capture is open.
    pub fn is_capturing(&self) -> (b: bool)
        ensures
            b == self@.capturing,
    {
        self.capturing
    }

    /// How many `0x46` packets the current (or most recent) capture carried.
    pub fn packets_in_capture(&self) -> (n: u64)
        ensures
            n == self@.packets,
    {
        self.packets
    }

    /// Forget the capture without emitting anything. Prefer [`Self::close`], which says what
    /// happened.
    pub fn reset(&mut self)
        ensures
            final(self)@ == idle(),
    {
        self.capturing = false;
        self.packets = 0;
    }

    /// Drive the machine with one decoded `AC 55` frame.
    pub fn handle(&mut self, frame: &Frame) -> (events: Vec<VoiceEvent>)
        ensures
            (final(self)@, voice_event_views(events@)) == after_upload(
                old(self)@,
                frame.cmd,
                frame.data@,
            ),
    {
        self.handle_upload(frame.cmd, frame.data.as_slice())
    }

    /// [`Self::handle`] with the frame's two parts. Gives two events when a lost `0x97` is
    /// recovered, and one otherwise.
    pub fn handle_upload(&mut self, cmd: u8, data: &[u8]) -> (events: Vec<VoiceEvent>)
        ensures
            (final(self)@, voice_event_views(events@)) == after_upload(old(self)@, cmd, data@),
    {
        let ghost model = after_upload(self@, cmd, data@);
        let mut events: Vec<VoiceEvent> = Vec::new();
        if cmd == DeviceUpload::VoiceUploadStart.code() {
            self.capturing = true;
            self.packets = 0;
            events.push(VoiceEvent::Started);
        } else if cmd == DeviceUpload::VoiceData.code() {
            if !self.capturing {
                self.capturing = true;
                self.packets = 0;
                events.push(VoiceEvent::StartedRecovered);
            }
            events.push(
                VoiceEvent::Packet(
                    VoicePacket {
                        payload: slice_to_vec(data),
                        toc: OpusToc::parse(data),
                        index: self.packets,
                    },
                ),
            );
            self.packets = self.packets.saturating_add(1);
        } else if cmd == DeviceUpload::VoiceUploadEnd.code() {
            return self.close(EndCause::DeviceSignalled);
        } else {
            events.push(VoiceEvent::Ignored);
        }
        assert(voice_event_views(events@) =~= model.1);
        events
    }

    /// Close the capture for a reason the caller knows and this cannot: the `0x56` write went
    /// out, an idle timer expired, or the link dropped.
    pub fn close(&mut self, cause: EndCause) -> (events: Vec<VoiceEvent>)
        ensures
            (final(self)@, voice_event_views(events@)) == after_close(old(self)@, cause),
    {
        let ghost model = after_close(self@, cause);
        let mut events: Vec<VoiceEvent> = Vec::new();
        if self.capturing {
            self.capturing = false;
            events.push(VoiceEvent::Ended(cause));
        } else {
            events.push(VoiceEvent::Ignored);
        }
        assert(voice_event_views(events@) =~= model.1);
        events
    }
}

/// What a sequence of voice payloads does, from a machine in state `s`.
pub open spec fn after_payloads(s: VoiceState, payloads: Seq<Seq<u8>>) -> (
    VoiceState,
    Seq<VoiceEventView>,
)
    decreases payloads.len(),
{
    if payloads.len() == 0 {
        (s, Seq::empty())
    } else {
        let (before, events) = after_payloads(s, payloads.drop_last());
        let (after, more) = after_upload(
            before,
            DeviceUpload::VoiceData.code(),
            payloads.last(),
        );
        (after, events + more)
    }
}

/// No packet of an utterance is dropped, whether its start was seen or lost: after a start, a
/// sequence of payloads gives exactly one packet per payload, in order, numbered from zero. If
/// the start was lost, one recovered start stands in front of them, and nothing else differs.
pub proof fn lemma_lost_start_loses_no_packet(payloads: Seq<Seq<u8>>)
    requires
        0 < payloads.len() <= u64::MAX,
    ensures
        ({
            let packets = Seq::new(
                payloads.len(),
                |i: int| packet_event(payloads[i], i as u64),
            );
            let open = VoiceState { capturing: true, packets: 0 };
            let done = VoiceState { capturing: true, packets: payloads.len() as u64 };
            &&& after_payloads(open, payloads) == (done, packets)
            &&& after_payloads(idle(), payloads) == (
                done,
                seq![VoiceEventView::StartedRecovered] + packets,
            )
        }),
    decreases payloads.len(),
{
    let n = payloads.len() as int;
    let open = VoiceState { capturing: true, packets: 0 };
    let packets = Seq::new(payloads.len(), |i: int| packet_event(payloads[i], i as u64));
    let before = payloads.drop_last();
    let last = packet_event(payloads.last(), (n - 1) as u64);
    if n == 1 {
        assert(before =~= Seq::empty());
        assert(after_payloads(open, before) == (open, Seq::<VoiceEventView>::empty()));
        assert(after_payloads(idle(), before) == (idle(), Seq::<VoiceEventView>::empty()));
        assert(after_payloads(open, payloads).1 =~= packets);
        assert(after_payloads(idle(), payloads).1 =~= seq![VoiceEventView::StartedRecovered]
            + packets);
    } else {
        lemma_lost_start_loses_no_packet(before);
        let earlier = Seq::new(before.len(), |i: int| packet_event(before[i], i as u64));
        assert(packets =~= earlier + seq![last]);
        assert(after_payloads(open, payloads).1 =~= packets);
        assert(after_payloads(idle(), payloads).1 =~= seq![VoiceEventView::StartedRecovered]
            + packets);
    }
}

/// A capture ends at most once: closing it again is ignored, whatever the reasons.
pub proof fn lemma_a_capture_ends_once(s: VoiceState, first: EndCause, second: EndCause)
    ensures
        !after_close(s, first).0.capturing,
        after_close(after_close(s, first).0, second).1 == seq![VoiceEventView::Ignored],
{
}

/// What the first byte of an Opus packet says: five bits of configuration, a stereo bit and two
/// bits for how the frames are counted. Only the last way of counting reads a second byte: six
/// bits of frames, a padding bit and a bit for frames of different sizes.
pub proof fn lemma_what_the_first_byte_says(
    config: u8,
    stereo: bool,
    code: u8,
    vbr: bool,
    padding: bool,
    count: u8,
    rest: Seq<u8>,
)
    requires
        config < 32,
        code < 4,
        count < 64,
    ensures
        ({
            let first = (config * 8 + (if stereo {
                4int
            } else {
                0
            }) + code) as u8;
            let second = ((if vbr {
                128int
            } else {
                0
            }) + (if padding {
                64int
            } else {
                0
            }) + count) as u8;
            &&& code == 0 ==> toc_of(seq![first] + rest) == Some(
                OpusToc { config, stereo, code, frames: 1, vbr: false, padding: false },
            )
            &&& code == 1 || code == 2 ==> toc_of(seq![first] + rest) == Some(
                OpusToc { config, stereo, code, frames: 2, vbr: false, padding: false },
            )
            &&& code == 3 ==> toc_of(seq![first, second] + rest) == Some(
                OpusToc { config, stereo, code, frames: count, vbr, padding },
            )
            &&& code == 3 ==> toc_of(seq![first]) is None
            &&& toc_of(Seq::empty()) is None
        }),
{
}

/// The mode, the bandwidth and the length of a frame go by the configuration: SILK below 12, hybrid
/// below 16 and CELT from there on, each counting up its own bandwidths and lengths.
pub proof fn lemma_what_a_configuration_means(toc: OpusToc)
    requires
        toc.config < 32,
    ensures
        toc.mode() == OpusMode::Silk <==> toc.config < 12,
        toc.mode() == OpusMode::Hybrid <==> 12 <= toc.config < 16,
        toc.mode() == OpusMode::Celt <==> 16 <= toc.config,
        toc.config < 12 ==> toc.frame_duration_us() == (match toc.config % 4 {
            0 => 10_000int,
            1 => 20_000,
            2 => 40_000,
            _ => 60_000,
        }),
        12 <= toc.config < 16 ==> toc.frame_duration_us() == 10_000 * (1 + toc.config % 2),
        16 <= toc.config ==> toc.frame_duration_us() == (match toc.config % 4 {
            0 => 2_500int,
            1 => 5_000,
            2 => 10_000,
            _ => 20_000,
        }),
        toc.bandwidth().nominal_rate_hz() == (if toc.config < 16 {
            match toc.config / 2 {
                0 => 8_000int,
                1 => 8_000,
                2 => 12_000,
                3 => 12_000,
                4 => 16_000,
                5 => 16_000,
                6 => 24_000,
                _ => 48_000,
            }
        } else {
            match toc.config / 4 {
                4 => 8_000int,
                5 => 16_000,
                6 => 24_000,
                _ => 48_000,
            }
        }),
        toc.channels() == (if toc.stereo {
            2int
        } else {
            1
        }),
        toc.frames < 64 ==> match toc.total_duration_us() {
            Some(us) => toc.frames > 0 && us == toc.frames * toc.frame_duration_us(),
            None => toc.frames == 0,
        },
{
    let frames = toc.frames as int;
    let each = toc.frame_duration_us() as int;
    assert(0 <= frames * each <= 255 * 60_000) by (nonlinear_arith)
        requires
            0 <= frames <= 255,
            0 <= each <= 60_000,
    ;
}

/// Each bandwidth has its own rate.
pub proof fn lemma_bandwidths_differ_in_rate(a: OpusBandwidth, b: OpusBandwidth)
    ensures
        a.nominal_rate_hz() == b.nominal_rate_hz() ==> a == b,
{
}

/// What each voice frame does to a capture: `0x97` begins one, `0x46` is a packet of it, numbered
/// from zero, and begins one whose start was lost, and `0x99` ends it. Outside a capture there is
/// nothing to end.
pub proof fn lemma_what_each_voice_frame_does(s: VoiceState, cmd: u8, data: Seq<u8>)
    ensures
        after_upload(s, 0x97, data) == (
            VoiceState { capturing: true, packets: 0 },
            seq![VoiceEventView::Started],
        ),
        s.capturing && s.packets < u64::MAX ==> after_upload(s, 0x46, data) == (
            VoiceState { capturing: true, packets: (s.packets + 1) as u64 },
            seq![VoiceEventView::Packet { payload: data, toc: toc_of(data), index: s.packets }],
        ),
        s.capturing && s.packets == u64::MAX ==> after_upload(s, 0x46, data) == (
            s,
            seq![VoiceEventView::Packet { payload: data, toc: toc_of(data), index: s.packets }],
        ),
        !s.capturing ==> after_upload(s, 0x46, data) == (
            VoiceState { capturing: true, packets: 1 },
            seq![
                VoiceEventView::StartedRecovered,
                VoiceEventView::Packet { payload: data, toc: toc_of(data), index: 0 },
            ],
        ),
        s.capturing ==> after_upload(s, 0x99, data) == (
            VoiceState { capturing: false, ..s },
            seq![VoiceEventView::Ended(EndCause::DeviceSignalled)],
        ),
        !s.capturing ==> after_upload(s, 0x99, data) == (s, seq![VoiceEventView::Ignored]),
        cmd != 0x97 && cmd != 0x46 && cmd != 0x99 ==> after_upload(s, cmd, data) == (
            s,
            seq![VoiceEventView::Ignored],
        ),
{
}

/// Closing a capture ends it for the cause that was given, and keeps its count of packets.
pub proof fn lemma_closing_ends_for_the_cause(s: VoiceState, cause: EndCause)
    ensures
        s.capturing ==> after_close(s, cause) == (
            VoiceState { capturing: false, packets: s.packets },
            seq![VoiceEventView::Ended(cause)],
        ),
        !s.capturing ==> after_close(s, cause) == (s, seq![VoiceEventView::Ignored]),
        idle() == (VoiceState { capturing: false, packets: 0 }),
{
}

/// A voice event shows what it carries.
pub proof fn lemma_what_a_voice_event_shows(e: VoiceEvent)
    ensures
        match e {
            VoiceEvent::Started => e@ == VoiceEventView::Started,
            VoiceEvent::StartedRecovered => e@ == VoiceEventView::StartedRecovered,
            VoiceEvent::Packet(p) => e@ == (VoiceEventView::Packet {
                payload: p.payload@,
                toc: p.toc,
                index: p.index,
            }),
            VoiceEvent::Ended(cause) => e@ == VoiceEventView::Ended(cause),
            VoiceEvent::Ignored => e@ == VoiceEventView::Ignored,
        },
{
}

} // verus!

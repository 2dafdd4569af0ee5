//! RTP (RFC 3550): the twelve-byte header, and a sequence tracker that notices loss.
//!
//! The live stream arrives as UDP datagrams, one RTP packet per datagram. This module parses the
//! header and hands back the payload; what the payload means is [`crate::h264`]'s and
//! [`crate::aac`]'s.
//!
//! ```text
//!  0                   1                   2                   3
//!  0 1 2 3 4 5 6 7 8 9 0 1 2 3 4 5 6 7 8 9 0 1 2 3 4 5 6 7 8 9 0 1
//! +-+-+-+-+-+-+-+-+-+-+-+-+-+-+-+-+-+-+-+-+-+-+-+-+-+-+-+-+-+-+-+-+
//! |V=2|P|X|  CC   |M|     PT      |       sequence number         |
//! |                           timestamp                           |
//! |                             SSRC                              |
//! |                          CSRC (0..15)                         |
//! +-+-+-+-+-+-+-+-+-+-+-+-+-+-+-+-+-+-+-+-+-+-+-+-+-+-+-+-+-+-+-+-+
//! ```
//!
//! Sequence numbers wrap, and that is not loss: [`SequenceTracker`] compares in 16-bit modular
//! arithmetic, so a difference in the top half of the space is a reorder and not a gap of some
//! 65,000 packets.
use crate::text;
use crate::wire;
use crate::wire::be16;
use crate::wire::be32;
use vstd::prelude::*;
use vstd::slice::slice_subrange;

verus! {

/// The fixed part of the header, before any CSRC list or extension.
pub const HEADER_BYTES: usize = 12;

/// The version this parser accepts.
pub const VERSION: u8 = 2;

/// A parsed RTP header.
#[derive(Debug, Clone, Copy, PartialEq, Eq, Structural)]
pub struct RtpHeader {
    pub version: u8,
    pub padding: bool,
    pub extension: bool,
    pub csrc_count: u8,
    /// Set on the last packet of an access unit.
    pub marker: bool,
    /// 96 video / 97 audio here: dynamic, and meaningless without the session description.
    pub payload_type: u8,
    pub sequence: u16,
    /// 90 kHz on the video track, 16 kHz on audio.
    pub timestamp: u32,
    pub ssrc: u32,
    /// Offset of the payload within the packet: past the fixed header, the CSRC list and any
    /// extension.
    pub payload_offset: usize,
    /// Padding bytes trimmed from the end, per the `P` bit.
    pub padding_bytes: usize,
}

/// A header and the payload it introduces.
#[derive(Debug, Clone, Copy, PartialEq, Eq)]
pub struct RtpPacket<'a> {
    pub header: RtpHeader,
    /// Payload with the extension skipped and the padding trimmed.
    pub payload: &'a [u8],
}

/// Why a datagram is not an RTP packet.
#[derive(Debug, Clone, Copy, PartialEq, Eq, Structural)]
pub enum RtpError {
    /// Shorter than the twelve-byte fixed header.
    TooShort { len: usize },
    /// Version field was not 2. Almost always a datagram from something else on the port.
    BadVersion { version: u8 },
    /// The CSRC count ran past the end of the datagram.
    TruncatedCsrc,
    /// The `X` bit was set and the extension header does not fit.
    TruncatedExtension,
    /// The `P` bit was set and the padding length is zero or longer than the payload.
    BadPadding { stated: usize, available: usize },
}

impl RtpError {
    /// The error in words.
    pub open spec fn words(self) -> Seq<char> {
        match self {
            RtpError::TooShort { len } => text::decimal_text(len as int) + " bytes, need 12"@,
            RtpError::BadVersion { version } => "RTP version "@ + text::decimal_text(version as int)
                + ", expected 2"@,
            RtpError::TruncatedCsrc => "CSRC list runs past the packet"@,
            RtpError::TruncatedExtension => "extension header runs past the packet"@,
            RtpError::BadPadding { stated, available } => "padding of "@ + text::decimal_text(
                stated as int,
            ) + " in "@ + text::decimal_text(available as int) + " bytes"@,
        }
    }

    pub fn to_string(&self) -> (s: String)
        ensures
            s@ == self.words(),
    {
        match self {
            RtpError::TooShort { len } => {
                let mut out: String = String::new();
                text::push_decimal(&mut out, *len as u64);
                assert(out@ =~= text::decimal_text(*len as int));
                out.append(" bytes, need 12");
                out
            },
            RtpError::BadVersion { version } => {
                let mut out = String::from_str("RTP version ");
                text::push_decimal(&mut out, *version as u64);
                out.append(", expected 2");
                out
            },
            RtpError::TruncatedCsrc => String::from_str("CSRC list runs past the packet"),
            RtpError::TruncatedExtension => String::from_str(
                "extension header runs past the packet",
            ),
            RtpError::BadPadding { stated, available } => {
                let mut out = String::from_str("padding of ");
                text::push_decimal(&mut out, *stated as u64);
                out.append(" in ");
                text::push_decimal(&mut out, *available as u64);
                out.append(" bytes");
                out
            },
        }
    }
}

/// Whether the `P` bit is set.
pub open spec fn has_padding(b: Seq<u8>) -> bool {
    (b[0] / 32) % 2 == 1
}

/// Whether the `X` bit is set.
pub open spec fn has_extension(b: Seq<u8>) -> bool {
    (b[0] / 16) % 2 == 1
}

/// Where the CSRC list ends.
pub open spec fn csrc_end(b: Seq<u8>) -> int {
    HEADER_BYTES + 4 * (b[0] % 16)
}

/// Where the payload begins: past the fixed header, the CSRC list and any extension, whose own
/// header counts its 32-bit words.
pub open spec fn payload_start(b: Seq<u8>) -> int {
    if has_extension(b) {
        csrc_end(b) + 4 + 4 * wire::be16_at(b, csrc_end(b) + 2)
    } else {
        csrc_end(b)
    }
}

/// How many bytes at the end are padding. The last one says so.
pub open spec fn padding_len(b: Seq<u8>) -> int {
    if has_padding(b) {
        b[b.len() - 1] as int
    } else {
        0
    }
}

/// What is wrong with a datagram as an RTP packet, if anything.
pub open spec fn fault(b: Seq<u8>) -> Option<RtpError> {
    if b.len() < HEADER_BYTES {
        Some(RtpError::TooShort { len: b.len() as usize })
    } else if b[0] / 64 != VERSION {
        Some(RtpError::BadVersion { version: b[0] / 64 })
    } else if csrc_end(b) > b.len() {
        Some(RtpError::TruncatedCsrc)
    } else if has_extension(b) && (csrc_end(b) + 4 > b.len() || payload_start(b) > b.len()) {
        Some(RtpError::TruncatedExtension)
    } else if has_padding(b) && !(1 <= padding_len(b) <= b.len() - payload_start(b)) {
        Some(
            RtpError::BadPadding {
                stated: padding_len(b) as usize,
                available: (b.len() - payload_start(b)) as usize,
            },
        )
    } else {
        None
    }
}

/// The header of a datagram that is an RTP packet.
pub open spec fn header_of(b: Seq<u8>) -> RtpHeader {
    RtpHeader {
        version: VERSION,
        padding: has_padding(b),
        extension: has_extension(b),
        csrc_count: b[0] % 16,
        marker: b[1] >= 128,
        payload_type: b[1] % 128,
        sequence: wire::be16_at(b, 2) as u16,
        timestamp: wire::be32_at(b, 4) as u32,
        ssrc: wire::be32_at(b, 8) as u32,
        payload_offset: payload_start(b) as usize,
        padding_bytes: padding_len(b) as usize,
    }
}

/// The payload of a datagram that is an RTP packet.
pub open spec fn payload_of(b: Seq<u8>) -> Seq<u8> {
    b.subrange(payload_start(b), b.len() - padding_len(b))
}

/// The fields of the first two bytes, read as numbers.
proof fn lemma_bit_fields(b: u8)
    ensures
        b >> 6 == b / 64,
        (b & 0x20 != 0) == ((b / 32) % 2 == 1),
        (b & 0x10 != 0) == ((b / 16) % 2 == 1),
        b & 0x0F == b % 16,
        (b & 0x80 != 0) == (b >= 128),
        b & 0x7F == b % 128,
{
    assert(b >> 6 == b / 64 && (b & 0x20 != 0) == ((b / 32) % 2 == 1) && (b & 0x10 != 0) == ((b
        / 16) % 2 == 1) && b & 0x0F == b % 16 && (b & 0x80 != 0) == (b >= 128) && b & 0x7F == b
        % 128) by (bit_vector);
}

/// Parse one datagram as an RTP packet.
///
/// The extension header, if present, is skipped rather than returned.
pub fn parse(bytes: &[u8]) -> (r: Result<RtpPacket<'_>, RtpError>)
    ensures
        r is Err <==> fault(bytes@) is Some,
        r matches Err(e) ==> fault(bytes@) == Some(e),
        r matches Ok(p) ==> p.header == header_of(bytes@) && p.payload@ == payload_of(bytes@),
{
    if bytes.len() < HEADER_BYTES {
        return Err(RtpError::TooShort { len: bytes.len() });
    }
    proof {
        lemma_bit_fields(bytes@[0]);
        lemma_bit_fields(bytes@[1]);
    }
    let version: u8 = bytes[0] >> 6;
    if version != VERSION {
        return Err(RtpError::BadVersion { version });
    }
    let padding = bytes[0] & 0x20 != 0;
    let extension = bytes[0] & 0x10 != 0;
    let csrc_count: u8 = bytes[0] & 0x0F;
    let marker = bytes[1] & 0x80 != 0;
    let payload_type: u8 = bytes[1] & 0x7F;
    let sequence: u16 = be16(bytes, 2);
    let timestamp: u32 = be32(bytes, 4);
    let ssrc: u32 = be32(bytes, 8);

    let mut offset: usize = HEADER_BYTES + csrc_count as usize * 4;
    if offset > bytes.len() {
        return Err(RtpError::TruncatedCsrc);
    }
    if extension {
        if bytes.len() - offset < 4 {
            return Err(RtpError::TruncatedExtension);
        }
        let words: usize = be16(bytes, offset + 2) as usize;
        offset = offset + 4 + words * 4;
        if offset > bytes.len() {
            return Err(RtpError::TruncatedExtension);
        }
    }
    let mut end: usize = bytes.len();
    let mut padding_bytes: usize = 0;
    if padding {
        let stated: usize = bytes[bytes.len() - 1] as usize;
        let available: usize = end - offset;
        if stated == 0 || stated > available {
            return Err(RtpError::BadPadding { stated, available });
        }
        padding_bytes = stated;
        end = end - stated;
    }
    Ok(
        RtpPacket {
            header: RtpHeader {
                version,
                padding,
                extension,
                csrc_count,
                marker,
                payload_type,
                sequence,
                timestamp,
                ssrc,
                payload_offset: offset,
                padding_bytes,
            },
            payload: slice_subrange(bytes, offset, end),
        },
    )
}

/// What one sequence number meant relative to the ones before it.
#[derive(Debug, Clone, Copy, PartialEq, Eq, Structural)]
pub enum SequenceReport {
    /// The first packet of the stream, or the first after a [`SequenceTracker::reset`].
    First,
    /// Exactly one past the previous highest. The normal case.
    InOrder,
    /// Ahead of the previous highest, with a gap. `missing` counts the numbers skipped: they may
    /// still arrive later as [`Self::Reordered`].
    Lost { missing: u16 },
    /// Behind the previous highest: a late or reordered packet, still usable.
    Reordered { behind: u16 },
    /// A sequence number already seen.
    Duplicate,
}

/// How many numbers below the highest the tracker remembers.
pub const WINDOW: u16 = 64;

/// Past any step backwards, which reaches at most half of the number space.
pub const FARTHEST: u16 = 0x8001;

/// How far ahead of `from` the number `to` is, in 16-bit modular order.
pub open spec fn ahead(from: u16, to: u16) -> int {
    (to - from) % 0x10000
}

/// The state of a [`SequenceTracker`].
#[verifier::ext_equal]
pub struct TrackerView {
    /// The highest number seen.
    pub highest: Option<u16>,
    /// The numbers seen among the [`WINDOW`] below the highest.
    pub recent: Set<u16>,
    /// How far the highest number has come since the first one seen, [`FARTHEST`] at most.
    pub span: int,
    pub received: int,
    pub lost: int,
    pub duplicates: int,
    pub reordered: int,
}

/// A tracker that has seen nothing.
pub open spec fn unstarted() -> TrackerView {
    TrackerView {
        highest: None,
        recent: Set::empty(),
        span: 0,
        received: 0,
        lost: 0,
        duplicates: 0,
        reordered: 0,
    }
}

/// What a number means after those seen so far. A step in the top half of the number space is a
/// step backwards.
pub open spec fn report_of(t: TrackerView, sequence: u16) -> SequenceReport {
    match t.highest {
        None => SequenceReport::First,
        Some(highest) => {
            let step = ahead(highest, sequence);
            if step == 0 || t.recent.contains(sequence) {
                SequenceReport::Duplicate
            } else if step == 1 {
                SequenceReport::InOrder
            } else if step < 0x8000 {
                SequenceReport::Lost { missing: (step - 1) as u16 }
            } else {
                SequenceReport::Reordered { behind: (0x10000 - step) as u16 }
            }
        },
    }
}

/// What observing a number does. A gap is counted when it opens and retired by the late packet
/// that fills it. A number from before the first one seen was never counted and retires nothing.
pub open spec fn after_observe(t: TrackerView, sequence: u16) -> TrackerView {
    match report_of(t, sequence) {
        SequenceReport::First => TrackerView { highest: Some(sequence), received: 1, ..t },
        SequenceReport::Duplicate => TrackerView { duplicates: t.duplicates + 1, ..t },
        SequenceReport::InOrder => advanced(t, sequence, 0),
        SequenceReport::Lost { missing } => advanced(t, sequence, missing as int),
        SequenceReport::Reordered { behind } => TrackerView {
            recent: if behind <= WINDOW {
                t.recent.insert(sequence)
            } else {
                t.recent
            },
            received: t.received + 1,
            reordered: t.reordered + 1,
            lost: if behind < t.span && t.lost > 0 {
                t.lost - 1
            } else {
                t.lost
            },
            ..t
        },
    }
}

/// A new highest number, with `missing` numbers skipped on the way.
pub open spec fn advanced(t: TrackerView, sequence: u16, missing: int) -> TrackerView {
    TrackerView {
        highest: Some(sequence),
        recent: t.recent.insert(t.highest->Some_0).filter(
            |s: u16| 1 <= ahead(s, sequence) <= WINDOW,
        ),
        span: if t.span + missing + 1 < FARTHEST {
            t.span + missing + 1
        } else {
            FARTHEST as int
        },
        received: t.received + 1,
        lost: t.lost + missing,
        ..t
    }
}

/// Whether every counter fits in 64 bits.
pub open spec fn countable(t: TrackerView) -> bool {
    t.received <= u64::MAX && t.lost <= u64::MAX && t.duplicates <= u64::MAX
}

/// Counts packets, gaps and reorders on one SSRC.
///
/// It has no clock and cannot decide that a gap has become permanent.
#[derive(Debug, Clone)]
pub struct SequenceTracker {
    highest: Option<u16>,
    /// How far `highest` has come since the first number, so that a packet from before it is not
    /// taken for one that was skipped.
    span: u16,
    received: u64,
    lost: u64,
    duplicates: u64,
    reordered: u64,
    /// Bitmap of the 64 sequence numbers below `highest`, so a late arrival can retire a gap
    /// instead of double-counting it.
    window: u64,
}

/// Whether bit `k` of the window is set.
spec fn marked(window: u64, k: u64) -> bool {
    (window >> k) & 1 == 1
}

impl View for SequenceTracker {
    type V = TrackerView;

    closed spec fn view(&self) -> TrackerView {
        TrackerView {
            highest: self.highest,
            recent: match self.highest {
                None => Set::empty(),
                Some(highest) => seen_below(highest, self.window),
            },
            span: self.span as int,
            received: self.received as int,
            lost: self.lost as int,
            duplicates: self.duplicates as int,
            reordered: self.reordered as int,
        }
    }
}

/// The numbers that the window marks below `highest`.
spec fn seen_below(highest: u16, window: u64) -> Set<u16> {
    Set::new(
        |s: u16| 1 <= ahead(s, highest) <= WINDOW && marked(window, (ahead(s, highest) - 1) as u64),
    )
}

impl Default for SequenceTracker {
    fn default() -> (t: Self)
        ensures
            t.wf(),
            t@ == unstarted(),
    {
        Self::new()
    }
}

impl SequenceTracker {
    /// The counters agree with each other.
    pub closed spec fn wf(&self) -> bool {
        &&& self.reordered <= self.received
        &&& self.span <= FARTHEST
        &&& self.highest is None ==> self.window == 0 && self.span == 0 && self.received == 0
            && self.lost == 0
    }

    /// A tracker remembers only what lies in the window, and its counts are not negative.
    pub proof fn lemma_remembers_the_window(&self)
        requires
            self.wf(),
        ensures
            recent_below(self@),
            0 <= self@.span <= FARTHEST,
            self@.lost >= 0,
    {
    }

    pub fn new() -> (t: Self)
        ensures
            t.wf(),
            t@ == unstarted(),
    {
        SequenceTracker {
            highest: None,
            span: 0,
            received: 0,
            lost: 0,
            duplicates: 0,
            reordered: 0,
            window: 0,
        }
    }

    /// The highest sequence number seen, in modular order.
    pub fn highest(&self) -> (r: Option<u16>)
        ensures
            r == self@.highest,
    {
        self.highest
    }

    /// Packets accepted, duplicates excluded.
    pub fn received(&self) -> (r: u64)
        ensures
            r == self@.received,
    {
        self.received
    }

    /// Packets believed missing. An estimate: a gap is counted when it opens and retired when a
    /// late packet fills it, so this can go down. It never goes below zero.
    pub fn lost_estimate(&self) -> (r: u64)
        ensures
            r == self@.lost,
    {
        self.lost
    }

    pub fn duplicates(&self) -> (r: u64)
        ensures
            r == self@.duplicates,
    {
        self.duplicates
    }

    pub fn reordered(&self) -> (r: u64)
        ensures
            r == self@.reordered,
    {
        self.reordered
    }

    /// Forget everything. Called on an SSRC change, which is a new stream wearing the old port.
    pub fn reset(&mut self)
        ensures
            final(self).wf(),
            final(self)@ == unstarted(),
    {
        *self = SequenceTracker::new();
    }

    /// Record one sequence number and say what it was.
    pub fn observe(&mut self, sequence: u16) -> (report: SequenceReport)
        requires
            old(self).wf(),
            countable(after_observe(old(self)@, sequence)),
        ensures
            final(self).wf(),
            report == report_of(old(self)@, sequence),
            final(self)@ == after_observe(old(self)@, sequence),
    {
        let ghost before = self@;
        let ghost window = self.window;
        let highest: u16 = match self.highest {
            Some(h) => h,
            None => {
                self.highest = Some(sequence);
                self.received = 1;
                proof {
                    assert forall|k: u64| !marked(0, k) by {
                        assert((0u64 >> k) & 1 == 0) by (bit_vector);
                    }
                    assert(self@.recent =~= before.recent);
                }
                return SequenceReport::First;
            },
        };
        // A difference in the top half of the 16-bit space is a step backwards, not a jump
        // forward of 32,000-odd.
        let delta: u16 = sequence.wrapping_sub(highest);
        assert(delta == ahead(highest, sequence));
        if delta == 0 {
            self.duplicates = self.duplicates + 1;
            return SequenceReport::Duplicate;
        }
        if delta < 0x8000 {
            let missing: u16 = delta - 1;
            proof {
                assert(!before.recent.contains(sequence));
                assert(after_observe(before, sequence) == advanced(
                    before,
                    sequence,
                    missing as int,
                ));
            }
            self.received = self.received + 1;
            self.highest = Some(sequence);
            self.window = if delta < WINDOW {
                (self.window << delta) | (1u64 << (delta - 1))
            } else if delta == WINDOW {
                1u64 << (WINDOW - 1)
            } else {
                0
            };
            self.span = if self.span < FARTHEST - delta {
                self.span + delta
            } else {
                FARTHEST
            };
            self.lost = self.lost + missing as u64;
            proof {
                lemma_window_moves(highest, sequence, window, self.window);
                assert(self@.recent =~= advanced(before, sequence, missing as int).recent);
            }
            if missing > 0 {
                return SequenceReport::Lost { missing };
            }
            SequenceReport::InOrder
        } else {
            let behind: u16 = highest.wrapping_sub(sequence);
            assert(behind == 0x10000 - delta);
            assert(behind == ahead(sequence, highest));
            if behind <= WINDOW {
                let bit: u64 = 1u64 << (behind - 1);
                proof {
                    lemma_mark_tests(self.window, (behind - 1) as u64);
                }
                if self.window & bit != 0 {
                    self.duplicates = self.duplicates + 1;
                    return SequenceReport::Duplicate;
                }
                self.window = self.window | bit;
                proof {
                    assert forall|s: u16|
                        1 <= ahead(s, highest) <= WINDOW && s != sequence implies marked(
                        self.window,
                        (ahead(s, highest) - 1) as u64,
                    ) == marked(window, (ahead(s, highest) - 1) as u64) by {
                        lemma_mark_sets(
                            window,
                            (behind - 1) as u64,
                            (ahead(s, highest) - 1) as u64,
                        );
                    }
                    lemma_mark_sets(window, (behind - 1) as u64, (behind - 1) as u64);
                    assert(self@.recent =~= before.recent.insert(sequence));
                }
            }
            self.received = self.received + 1;
            self.reordered = self.reordered + 1;
            if behind < self.span && self.lost > 0 {
                self.lost = self.lost - 1;
            }
            SequenceReport::Reordered { behind }
        }
    }
}

/// Testing a bit of the window.
proof fn lemma_mark_tests(window: u64, k: u64)
    requires
        k < 64,
    ensures
        (window & (1u64 << k) != 0) == marked(window, k),
{
    assert((window & (1u64 << k) != 0) == ((window >> k) & 1 == 1)) by (bit_vector)
        requires
            k < 64,
    ;
}

/// Setting a bit of the window leaves the others.
proof fn lemma_mark_sets(window: u64, set: u64, k: u64)
    requires
        set < 64,
        k < 64,
    ensures
        marked(window | (1u64 << set), k) == (k == set || marked(window, k)),
{
    assert((((window | (1u64 << set)) >> k) & 1 == 1) == (k == set || (window >> k) & 1 == 1))
        by (bit_vector)
        requires
            set < 64,
            k < 64,
    ;
}

/// Shifting the window and marking the bit below the step.
proof fn lemma_mark_shifts(window: u64, step: u64, k: u64)
    requires
        1 <= step < 64,
        k < 64,
    ensures
        marked((window << step) | (1u64 << ((step - 1) as u64)), k) == (k == step - 1 || (k >= step
            && marked(window, (k - step) as u64))),
{
    let low = (step - 1) as u64;
    let down = (k - step) as u64;
    assert((((window << step) | (1u64 << low)) >> k) & 1 == 1 <==> (k == low || (k >= step && (
    window >> down) & 1 == 1))) by (bit_vector)
        requires
            1 <= step < 64,
            k < 64,
            low + 1 == step,
            k >= step ==> down + step == k,
    ;
}

/// The window after a step forward marks the previous highest and what is still in reach.
proof fn lemma_window_moves(highest: u16, sequence: u16, window: u64, moved: u64)
    requires
        1 <= ahead(highest, sequence) < 0x8000,
        ({
            let step = ahead(highest, sequence) as u64;
            moved == if step < 64 {
                (window << step) | (1u64 << ((step - 1) as u64))
            } else if step == 64 {
                1u64 << 63
            } else {
                0u64
            }
        }),
    ensures
        seen_below(sequence, moved) == seen_below(highest, window).insert(highest).filter(
            |s: u16| 1 <= ahead(s, sequence) <= WINDOW,
        ),
{
    let step = ahead(highest, sequence) as u64;
    let kept = seen_below(highest, window).insert(highest).filter(
        |s: u16| 1 <= ahead(s, sequence) <= WINDOW,
    );
    assert forall|s: u16| seen_below(sequence, moved).contains(s) == kept.contains(s) by {
        let far = ahead(s, sequence);
        if 1 <= far <= WINDOW {
            let k = (far - 1) as u64;
            if far > step {
                assert(ahead(s, highest) == far - step);
            } else if far < step {
                assert(ahead(s, highest) == 0x10000 + far - step);
            } else {
                assert(s == highest);
            }
            if step < 64 {
                lemma_mark_shifts(window, step, k);
            } else if step == 64 {
                assert((((1u64 << 63) >> k) & 1 == 1) == (k == 63)) by (bit_vector)
                    requires
                        k < 64,
                ;
            } else {
                assert((0u64 >> k) & 1 == 0) by (bit_vector);
            }
        }
    }
    assert(seen_below(sequence, moved) =~= kept);
}

// ---- laws -----------------------------------------------------------------------------

/// The state after observing the numbers in turn.
pub open spec fn after_all(t: TrackerView, sequences: Seq<u16>) -> TrackerView
    decreases sequences.len(),
{
    if sequences.len() == 0 {
        t
    } else {
        after_observe(after_all(t, sequences.drop_last()), sequences.last())
    }
}

/// `n` numbers from `start` on, wrapping past 65535.
pub open spec fn run_from(start: u16, n: nat) -> Seq<u16> {
    Seq::new(n, |i: int| ((start + i) % 0x10000) as u16)
}

/// A clean run of numbers of any length reports no loss, and wrapping past 65535 is part of a
/// clean run: every number after the first comes in order.
pub proof fn lemma_a_clean_run_is_not_loss(start: u16, n: nat)
    requires
        n >= 1,
    ensures
        ({
            let t = after_all(unstarted(), run_from(start, n));
            &&& t.highest == Some(((start + n - 1) % 0x10000) as u16)
            &&& t.received == n
            &&& t.lost == 0
            &&& t.duplicates == 0
            &&& t.reordered == 0
            &&& report_of(t, ((start + n) % 0x10000) as u16) == SequenceReport::InOrder
        }),
    decreases n,
{
    let run = run_from(start, n);
    let last = ((start + n - 1) % 0x10000) as u16;
    let next = ((start + n) % 0x10000) as u16;
    assert(run.drop_last() =~= run_from(start, (n - 1) as nat));
    let t = after_all(unstarted(), run);
    if n == 1 {
        assert(after_all(unstarted(), run.drop_last()) == unstarted());
    } else {
        lemma_a_clean_run_is_not_loss(start, (n - 1) as nat);
    }
    assert(ahead(last, next) == 1);
    assert(t.highest == Some(last));
    assert(!t.recent.contains(next)) by {
        lemma_recent_is_below(unstarted(), run);
        assert(ahead(next, last) == 0xFFFF);
    }
}

/// What is remembered lies in the window below the highest number.
pub open spec fn recent_below(t: TrackerView) -> bool {
    &&& t.highest is None ==> t.recent == Set::<u16>::empty()
    &&& forall|s: u16| #[trigger]
        t.recent.contains(s) ==> 1 <= ahead(s, t.highest->Some_0) <= WINDOW
}

/// Observing keeps what is remembered in the window.
proof fn lemma_recent_is_below(t: TrackerView, sequences: Seq<u16>)
    requires
        recent_below(t),
    ensures
        recent_below(after_all(t, sequences)),
    decreases sequences.len(),
{
    if sequences.len() > 0 {
        lemma_recent_is_below(t, sequences.drop_last());
        let u = after_all(t, sequences.drop_last());
        let s = sequences.last();
        if let SequenceReport::Reordered { behind } = report_of(u, s) {
            assert(ahead(s, u.highest->Some_0) == behind);
        }
    }
}

/// A number observed twice in a row is a duplicate the second time, unless it lies more than
/// [`WINDOW`] below the highest, and a duplicate changes nothing but its own count.
pub proof fn lemma_a_repeat_is_a_duplicate(t: TrackerView, sequence: u16)
    requires
        report_of(t, sequence) matches SequenceReport::Reordered { behind } ==> behind <= WINDOW,
    ensures
        ({
            let u = after_observe(t, sequence);
            &&& report_of(u, sequence) == SequenceReport::Duplicate
            &&& after_observe(u, sequence) == TrackerView { duplicates: u.duplicates + 1, ..u }
        }),
{
}

/// Every number from the first one seen up to the highest is accounted for: what was received and
/// what is believed lost together grow by exactly the step that the highest number makes. Only a
/// number from before the first one seen adds to what was received without having been counted.
/// A late packet has a gap to retire as long as the estimate is above zero.
pub proof fn lemma_every_number_is_accounted_for(t: TrackerView, sequence: u16)
    requires
        t.highest is Some,
        report_of(t, sequence) matches SequenceReport::Reordered { behind } ==> behind >= t.span
            || t.lost > 0,
    ensures
        ({
            let u = after_observe(t, sequence);
            let early = report_of(t, sequence) matches SequenceReport::Reordered { behind }
                && behind >= t.span;
            u.received + u.lost == t.received + t.lost + ahead(
                t.highest->Some_0,
                u.highest->Some_0,
            ) + (if early {
                1int
            } else {
                0
            })
        }),
{
}

/// How many of the `n` numbers below the highest are missing: past the first one seen, and not
/// seen themselves.
pub open spec fn missing_below(t: TrackerView, n: nat) -> nat
    decreases n,
{
    if n == 0 || t.highest is None {
        0
    } else {
        missing_below(t, (n - 1) as nat) + (if n < t.span && !t.recent.contains(
            back_from(t.highest->Some_0, n as int),
        ) {
            1nat
        } else {
            0
        })
    }
}

/// The number `n` places before `highest`.
pub open spec fn back_from(highest: u16, n: int) -> u16 {
    ((highest - n) % 0x10000) as u16
}

/// Whether every number missing in the window is counted as lost.
pub open spec fn gaps_counted(t: TrackerView) -> bool {
    &&& missing_below(t, WINDOW as nat) <= t.lost
    &&& 0 <= t.span <= FARTHEST
    &&& t.highest is None ==> t.span == 0 && t.lost == 0
}

/// A tracker that has seen nothing has every gap counted.
pub proof fn lemma_unstarted_has_no_gaps()
    ensures
        gaps_counted(unstarted()),
        recent_below(unstarted()),
{
}

/// As long as late packets stay in the window, every number missing there is counted as lost. So
/// a late packet always has a gap to retire, and the estimate never needs to be held at zero.
pub proof fn lemma_missing_numbers_are_counted(t: TrackerView, sequence: u16)
    requires
        gaps_counted(t),
        recent_below(t),
        report_of(t, sequence) matches SequenceReport::Reordered { behind } ==> behind >= t.span
            || behind <= WINDOW,
    ensures
        report_of(t, sequence) matches SequenceReport::Reordered { behind } ==> behind >= t.span
            || t.lost > 0,
        gaps_counted(after_observe(t, sequence)),
        recent_below(after_observe(t, sequence)),
{
    let u = after_observe(t, sequence);
    let step = ahead(t.highest->Some_0, sequence);
    lemma_recent_is_below(t, seq![sequence]);
    assert(seq![sequence].drop_last() =~= Seq::empty());
    assert(after_all(t, seq![sequence].drop_last()) == t);
    assert(after_all(t, seq![sequence]) == u);
    match report_of(t, sequence) {
        SequenceReport::First => {
            lemma_nothing_missing(u, WINDOW as nat);
        },
        SequenceReport::Duplicate => {
            lemma_missing_is_of_what_is_seen(t, u, WINDOW as nat);
        },
        SequenceReport::InOrder => {
            lemma_missing_after_a_step(t, u, sequence, WINDOW as nat);
            if step <= WINDOW {
                lemma_missing_grows(t, (WINDOW - step) as nat, WINDOW as nat);
            }
        },
        SequenceReport::Lost { missing } => {
            lemma_missing_after_a_step(t, u, sequence, WINDOW as nat);
            if step <= WINDOW {
                lemma_missing_grows(t, (WINDOW - step) as nat, WINDOW as nat);
            }
        },
        SequenceReport::Reordered { behind } => {
            lemma_missing_after_a_late_packet(t, sequence, behind, WINDOW as nat);
        },
    }
}

/// Nothing is missing at the first number.
proof fn lemma_nothing_missing(t: TrackerView, n: nat)
    requires
        t.span == 0,
    ensures
        missing_below(t, n) == 0,
    decreases n,
{
    if n > 0 {
        lemma_nothing_missing(t, (n - 1) as nat);
    }
}

/// What is missing depends only on what was seen.
proof fn lemma_missing_is_of_what_is_seen(t: TrackerView, u: TrackerView, n: nat)
    requires
        t.highest == u.highest,
        t.recent == u.recent,
        t.span == u.span,
    ensures
        missing_below(t, n) == missing_below(u, n),
    decreases n,
{
    if n > 0 {
        lemma_missing_is_of_what_is_seen(t, u, (n - 1) as nat);
    }
}

/// Where the number `n` places before the new highest stood before the step, and whether it is
/// still known to have been seen.
proof fn lemma_number_before_a_step(t: TrackerView, sequence: u16, n: int)
    requires
        t.highest is Some,
        1 <= ahead(t.highest->Some_0, sequence) < 0x8000,
        1 <= n <= WINDOW,
    ensures
        ({
            let highest = t.highest->Some_0;
            let step = ahead(highest, sequence);
            let number = back_from(sequence, n);
            let u = advanced(t, sequence, step - 1);
            &&& n == step ==> u.recent.contains(number)
            &&& n > step ==> number == back_from(highest, n - step)
            &&& n > step ==> t.recent.contains(number) ==> u.recent.contains(number)
        }),
{
    let highest = t.highest->Some_0;
    let number = back_from(sequence, n);
    assert(ahead(number, sequence) == n);
    if n == ahead(highest, sequence) {
        assert(number == highest);
    }
}

/// What is missing after a step forward: the numbers skipped, and what was missing before.
proof fn lemma_missing_after_a_step(t: TrackerView, u: TrackerView, sequence: u16, n: nat)
    requires
        t.highest is Some,
        0 <= t.span <= FARTHEST,
        1 <= ahead(t.highest->Some_0, sequence) < 0x8000,
        u == advanced(t, sequence, ahead(t.highest->Some_0, sequence) - 1),
        n <= WINDOW,
    ensures
        ({
            let step = ahead(t.highest->Some_0, sequence);
            &&& n < step ==> missing_below(u, n) <= n
            &&& n >= step ==> missing_below(u, n) <= step - 1 + missing_below(
                t,
                (n - step) as nat,
            )
        }),
    decreases n,
{
    if n > 0 {
        lemma_missing_after_a_step(t, u, sequence, (n - 1) as nat);
        lemma_number_before_a_step(t, sequence, n as int);
    }
}

/// More is missing among more numbers.
proof fn lemma_missing_grows(t: TrackerView, n: nat, m: nat)
    requires
        n <= m,
    ensures
        missing_below(t, n) <= missing_below(t, m),
    decreases m,
{
    if n < m {
        lemma_missing_grows(t, n, (m - 1) as nat);
    }
}

/// What is missing after a late packet: all but its own number.
proof fn lemma_missing_after_a_late_packet(t: TrackerView, sequence: u16, behind: u16, n: nat)
    requires
        report_of(t, sequence) == (SequenceReport::Reordered { behind }),
        behind >= t.span || behind <= WINDOW,
        n <= WINDOW,
    ensures
        missing_below(after_observe(t, sequence), n) == missing_below(t, n) - (if behind <= n
            && behind < t.span {
            1int
        } else {
            0
        }),
    decreases n,
{
    if n > 0 {
        lemma_missing_after_a_late_packet(t, sequence, behind, (n - 1) as nat);
        let highest = t.highest->Some_0;
        let number = back_from(highest, n as int);
        assert(ahead(number, highest) == n);
        assert(ahead(sequence, highest) == behind);
        if n == behind {
            assert(number == sequence);
        } else {
            assert(number != sequence);
        }
    }
}

/// A number from before the first one seen was never counted as skipped: it retires no gap.
pub proof fn lemma_an_early_number_retires_nothing(t: TrackerView, sequence: u16)
    requires
        report_of(t, sequence) matches SequenceReport::Reordered { behind } && behind >= t.span,
    ensures
        after_observe(t, sequence).lost == t.lost,
{
}

/// The estimate of what is lost never falls below zero.
pub proof fn lemma_lost_is_never_negative(sequences: Seq<u16>)
    ensures
        after_all(unstarted(), sequences).lost >= 0,
    decreases sequences.len(),
{
    if sequences.len() > 0 {
        lemma_lost_is_never_negative(sequences.drop_last());
    }
}

/// A gap is retired by the packets that fill it: observing a number that skips `missing` others,
/// and after it each of those, leaves the estimate of what is lost where it was.
pub proof fn lemma_a_filled_gap_is_no_loss(t: TrackerView, sequence: u16, missing: u16)
    requires
        recent_below(t),
        t.span >= 0,
        t.lost >= 0,
        report_of(t, sequence) == (SequenceReport::Lost { missing }),
    ensures
        after_all(
            after_observe(t, sequence),
            run_from(((t.highest->Some_0 + 1) % 0x10000) as u16, missing as nat),
        ).lost == t.lost,
{
    let late = run_from(((t.highest->Some_0 + 1) % 0x10000) as u16, missing as nat);
    lemma_late_packets_retire(t, sequence, missing, missing as nat);
    assert(late.take(missing as int) =~= late);
}

/// Where the number `i` places past `highest` lies in a gap of `missing` numbers.
proof fn lemma_number_in_gap(highest: u16, sequence: u16, missing: u16, i: int)
    requires
        ahead(highest, sequence) == missing + 1,
        missing < 0x7FFF,
        0 <= i < missing,
    ensures
        ({
            let number = run_from(((highest + 1) % 0x10000) as u16, missing as nat)[i];
            &&& ahead(number, sequence) == missing - i
            &&& ahead(sequence, number) == 0x10000 - missing + i
            &&& ahead(highest, number) == i + 1
            &&& ahead(number, highest) == 0xFFFF - i
        }),
{
}

/// The first `n` late packets each retire one missing number.
proof fn lemma_late_packets_retire(t: TrackerView, sequence: u16, missing: u16, n: nat)
    requires
        recent_below(t),
        t.span >= 0,
        t.lost >= 0,
        report_of(t, sequence) == (SequenceReport::Lost { missing }),
        n <= missing,
    ensures
        ({
            let late = run_from(((t.highest->Some_0 + 1) % 0x10000) as u16, missing as nat);
            let u = after_all(after_observe(t, sequence), late.take(n as int));
            &&& u.highest == Some(sequence)
            &&& u.span == after_observe(t, sequence).span
            &&& u.lost == t.lost + missing - n
            &&& forall|i: int| n <= i < missing ==> !u.recent.contains(#[trigger] late[i])
        }),
    decreases n,
{
    let highest = t.highest->Some_0;
    let late = run_from(((highest + 1) % 0x10000) as u16, missing as nat);
    let begun = after_observe(t, sequence);
    assert(ahead(highest, sequence) == missing + 1 && missing < 0x7FFF);
    if n == 0 {
        assert(late.take(0) =~= Seq::empty());
        assert forall|i: int| 0 <= i < missing implies !begun.recent.contains(
            #[trigger] late[i],
        ) by {
            lemma_number_in_gap(highest, sequence, missing, i);
        }
    } else {
        let m = (n - 1) as nat;
        lemma_late_packets_retire(t, sequence, missing, m);
        let number = late[m as int];
        let u = after_all(begun, late.take(m as int));
        assert(late.take(n as int).drop_last() =~= late.take(m as int));
        assert(late.take(n as int).last() == number);
        lemma_number_in_gap(highest, sequence, missing, m as int);
        lemma_one_retires(u, number, (missing - m) as u16);
        assert forall|i: int| n <= i < missing implies !u.recent.insert(number).contains(
            #[trigger] late[i],
        ) by {
            lemma_number_in_gap(highest, sequence, missing, i);
        }
    }
}

/// What one late packet does.
proof fn lemma_one_retires(u: TrackerView, number: u16, behind: u16)
    requires
        u.highest is Some,
        ahead(u.highest->Some_0, number) == 0x10000 - behind,
        1 <= behind <= 0x7FFF,
        behind < u.span,
        u.lost > 0,
        !u.recent.contains(number),
    ensures
        after_observe(u, number) == (TrackerView {
            recent: if behind <= WINDOW {
                u.recent.insert(number)
            } else {
                u.recent
            },
            received: u.received + 1,
            reordered: u.reordered + 1,
            lost: u.lost - 1,
            ..u
        }),
{
}

// ---- what the bytes of a packet mean -------------------------------------------------------

/// A packet reads back as it was put together: twelve bytes of flags, numbers and source, as many
/// contributing sources as the first byte says, an extension of as many words as it says if there
/// is one, the payload, and padding whose last byte is its length if there is any.
pub proof fn lemma_a_packet_reads_back(
    csrc: Seq<u8>,
    marker: bool,
    payload_type: u8,
    sequence: u16,
    timestamp: u32,
    ssrc: u32,
    profile: (u8, u8),
    extension: Option<Seq<u8>>,
    payload: Seq<u8>,
    padding: Option<Seq<u8>>,
)
    requires
        csrc.len() % 4 == 0,
        csrc.len() <= 60,
        payload_type < 128,
        extension matches Some(words) ==> words.len() % 4 == 0 && words.len() < 0x4_0000,
        padding matches Some(bytes) ==> bytes.len() < 255,
        12 + csrc.len() + 0x4_0004 + payload.len() + 256 <= usize::MAX,
    ensures
        ({
            let first = 128 + (if padding is Some {
                32int
            } else {
                0
            }) + (if extension is Some {
                16int
            } else {
                0
            }) + csrc.len() / 4;
            let fixed = seq![
                first as u8,
                ((if marker {
                    128int
                } else {
                    0
                }) + payload_type) as u8,
                (sequence / 256) as u8,
                (sequence % 256) as u8,
                (timestamp / 0x100_0000) as u8,
                (timestamp / 0x1_0000 % 256) as u8,
                (timestamp / 0x100 % 256) as u8,
                (timestamp % 256) as u8,
                (ssrc / 0x100_0000) as u8,
                (ssrc / 0x1_0000 % 256) as u8,
                (ssrc / 0x100 % 256) as u8,
                (ssrc % 256) as u8,
            ];
            let extended = match extension {
                Some(words) => seq![
                    profile.0,
                    profile.1,
                    (words.len() / 4 / 256) as u8,
                    (words.len() / 4 % 256) as u8,
                ] + words,
                None => Seq::empty(),
            };
            let padded = match padding {
                Some(bytes) => bytes.push((bytes.len() + 1) as u8),
                None => Seq::empty(),
            };
            let packet = fixed + csrc + extended + payload + padded;
            let header = header_of(packet);
            &&& fault(packet) is None
            &&& payload_of(packet) == payload
            &&& header.version == 2
            &&& header.padding == (padding is Some)
            &&& header.extension == (extension is Some)
            &&& header.csrc_count == csrc.len() / 4
            &&& header.marker == marker
            &&& header.payload_type == payload_type
            &&& header.sequence == sequence
            &&& header.timestamp == timestamp
            &&& header.ssrc == ssrc
            &&& header.payload_offset == (fixed + csrc + extended).len()
            &&& header.padding_bytes == padded.len()
        }),
{
    let first = 128 + (if padding is Some {
        32int
    } else {
        0
    }) + (if extension is Some {
        16int
    } else {
        0
    }) + csrc.len() / 4;
    let fixed = seq![
        first as u8,
        ((if marker {
            128int
        } else {
            0
        }) + payload_type) as u8,
        (sequence / 256) as u8,
        (sequence % 256) as u8,
        (timestamp / 0x100_0000) as u8,
        (timestamp / 0x1_0000 % 256) as u8,
        (timestamp / 0x100 % 256) as u8,
        (timestamp % 256) as u8,
        (ssrc / 0x100_0000) as u8,
        (ssrc / 0x1_0000 % 256) as u8,
        (ssrc / 0x100 % 256) as u8,
        (ssrc % 256) as u8,
    ];
    let extended = match extension {
        Some(words) => seq![
            profile.0,
            profile.1,
            (words.len() / 4 / 256) as u8,
            (words.len() / 4 % 256) as u8,
        ] + words,
        None => Seq::empty(),
    };
    let padded = match padding {
        Some(bytes) => bytes.push((bytes.len() + 1) as u8),
        None => Seq::empty(),
    };
    let packet = fixed + csrc + extended + payload + padded;
    let b = packet[0];
    assert(b == first);
    assert(b / 64 == 2);
    assert(b % 16 == csrc.len() / 4);
    assert(has_extension(packet) == (extension is Some));
    assert(has_padding(packet) == (padding is Some));
    let end = csrc_end(packet);
    assert(end == 12 + csrc.len());
    if let Some(words) = extension {
        assert(packet[end + 2] == extended[2]);
        assert(packet[end + 3] == extended[3]);
        assert(wire::be16_at(packet, end + 2) == words.len() / 4);
    }
    assert(payload_start(packet) == (fixed + csrc + extended).len());
    if let Some(bytes) = padding {
        assert(packet[packet.len() - 1] == padded[bytes.len() as int]);
    }
    assert(payload_of(packet) =~= payload);
    lemma_word_of_bytes(packet, 4, timestamp);
    lemma_word_of_bytes(packet, 8, ssrc);
}

proof fn lemma_word_of_bytes(b: Seq<u8>, at: int, word: u32)
    requires
        0 <= at,
        at + 4 <= b.len(),
        b[at] == word / 0x100_0000,
        b[at + 1] == word / 0x1_0000 % 256,
        b[at + 2] == word / 0x100 % 256,
        b[at + 3] == word % 256,
    ensures
        wire::be32_at(b, at) == word,
{
}

/// What is no packet, and why: fewer than twelve bytes, another version than 2, more contributing
/// sources or a longer extension than there are bytes, or a padding of nothing or of more than the
/// payload.
pub proof fn lemma_what_is_no_packet(b: Seq<u8>)
    requires
        b.len() <= usize::MAX,
    ensures
        ({
            let sources = 12 + 4 * (b[0] % 16);
            let words = b[sources + 2] * 256 + b[sources + 3];
            let extended = b[0] / 16 % 2 == 1;
            let start = if extended {
                sources + 4 + 4 * words
            } else {
                sources
            };
            let stated = b[b.len() - 1];
            if b.len() < 12 {
                fault(b) == Some(RtpError::TooShort { len: b.len() as usize })
            } else if b[0] / 64 != 2 {
                fault(b) == Some(RtpError::BadVersion { version: b[0] / 64 })
            } else if b.len() < sources {
                fault(b) == Some(RtpError::TruncatedCsrc)
            } else if extended && (b.len() < sources + 4 || b.len() < start) {
                fault(b) == Some(RtpError::TruncatedExtension)
            } else if b[0] / 32 % 2 == 1 && (stated == 0 || stated > b.len() - start) {
                fault(b) == Some(
                    RtpError::BadPadding {
                        stated: stated as usize,
                        available: (b.len() - start) as usize,
                    },
                )
            } else {
                fault(b) is None
            }
        }),
{
}

// ---- what the tracker reports --------------------------------------------------------------

/// What a number means: the next one is in order, one that is further ahead skips those between,
/// and one that is behind and was not seen is late. Numbers wrap past 65535.
pub proof fn lemma_what_a_number_means(t: TrackerView, highest: u16, n: u16)
    requires
        t.highest == Some(highest),
        recent_below(t),
    ensures
        report_of(t, highest) == SequenceReport::Duplicate,
        report_of(t, ((highest + 1) % 0x10000) as u16) == SequenceReport::InOrder,
        1 <= n < 0x7FFF ==> report_of(t, ((highest + 1 + n) % 0x10000) as u16) == (
        SequenceReport::Lost { missing: n }),
        1 <= n <= 0x8000 ==> ({
            let late = ((highest - n) % 0x10000) as u16;
            report_of(t, late) == if t.recent.contains(late) {
                SequenceReport::Duplicate
            } else {
                SequenceReport::Reordered { behind: n }
            }
        }),
        report_of(unstarted(), n) == SequenceReport::First,
{
    let next = ((highest + 1) % 0x10000) as u16;
    assert(ahead(highest, next) == 1);
    assert(!t.recent.contains(next)) by {
        assert(ahead(next, highest) == 0xFFFF);
    }
    if 1 <= n < 0x7FFF {
        let far = ((highest + 1 + n) % 0x10000) as u16;
        assert(ahead(highest, far) == n + 1);
        assert(!t.recent.contains(far)) by {
            assert(ahead(far, highest) == 0xFFFF - n);
        }
    }
    if 1 <= n <= 0x8000 {
        let late = ((highest - n) % 0x10000) as u16;
        assert(ahead(highest, late) == 0x10000 - n);
    }
}

/// The counters after a number: a first, in-order, skipping or late one is received, a late one is
/// also counted as reordered, and a repeat only as a repeat. The highest number moves only forward.
pub proof fn lemma_what_a_number_counts_as(t: TrackerView, sequence: u16)
    requires
        t.highest is None ==> t == unstarted(),
    ensures
        ({
            let u = after_observe(t, sequence);
            match report_of(t, sequence) {
                SequenceReport::First => u.received == 1 && u.highest == Some(sequence)
                    && u.duplicates == 0 && u.reordered == 0 && u.lost == 0,
                SequenceReport::InOrder => u.received == t.received + 1 && u.highest == Some(
                    sequence,
                ) && u.duplicates == t.duplicates && u.reordered == t.reordered && u.lost == t.lost,
                SequenceReport::Lost { missing } => u.received == t.received + 1 && u.highest
                    == Some(sequence) && u.duplicates == t.duplicates && u.reordered == t.reordered
                    && u.lost == t.lost + missing,
                SequenceReport::Reordered { behind } => u.received == t.received + 1 && u.highest
                    == t.highest && u.duplicates == t.duplicates && u.reordered == t.reordered + 1
                    && u.lost <= t.lost <= u.lost + 1,
                SequenceReport::Duplicate => u == (TrackerView {
                    duplicates: t.duplicates + 1,
                    ..t
                }),
            }
        }),
{
}

/// Every number is counted once: as received or as a repeat.
pub proof fn lemma_every_number_is_counted_once(sequences: Seq<u16>)
    ensures
        ({
            let t = after_all(unstarted(), sequences);
            &&& t.received + t.duplicates == sequences.len()
            &&& t.reordered <= t.received
            &&& t.highest is Some <==> sequences.len() > 0
            &&& t.highest is None ==> t == unstarted()
        }),
    decreases sequences.len(),
{
    if sequences.len() > 0 {
        lemma_every_number_is_counted_once(sequences.drop_last());
    }
}

/// Only a number that was observed before is a repeat.
pub proof fn lemma_only_what_was_seen_repeats(sequences: Seq<u16>, sequence: u16)
    requires
        report_of(after_all(unstarted(), sequences), sequence) == SequenceReport::Duplicate,
    ensures
        sequences.contains(sequence),
{
    lemma_remembered_was_seen(sequences);
}

proof fn lemma_remembered_was_seen(sequences: Seq<u16>)
    ensures
        ({
            let t = after_all(unstarted(), sequences);
            &&& t.highest matches Some(h) ==> sequences.contains(h)
            &&& forall|s: u16| #[trigger] t.recent.contains(s) ==> sequences.contains(s)
        }),
    decreases sequences.len(),
{
    if sequences.len() > 0 {
        let before = sequences.drop_last();
        lemma_remembered_was_seen(before);
        let t = after_all(unstarted(), before);
        let u = after_all(unstarted(), sequences);
        let last = sequences.last();
        assert(sequences[sequences.len() - 1] == last);
        assert forall|s: u16| before.contains(s) implies sequences.contains(s) by {
            let i = choose|i: int| 0 <= i < before.len() && before[i] == s;
            assert(sequences[i] == s);
        }
    }
}

/// A number that was seen is remembered for as long as it is at most 64 below the highest.
pub proof fn lemma_what_was_seen_is_remembered(t: TrackerView, sequence: u16, next: u16)
    requires
        t.highest is Some,
        recent_below(t),
        t.recent.contains(sequence) || t.highest == Some(sequence),
    ensures
        ({
            let u = after_observe(t, next);
            let below = (u.highest->Some_0 - sequence) % 0x10000;
            below <= 64 ==> report_of(u, sequence) == SequenceReport::Duplicate
        }),
{
}

/// What is parsed is the packet: its number and its time most significant byte first, the marker
/// and the type of its second byte, and the payload that the stated parts leave.
pub proof fn lemma_what_a_parsed_packet_says(bytes: &[u8], r: Result<RtpPacket<'_>, RtpError>)
    ensures
        call_ensures(parse, (bytes,), r) ==> {
            let b = bytes@;
            &&& r is Ok ==> b.len() >= 12 && b[0] / 64 == 2
            &&& b.len() < 12 ==> r == Err::<RtpPacket<'_>, RtpError>(
                RtpError::TooShort { len: b.len() as usize },
            )
            &&& r matches Ok(p) ==> {
                &&& p.header.marker == (b[1] >= 128)
                &&& p.header.payload_type == b[1] % 128
                &&& p.header.sequence == b[2] * 256 + b[3]
                &&& p.header.timestamp == b[4] * 0x100_0000 + b[5] * 0x1_0000 + b[6] * 256 + b[7]
                &&& p.header.ssrc == b[8] * 0x100_0000 + b[9] * 0x1_0000 + b[10] * 256 + b[11]
                &&& b[0] % 64 == 0 ==> p.payload@ == b.skip(12)
            }
        },
{
    if call_ensures(parse, (bytes,), r) {
        if let Ok(p) = r {
            if bytes@[0] % 64 == 0 {
                assert(p.payload@ =~= bytes@.skip(12));
            }
        }
    }
}

/// What a fault reads as: what is wrong, and the numbers that it was told, in decimal.
pub proof fn lemma_what_a_fault_reads_as(e: RtpError, s: String, a: usize, b: usize, v: u8)
    ensures
        call_ensures(RtpError::to_string, (&e,), s) ==> {
            &&& e == (RtpError::TooShort { len: a }) ==> s@ == text::decimal_text(a as int)
                + " bytes, need 12"@
            &&& e == (RtpError::BadVersion { version: v }) ==> s@ == "RTP version "@
                + text::decimal_text(v as int) + ", expected 2"@
            &&& e == RtpError::TruncatedCsrc ==> s@ == "CSRC list runs past the packet"@
            &&& e == RtpError::TruncatedExtension ==> s@
                == "extension header runs past the packet"@
            &&& e == (RtpError::BadPadding { stated: a, available: b }) ==> s@ == "padding of "@
                + text::decimal_text(a as int) + " in "@ + text::decimal_text(b as int)
                + " bytes"@
        },
{
}

} // verus!

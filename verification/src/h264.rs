//! H.264 over RTP (RFC 6184) to Annex B access units.
//!
//! The glasses send Main profile video on dynamic payload type 96, with SPS and PPS in-band ahead
//! of every IDR. Three of RFC 6184's packet types appear on this wire and no others:
//!
//! | payload byte `& 0x1F` | RFC 6184 | what the glasses put in it |
//! |---|---|---|
//! | 1-23 | a single NAL unit | small NALs: SEI, and non-IDR slices that fit an MTU |
//! | 24 | STAP-A | SPS + PPS, as one packet, immediately before each IDR |
//! | 28 | FU-A | every slice too big for the MTU, in fragments |
//!
//! Output is Annex B: every NAL prefixed with `00 00 00 01`, the NALs of one picture joined into
//! one [`AccessUnit`]. A unit ends when the RTP marker bit is set. The timestamp changing also
//! ends one, as a backstop for a lost final packet: without it a dropped marker glues two pictures
//! together.
//!
//! An FU-A continuation with no start cannot be reassembled, because the original NAL header lived
//! in the start. It is dropped and counted rather than emitted headless.
use crate::rtp;
use crate::rtp::RtpHeader;
use crate::wire;
use crate::wire::be16;
use vstd::prelude::*;
use vstd::slice::slice_subrange;
use vstd::slice::slice_to_vec;

verus! {

/// The four-byte Annex B start code.
pub const START_CODE: [u8; 4] = [0x00, 0x00, 0x00, 0x01];

/// The RTP payload type of the video track.
pub const PAYLOAD_TYPE: u8 = 96;

/// Coded slice of a non-IDR picture.
pub const NAL_NON_IDR: u8 = 1;

/// Coded slice of an IDR picture: a keyframe.
pub const NAL_IDR: u8 = 5;

/// Supplemental enhancement information.
pub const NAL_SEI: u8 = 6;

/// Sequence parameter set.
pub const NAL_SPS: u8 = 7;

/// Picture parameter set.
pub const NAL_PPS: u8 = 8;

/// Access unit delimiter.
pub const NAL_AUD: u8 = 9;

/// RFC 6184 packet type: single-time aggregation packet, type A.
pub const PACKET_STAP_A: u8 = 24;

/// RFC 6184 packet type: fragmentation unit, type A.
pub const PACKET_FU_A: u8 = 28;

/// The fields of a NAL header, an FU indicator and an FU header, read as numbers.
proof fn lemma_bit_fields(b: u8, c: u8)
    ensures
        b & 0x1F == b % 32,
        (b >> 5) & 0x03 == b / 32 % 4,
        (b & 0x80 != 0) == (b >= 128),
        (b & 0x40 != 0) == (b / 64 % 2 == 1),
        (b & 0xE0) | (c & 0x1F) == (b / 32) * 32 + c % 32,
{
    assert(b & 0x1F == b % 32 && (b >> 5) & 0x03 == b / 32 % 4 && (b & 0x80 != 0) == (b >= 128)
        && (b & 0x40 != 0) == (b / 64 % 2 == 1) && (b & 0xE0) | (c & 0x1F) == (b / 32) * 32 + c
        % 32) by (bit_vector);
}

/// The NAL unit type from a NAL header byte: the low five bits.
pub fn nal_type(header_byte: u8) -> (kind: u8)
    ensures
        kind == header_byte % 32,
{
    proof {
        lemma_bit_fields(header_byte, 0);
    }
    header_byte & 0x1F
}

/// `nal_ref_idc`: the two bits above the type. Zero means the decoder may discard the NAL.
pub fn nal_ref_idc(header_byte: u8) -> (idc: u8)
    ensures
        idc == header_byte / 32 % 4,
{
    proof {
        lemma_bit_fields(header_byte, 0);
    }
    (header_byte >> 5) & 0x03
}

/// Whether a NAL type is a parameter set (SPS or PPS).
pub fn is_parameter_set(nal_type: u8) -> (b: bool)
    ensures
        b == (nal_type == NAL_SPS || nal_type == NAL_PPS),
{
    nal_type == NAL_SPS || nal_type == NAL_PPS
}

/// Whether a NAL type is an IDR slice.
pub fn is_keyframe_nal(nal_type: u8) -> (b: bool)
    ensures
        b == (nal_type == NAL_IDR),
{
    nal_type == NAL_IDR
}

/// One picture, in Annex B, ready to write or decode.
#[derive(Debug, Clone, PartialEq, Eq)]
pub struct AccessUnit {
    /// The RTP timestamp of every packet that made it.
    pub timestamp: u32,
    /// Annex B bytes: `00 00 00 01 <nal> 00 00 00 01 <nal> ...`.
    pub data: Vec<u8>,
    /// The NAL types in it, in order.
    pub nal_types: Vec<u8>,
    /// Whether the marker bit closed this unit. `false` means the timestamp changed instead,
    /// which is the lost-marker path and a sign of loss.
    pub closed_by_marker: bool,
}

/// An [`AccessUnit`] as values.
#[verifier::ext_equal]
pub struct UnitView {
    pub timestamp: u32,
    pub data: Seq<u8>,
    pub nal_types: Seq<u8>,
    pub closed_by_marker: bool,
}

impl View for AccessUnit {
    type V = UnitView;

    open spec fn view(&self) -> UnitView {
        UnitView {
            timestamp: self.timestamp,
            data: self.data@,
            nal_types: self.nal_types@,
            closed_by_marker: self.closed_by_marker,
        }
    }
}

pub open spec fn unit_views(units: Seq<AccessUnit>) -> Seq<UnitView> {
    units.map_values(|u: AccessUnit| u@)
}

/// Whether a decoder can begin with NALs of these types: an IDR with its SPS and PPS.
pub open spec fn decodable_start(kinds: Seq<u8>) -> bool {
    kinds.contains(NAL_IDR) && kinds.contains(NAL_SPS) && kinds.contains(NAL_PPS)
}

/// Whether a byte occurs.
fn holds(bytes: &Vec<u8>, wanted: u8) -> (b: bool)
    ensures
        b == bytes@.contains(wanted),
{
    for i in 0..bytes.len()
        invariant
            forall|j: int| 0 <= j < i ==> bytes@[j] != wanted,
    {
        if bytes[i] == wanted {
            assert(bytes@[i as int] == wanted);
            return true;
        }
    }
    false
}

impl AccessUnit {
    /// Whether this unit contains an IDR slice.
    pub fn is_keyframe(&self) -> (b: bool)
        ensures
            b == self@.nal_types.contains(NAL_IDR),
    {
        holds(&self.nal_types, NAL_IDR)
    }

    /// Whether it carries both parameter sets.
    pub fn has_parameter_sets(&self) -> (b: bool)
        ensures
            b == (self@.nal_types.contains(NAL_SPS) && self@.nal_types.contains(NAL_PPS)),
    {
        holds(&self.nal_types, NAL_SPS) && holds(&self.nal_types, NAL_PPS)
    }

    /// Whether a decoder handed this unit first can decode from here: an IDR with its SPS and
    /// PPS.
    pub fn is_decodable_start(&self) -> (b: bool)
        ensures
            b == decodable_start(self@.nal_types),
    {
        self.is_keyframe() && self.has_parameter_sets()
    }

    pub fn len(&self) -> (n: usize)
        ensures
            n == self@.data.len(),
    {
        self.data.len()
    }

    pub fn is_empty(&self) -> (b: bool)
        ensures
            b == (self@.data.len() == 0),
    {
        self.data.len() == 0
    }
}

/// Running counts.
#[derive(Debug, Clone, Copy, PartialEq, Eq, Structural)]
pub struct DepacketizerStats {
    pub access_units: u64,
    pub keyframes: u64,
    pub nal_units: u64,
    pub bytes: u64,
    /// Fragments whose NAL could not be completed.
    pub dropped_fragments: u64,
    /// Packets whose type this depacketiser does not implement (STAP-B, MTAP, FU-B) or that were
    /// malformed.
    pub unsupported_packets: u64,
    /// Access units closed by a timestamp change rather than a marker bit.
    pub units_closed_without_marker: u64,
}

/// The counts as numbers.
pub struct StatsView {
    pub access_units: int,
    pub keyframes: int,
    pub nal_units: int,
    pub bytes: int,
    pub dropped_fragments: int,
    pub unsupported_packets: int,
    pub units_closed_without_marker: int,
}

/// All counts zero.
pub open spec fn no_counts() -> StatsView {
    StatsView {
        access_units: 0,
        keyframes: 0,
        nal_units: 0,
        bytes: 0,
        dropped_fragments: 0,
        unsupported_packets: 0,
        units_closed_without_marker: 0,
    }
}

impl View for DepacketizerStats {
    type V = StatsView;

    open spec fn view(&self) -> StatsView {
        StatsView {
            access_units: self.access_units as int,
            keyframes: self.keyframes as int,
            nal_units: self.nal_units as int,
            bytes: self.bytes as int,
            dropped_fragments: self.dropped_fragments as int,
            unsupported_packets: self.unsupported_packets as int,
            units_closed_without_marker: self.units_closed_without_marker as int,
        }
    }
}

impl Default for DepacketizerStats {
    fn default() -> (s: Self)
        ensures
            s@ == no_counts(),
    {
        DepacketizerStats {
            access_units: 0,
            keyframes: 0,
            nal_units: 0,
            bytes: 0,
            dropped_fragments: 0,
            unsupported_packets: 0,
            units_closed_without_marker: 0,
        }
    }
}

/// The type of a NAL.
pub open spec fn kind_of(nal: Seq<u8>) -> u8 {
    nal[0] % 32
}

/// The types of some NALs.
pub open spec fn kinds_of(nals: Seq<Seq<u8>>) -> Seq<u8> {
    nals.map_values(|nal: Seq<u8>| kind_of(nal))
}

/// NALs in Annex B: each behind a start code.
pub open spec fn annex_b(nals: Seq<Seq<u8>>) -> Seq<u8>
    decreases nals.len(),
{
    if nals.len() == 0 {
        Seq::empty()
    } else {
        annex_b(nals.drop_last()) + START_CODE@ + nals.last()
    }
}

/// The state of a [`Depacketizer`].
#[verifier::ext_equal]
pub struct StreamView {
    /// The timestamp of the picture that is open.
    pub timestamp: Option<u32>,
    /// The NALs it has so far.
    pub nals: Seq<Seq<u8>>,
    /// The NAL whose fragments are arriving.
    pub fragment: Option<Seq<u8>>,
    pub sps: Option<Seq<u8>>,
    pub pps: Option<Seq<u8>>,
    pub keyframe_seen: bool,
    pub stats: StatsView,
}

/// A depacketiser that has seen nothing.
pub open spec fn unstarted() -> StreamView {
    StreamView {
        timestamp: None,
        nals: Seq::empty(),
        fragment: None,
        sps: None,
        pps: None,
        keyframe_seen: false,
        stats: no_counts(),
    }
}

/// One more packet that is not decoded.
pub open spec fn unsupported(v: StreamView) -> StreamView {
    StreamView {
        stats: StatsView { unsupported_packets: v.stats.unsupported_packets + 1, ..v.stats },
        ..v
    }
}

/// One more fragment that is dropped.
pub open spec fn dropped(v: StreamView) -> StreamView {
    StreamView {
        stats: StatsView { dropped_fragments: v.stats.dropped_fragments + 1, ..v.stats },
        ..v
    }
}

/// A fragment that will not be completed is dropped.
pub open spec fn abandoned(v: StreamView) -> StreamView {
    if v.fragment is Some {
        StreamView { fragment: None, ..dropped(v) }
    } else {
        v
    }
}

/// One more NAL in the open picture. Parameter sets are also kept on the side.
pub open spec fn with_nal(v: StreamView, nal: Seq<u8>) -> StreamView {
    StreamView {
        nals: v.nals.push(nal),
        sps: if kind_of(nal) == NAL_SPS {
            Some(nal)
        } else {
            v.sps
        },
        pps: if kind_of(nal) == NAL_PPS {
            Some(nal)
        } else {
            v.pps
        },
        stats: StatsView { nal_units: v.stats.nal_units + 1, ..v.stats },
        ..v
    }
}

/// More NALs in the open picture, in order.
pub open spec fn with_nals(v: StreamView, nals: Seq<Seq<u8>>) -> StreamView
    decreases nals.len(),
{
    if nals.len() == 0 {
        v
    } else {
        with_nal(with_nals(v, nals.drop_last()), nals.last())
    }
}

/// The NALs of a STAP-A body, each behind its two-byte size, and whether the body ends with the
/// last of them rather than in a size that is zero, cut off or too large.
pub open spec fn aggregated(body: Seq<u8>) -> (Seq<Seq<u8>>, bool)
    decreases body.len(),
{
    if body.len() == 0 {
        (Seq::empty(), true)
    } else if body.len() < 2 || wire::be16_at(body, 0) == 0 || body.len() < 2 + wire::be16_at(
        body,
        0,
    ) {
        (Seq::empty(), false)
    } else {
        let size = wire::be16_at(body, 0);
        let (later, whole) = aggregated(body.skip(2 + size));
        (seq![body.subrange(2, 2 + size)] + later, whole)
    }
}

/// What a STAP-A packet does, given its body.
pub open spec fn after_aggregate(v: StreamView, body: Seq<u8>) -> StreamView {
    let (nals, whole) = aggregated(body);
    if whole {
        with_nals(v, nals)
    } else {
        unsupported(with_nals(v, nals))
    }
}

/// The NAL header that an FU-A start stands for: the upper bits of its indicator and the type in
/// its FU header.
pub open spec fn rebuilt_header(indicator: u8, fu_header: u8) -> u8 {
    ((indicator / 32) * 32 + fu_header % 32) as u8
}

/// What an FU-A packet does: its first fragment opens a NAL, its last one completes it.
pub open spec fn after_fragment(v: StreamView, payload: Seq<u8>) -> StreamView {
    if payload.len() < 3 {
        unsupported(v)
    } else if payload[1] >= 128 {
        extended(abandoned(v), seq![rebuilt_header(payload[0], payload[1])], payload)
    } else if v.fragment is Some {
        extended(v, v.fragment->Some_0, payload)
    } else {
        dropped(v)
    }
}

/// The NAL being assembled grows by a fragment, which completes it if it is the last.
pub open spec fn extended(v: StreamView, begun: Seq<u8>, payload: Seq<u8>) -> StreamView {
    let nal = begun + payload.skip(2);
    if payload[1] / 64 % 2 == 1 {
        with_nal(StreamView { fragment: None, ..v }, nal)
    } else {
        StreamView { fragment: Some(nal), ..v }
    }
}

/// What one payload does to the open picture.
pub open spec fn after_payload(v: StreamView, payload: Seq<u8>) -> StreamView {
    if payload.len() == 0 {
        unsupported(v)
    } else {
        let kind = kind_of(payload);
        if 1 <= kind <= 23 {
            with_nal(v, payload)
        } else if kind == PACKET_STAP_A {
            after_aggregate(v, payload.skip(1))
        } else if kind == PACKET_FU_A {
            after_fragment(v, payload)
        } else {
            unsupported(v)
        }
    }
}

/// The picture made of some NALs.
pub open spec fn unit_of(nals: Seq<Seq<u8>>, timestamp: u32, closed_by_marker: bool) -> UnitView {
    UnitView { timestamp, data: annex_b(nals), nal_types: kinds_of(nals), closed_by_marker }
}

/// The open picture handed over, if it has a NAL.
pub open spec fn closed(v: StreamView, timestamp: u32, closed_by_marker: bool) -> (
    StreamView,
    Seq<UnitView>,
) {
    if v.nals.len() == 0 {
        (v, Seq::empty())
    } else {
        let unit = unit_of(v.nals, timestamp, closed_by_marker);
        (
            StreamView {
                nals: Seq::empty(),
                keyframe_seen: v.keyframe_seen || decodable_start(unit.nal_types),
                stats: StatsView {
                    access_units: v.stats.access_units + 1,
                    bytes: v.stats.bytes + unit.data.len(),
                    keyframes: v.stats.keyframes + if unit.nal_types.contains(NAL_IDR) {
                        1int
                    } else {
                        0
                    },
                    ..v.stats
                },
                ..v
            },
            seq![unit],
        )
    }
}

/// What a packet with another timestamp does to the open picture before its own payload counts.
pub open spec fn moved_on(v: StreamView, timestamp: u32) -> (StreamView, Seq<UnitView>) {
    if v.timestamp is Some && v.timestamp->Some_0 != timestamp {
        let (w, units) = closed(abandoned(v), v.timestamp->Some_0, false);
        (
            StreamView {
                stats: StatsView {
                    units_closed_without_marker: w.stats.units_closed_without_marker + units.len(),
                    ..w.stats
                },
                ..w
            },
            units,
        )
    } else {
        (v, Seq::empty())
    }
}

/// What a packet's payload finds: the picture of its own timestamp, open.
pub open spec fn opened(v: StreamView, timestamp: u32) -> StreamView {
    StreamView { timestamp: Some(timestamp), ..moved_on(v, timestamp).0 }
}

/// What the marker bit does after the payload it came with.
pub open spec fn marked_end(v: StreamView, timestamp: u32) -> (StreamView, Seq<UnitView>) {
    let (w, units) = closed(abandoned(v), timestamp, true);
    (StreamView { timestamp: None, ..w }, units)
}

/// What one RTP packet of the video track does, and the pictures that it completes.
pub open spec fn after_packet(v: StreamView, timestamp: u32, marker: bool, payload: Seq<u8>) -> (
    StreamView,
    Seq<UnitView>,
) {
    let before = moved_on(v, timestamp).1;
    let b = after_payload(opened(v, timestamp), payload);
    if marker {
        let (c, last) = marked_end(b, timestamp);
        (c, before + last)
    } else {
        (b, before)
    }
}

/// What one datagram does: one that is not RTP, or is RTP of another payload type, is counted and
/// nothing else.
pub open spec fn after_datagram(v: StreamView, packet: Seq<u8>) -> (StreamView, Seq<UnitView>) {
    if rtp::fault(packet) is Some || rtp::header_of(packet).payload_type != PAYLOAD_TYPE {
        (unsupported(v), Seq::empty())
    } else {
        let header = rtp::header_of(packet);
        after_packet(v, header.timestamp, header.marker, rtp::payload_of(packet))
    }
}

/// What handing over whatever is open does, and the picture that it gives, if there is one.
pub open spec fn flushed(v: StreamView) -> (StreamView, Seq<UnitView>) {
    match v.timestamp {
        None => (v, Seq::empty()),
        Some(timestamp) => closed(
            StreamView { timestamp: None, fragment: None, ..v },
            timestamp,
            false,
        ),
    }
}

/// What dropping whatever is open does.
pub open spec fn emptied(v: StreamView) -> StreamView {
    StreamView { timestamp: None, nals: Seq::empty(), fragment: None, ..v }
}

/// What is held belongs to an open picture, and no NAL is empty.
pub open spec fn sound(v: StreamView) -> bool {
    &&& forall|i: int| 0 <= i < v.nals.len() ==> (#[trigger] v.nals[i]).len() > 0
    &&& v.fragment matches Some(nal) ==> nal.len() > 0
    &&& v.timestamp is None ==> nothing_open(v)
}

/// No NAL, whole or in part, waits to be handed over.
pub open spec fn nothing_open(v: StreamView) -> bool {
    v.nals.len() == 0 && v.fragment is None
}

/// What a depacketiser has counted and will count of what it holds. Every counter stays below it.
pub open spec fn load(v: StreamView) -> int {
    v.stats.access_units + v.stats.keyframes + v.stats.nal_units + v.stats.bytes
        + v.stats.dropped_fragments + v.stats.unsupported_packets
        + v.stats.units_closed_without_marker + annex_b(v.nals).len() + (match v.fragment {
        Some(nal) => nal.len() + 4,
        None => 0,
    })
}

/// The most that a packet of this many bytes adds to the load.
pub open spec fn cost(len: nat) -> nat {
    3 * len + 16
}

/// RFC 6184 depacketiser: RTP packets in, Annex B access units out.
///
/// It holds bytes and counters, has no clock, and cannot decide that a stream has stalled: a
/// client times that and calls [`Depacketizer::reset`].
#[derive(Debug, Clone)]
pub struct Depacketizer {
    timestamp: Option<u32>,
    nals: Vec<Vec<u8>>,
    nal_types: Vec<u8>,
    fragment: Option<Vec<u8>>,
    sps: Option<Vec<u8>>,
    pps: Option<Vec<u8>>,
    keyframe_seen: bool,
    stats: DepacketizerStats,
}

/// The contents of some byte vectors.
spec fn byte_views(nals: Seq<Vec<u8>>) -> Seq<Seq<u8>> {
    nals.map_values(|nal: Vec<u8>| nal@)
}

/// The contents of a byte vector that may be there.
spec fn bytes_of(nal: Option<Vec<u8>>) -> Option<Seq<u8>> {
    match nal {
        Some(bytes) => Some(bytes@),
        None => None,
    }
}

impl View for Depacketizer {
    type V = StreamView;

    closed spec fn view(&self) -> StreamView {
        StreamView {
            timestamp: self.timestamp,
            nals: byte_views(self.nals@),
            fragment: bytes_of(self.fragment),
            sps: bytes_of(self.sps),
            pps: bytes_of(self.pps),
            keyframe_seen: self.keyframe_seen,
            stats: self.stats@,
        }
    }
}

impl Default for Depacketizer {
    fn default() -> (d: Self)
        ensures
            d.wf(),
            d@ == unstarted(),
    {
        let d = Depacketizer {
            timestamp: None,
            nals: Vec::new(),
            nal_types: Vec::new(),
            fragment: None,
            sps: None,
            pps: None,
            keyframe_seen: false,
            stats: DepacketizerStats::default(),
        };
        assert(d@.nals =~= Seq::empty());
        assert(kinds_of(d@.nals) =~= Seq::empty());
        d
    }
}

impl Depacketizer {
    /// The types are those of the NALs held.
    spec fn typed(&self) -> bool {
        self.nal_types@ == kinds_of(self@.nals)
    }

    /// The types are those of the NALs held, and what is held belongs to an open picture.
    pub closed spec fn wf(&self) -> bool {
        self.typed() && sound(self@)
    }

    /// What a depacketiser holds belongs to an open picture.
    pub proof fn lemma_holds_a_picture(&self)
        requires
            self.wf(),
        ensures
            sound(self@),
    {
    }

    pub fn new() -> (d: Self)
        ensures
            d.wf(),
            d@ == unstarted(),
            load(d@) == 0,
    {
        Self::default()
    }

    /// Feed one whole RTP datagram.
    ///
    /// A datagram that is not RTP, or is RTP of another payload type, yields nothing and is
    /// counted in [`DepacketizerStats::unsupported_packets`]: the port can receive stray traffic
    /// and a hard error there would kill a working stream.
    pub fn push(&mut self, packet: &[u8]) -> (units: Vec<AccessUnit>)
        requires
            old(self).wf(),
            load(old(self)@) + cost(packet@.len()) <= u64::MAX,
        ensures
            final(self).wf(),
            (final(self)@, unit_views(units@)) == after_datagram(old(self)@, packet@),
            load(final(self)@) <= load(old(self)@) + cost(packet@.len()),
    {
        match rtp::parse(packet) {
            Ok(p) => {
                if p.header.payload_type == PAYLOAD_TYPE {
                    return self.push_payload(&p.header, p.payload);
                }
            },
            Err(_) => {},
        }
        self.count_unsupported();
        let units: Vec<AccessUnit> = Vec::new();
        assert(unit_views(units@) =~= Seq::empty());
        units
    }

    /// Feed a payload whose RTP header a caller already parsed, for a client that demultiplexes
    /// video and audio itself.
    pub fn push_payload(&mut self, header: &RtpHeader, payload: &[u8]) -> (units: Vec<AccessUnit>)
        requires
            old(self).wf(),
            load(old(self)@) + cost(payload@.len()) <= u64::MAX,
        ensures
            final(self).wf(),
            (final(self)@, unit_views(units@)) == after_packet(
                old(self)@,
                header.timestamp,
                header.marker,
                payload@,
            ),
            load(final(self)@) <= load(old(self)@) + cost(payload@.len()),
    {
        let mut out: Vec<AccessUnit> = Vec::new();
        proof {
            assert(unit_views(out@) =~= Seq::empty());
            lemma_load_grows(self@, header.timestamp, payload@);
            lemma_packet_keeps_sound(self@, header.timestamp, header.marker, payload@);
        }
        // A new timestamp closes whatever was open. Backstop for a lost marker.
        if let Some(ts) = self.timestamp {
            if ts != header.timestamp {
                self.abandon();
                if let Some(unit) = self.emit(ts, false) {
                    self.stats.units_closed_without_marker =
                    self.stats.units_closed_without_marker + 1;
                    out.push(unit);
                    assert(unit_views(out@) =~= seq![unit@]);
                }
            }
        }
        self.timestamp = Some(header.timestamp);
        assert(self@ == (StreamView {
            timestamp: Some(header.timestamp),
            ..moved_on(old(self)@, header.timestamp).0
        }));
        if payload.len() == 0 {
            self.count_unsupported();
        } else {
            self.consume(payload);
        }
        if header.marker {
            let ghost before = unit_views(out@);
            // A marker inside an unfinished fragment: the tail was lost.
            self.abandon();
            if let Some(unit) = self.emit(header.timestamp, true) {
                out.push(unit);
                assert(unit_views(out@) =~= before + seq![unit@]);
            }
            self.timestamp = None;
            assert(unit_views(out@) =~= after_packet(
                old(self)@,
                header.timestamp,
                header.marker,
                payload@,
            ).1);
        }
        out
    }

    fn count_unsupported(&mut self)
        requires
            old(self).typed(),
            old(self)@.stats.unsupported_packets < u64::MAX,
        ensures
            final(self).typed(),
            final(self)@ == unsupported(old(self)@),
    {
        self.stats.unsupported_packets = self.stats.unsupported_packets + 1;
    }

    fn count_dropped(&mut self)
        requires
            old(self).typed(),
            old(self)@.stats.dropped_fragments < u64::MAX,
        ensures
            final(self).typed(),
            final(self)@ == dropped(old(self)@),
    {
        self.stats.dropped_fragments = self.stats.dropped_fragments + 1;
    }

    /// Drop the fragment that is open, if there is one.
    fn abandon(&mut self)
        requires
            old(self).typed(),
            old(self)@.stats.dropped_fragments < u64::MAX,
        ensures
            final(self).typed(),
            final(self)@ == abandoned(old(self)@),
    {
        if self.fragment.is_some() {
            self.fragment = None;
            self.count_dropped();
        }
    }

    fn consume(&mut self, payload: &[u8])
        requires
            old(self).typed(),
            payload@.len() > 0,
            old(self)@.stats.nal_units + payload@.len() < u64::MAX,
            old(self)@.stats.unsupported_packets < u64::MAX,
            old(self)@.stats.dropped_fragments < u64::MAX,
        ensures
            final(self).typed(),
            final(self)@ == after_payload(old(self)@, payload@),
    {
        let kind: u8 = nal_type(payload[0]);
        if 1 <= kind && kind <= 23 {
            self.push_nal(slice_to_vec(payload));
        } else if kind == PACKET_STAP_A {
            self.consume_stap_a(slice_subrange(payload, 1, payload.len()));
            assert(payload@.subrange(1, payload@.len() as int) =~= payload@.skip(1));
        } else if kind == PACKET_FU_A {
            self.consume_fu_a(payload);
        } else {
            // STAP-B (25), MTAP16 (26), MTAP24 (27), FU-B (29), and the reserved 0/30/31.
            self.count_unsupported();
        }
    }

    fn consume_stap_a(&mut self, body: &[u8])
        requires
            old(self).typed(),
            old(self)@.stats.nal_units + body@.len() < u64::MAX,
            old(self)@.stats.unsupported_packets < u64::MAX,
        ensures
            final(self).typed(),
            final(self)@ == after_aggregate(old(self)@, body@),
    {
        let ghost begun = self@;
        let ghost (nals, whole) = aggregated(body@);
        let mut at: usize = 0;
        let ghost mut taken: int = 0;
        assert(body@.skip(0) =~= body@);
        assert(nals.skip(0) =~= nals);
        assert(nals.take(0) =~= Seq::empty());
        while at < body.len()
            invariant
                self.typed(),
                begun == old(self)@,
                at <= body.len(),
                0 <= taken <= nals.len(),
                taken <= at,
                (nals, whole) == aggregated(body@),
                aggregated(body@.skip(at as int)) == (nals.skip(taken), whole),
                self@ == with_nals(begun, nals.take(taken)),
                begun.stats.nal_units + body@.len() < u64::MAX,
                begun.stats.unsupported_packets < u64::MAX,
            decreases body.len() - at,
        {
            let ghost rest = body@.skip(at as int);
            proof {
                lemma_with_nals(begun, nals.take(taken));
            }
            if body.len() - at < 2 {
                self.count_unsupported();
                assert(nals.take(taken) =~= nals);
                return;
            }
            let size: usize = be16(body, at) as usize;
            assert(size == wire::be16_at(rest, 0));
            if size == 0 || body.len() - at < 2 + size {
                self.count_unsupported();
                assert(nals.take(taken) =~= nals);
                return;
            }
            let nal = slice_subrange(body, at + 2, at + 2 + size);
            proof {
                assert(nal@ =~= rest.subrange(2, 2 + size));
                assert(rest.skip(2 + size) =~= body@.skip(at + 2 + size));
                let later = aggregated(body@.skip(at + 2 + size)).0;
                assert(nals.skip(taken) == seq![nal@] + later);
                assert(nals[taken] == nals.skip(taken)[0]);
                assert(nals.skip(taken + 1) =~= later) by {
                    assert(later =~= nals.skip(taken).skip(1));
                }
                assert(nals.take(taken + 1).drop_last() =~= nals.take(taken));
            }
            self.push_nal(slice_to_vec(nal));
            at = at + 2 + size;
            proof {
                taken = taken + 1;
            }
        }
        proof {
            assert(body@.skip(at as int) =~= Seq::empty());
            assert(nals.take(taken) =~= nals);
        }
    }

    fn consume_fu_a(&mut self, payload: &[u8])
        requires
            old(self).typed(),
            payload@.len() > 0,
            old(self)@.stats.nal_units < u64::MAX,
            old(self)@.stats.unsupported_packets < u64::MAX,
            old(self)@.stats.dropped_fragments < u64::MAX,
        ensures
            final(self).typed(),
            final(self)@ == after_fragment(old(self)@, payload@),
    {
        if payload.len() < 3 {
            self.count_unsupported();
            return;
        }
        let indicator: u8 = payload[0];
        let fu_header: u8 = payload[1];
        proof {
            lemma_bit_fields(indicator, fu_header);
            lemma_bit_fields(fu_header, 0);
        }
        let start = fu_header & 0x80 != 0;
        let end = fu_header & 0x40 != 0;
        let body = slice_subrange(payload, 2, payload.len());
        assert(body@ =~= payload@.skip(2));
        let mut nal: Vec<u8>;
        if start {
            // A start while one is open: the previous NAL's tail never arrived.
            self.abandon();
            // The original NAL header is in neither byte alone.
            nal = Vec::new();
            nal.push((indicator & 0xE0) | (fu_header & 0x1F));
            assert(nal@ =~= seq![rebuilt_header(indicator, fu_header)]);
        } else {
            match self.fragment.take() {
                Some(begun) => {
                    nal = begun;
                },
                None => {
                    // The start packet was lost; the NAL header is unrecoverable.
                    self.count_dropped();
                    return;
                },
            }
        }
        let ghost begun = nal@;
        nal.extend_from_slice(body);
        assert(nal@ =~= begun + payload@.skip(2));
        if end {
            assert(nal@.len() > 0);
            self.push_nal(nal);
        } else {
            self.fragment = Some(nal);
        }
    }

    fn push_nal(&mut self, nal: Vec<u8>)
        requires
            old(self).typed(),
            nal@.len() > 0,
            old(self)@.stats.nal_units < u64::MAX,
        ensures
            final(self).typed(),
            final(self)@ == with_nal(old(self)@, nal@),
    {
        let kind: u8 = nal_type(nal[0]);
        if kind == NAL_SPS {
            self.sps = Some(slice_to_vec(nal.as_slice()));
        }
        if kind == NAL_PPS {
            self.pps = Some(slice_to_vec(nal.as_slice()));
        }
        self.stats.nal_units = self.stats.nal_units + 1;
        self.nal_types.push(kind);
        self.nals.push(nal);
        assert(self@.nals =~= old(self)@.nals.push(nal@));
        assert(self.nal_types@ =~= kinds_of(self@.nals));
    }

    fn emit(&mut self, timestamp: u32, closed_by_marker: bool) -> (r: Option<AccessUnit>)
        requires
            old(self).typed(),
            old(self)@.stats.access_units < u64::MAX,
            old(self)@.stats.keyframes < u64::MAX,
            old(self)@.stats.bytes + annex_b(old(self)@.nals).len() <= u64::MAX,
        ensures
            final(self).typed(),
            final(self)@ == closed(old(self)@, timestamp, closed_by_marker).0,
            r is Some <==> old(self)@.nals.len() > 0,
            r matches Some(unit) ==> closed(old(self)@, timestamp, closed_by_marker).1 == seq![
                unit@,
            ],
    {
        let ghost views = self@.nals;
        if self.nals.len() == 0 {
            return None;
        }
        let nals = self.nals.split_off(0);
        let nal_types = self.nal_types.split_off(0);
        proof {
            assert(byte_views(nals@) =~= views);
            assert(nal_types@ =~= kinds_of(views));
            assert(self@.nals =~= Seq::empty());
            assert(kinds_of(self@.nals) =~= Seq::empty());
            assert(self.nal_types@ =~= Seq::empty());
        }
        let mut data: Vec<u8> = Vec::new();
        for i in 0..nals.len()
            invariant
                byte_views(nals@) == views,
                data@ == annex_b(views.take(i as int)),
        {
            proof {
                assert(views.take(i + 1).drop_last() =~= views.take(i as int));
                assert(views[i as int] == nals@[i as int]@);
            }
            push_with_start_code(&mut data, nals[i].as_slice());
        }
        assert(views.take(views.len() as int) =~= views);
        let unit = AccessUnit { timestamp, data, nal_types, closed_by_marker };
        self.stats.access_units = self.stats.access_units + 1;
        self.stats.bytes = self.stats.bytes + unit.data.len() as u64;
        if unit.is_keyframe() {
            self.stats.keyframes = self.stats.keyframes + 1;
        }
        if unit.is_decodable_start() {
            self.keyframe_seen = true;
        }
        Some(unit)
    }

    /// Close whatever is open and hand it over. For end-of-stream; a partial picture is better
    /// evidence than a silently discarded one.
    pub fn flush(&mut self) -> (r: Option<AccessUnit>)
        requires
            old(self).wf(),
            load(old(self)@) + cost(0) <= u64::MAX,
        ensures
            final(self).wf(),
            final(self)@ == flushed(old(self)@).0,
            flushed(old(self)@).1 == (match r {
                Some(unit) => seq![unit@],
                None => Seq::empty(),
            }),
            load(final(self)@) <= load(old(self)@) + cost(0),
    {
        proof {
            if let Some(ts) = self.timestamp {
                let open = StreamView { timestamp: None, fragment: None, ..self@ };
                lemma_load_closed(open, ts, false);
            }
        }
        match self.timestamp {
            None => None,
            Some(ts) => {
                self.timestamp = None;
                self.fragment = None;
                self.emit(ts, false)
            },
        }
    }

    /// Whether a unit with an IDR and its parameter sets has been emitted. A recorder should
    /// drop everything before the first one.
    pub fn keyframe_seen(&self) -> (b: bool)
        ensures
            b == self@.keyframe_seen,
    {
        self.keyframe_seen
    }

    /// The most recent SPS and PPS, as raw NALs (no start code).
    pub fn parameter_sets(&self) -> (r: (Option<&[u8]>, Option<&[u8]>))
        ensures
            match r.0 {
                Some(sps) => self@.sps == Some(sps@),
                None => self@.sps is None,
            },
            match r.1 {
                Some(pps) => self@.pps == Some(pps@),
                None => self@.pps is None,
            },
    {
        let sps: Option<&[u8]> = match &self.sps {
            Some(bytes) => Some(bytes.as_slice()),
            None => None,
        };
        let pps: Option<&[u8]> = match &self.pps {
            Some(bytes) => Some(bytes.as_slice()),
            None => None,
        };
        (sps, pps)
    }

    /// The parameter sets in Annex B, ready to write ahead of a picture. Empty until both have
    /// been seen.
    pub fn parameter_sets_annex_b(&self) -> (out: Vec<u8>)
        ensures
            out@ == (if self@.sps is Some && self@.pps is Some {
                annex_b(seq![self@.sps->Some_0, self@.pps->Some_0])
            } else {
                Seq::empty()
            }),
    {
        let mut out: Vec<u8> = Vec::new();
        if let (Some(sps), Some(pps)) = self.parameter_sets() {
            push_with_start_code(&mut out, sps);
            push_with_start_code(&mut out, pps);
            proof {
                reveal_with_fuel(annex_b, 3);
                let both = seq![sps@, pps@];
                assert(both.drop_last() =~= seq![sps@]);
                assert(both.drop_last().drop_last() =~= Seq::empty());
                assert(out@ =~= annex_b(both));
            }
        }
        out
    }

    pub fn stats(&self) -> (s: DepacketizerStats)
        ensures
            s@ == self@.stats,
    {
        self.stats
    }

    /// Drop every partial NAL and picture, keep the statistics. For a stream that stalled or an
    /// SSRC that changed.
    pub fn reset(&mut self)
        requires
            old(self).wf(),
        ensures
            final(self).wf(),
            final(self)@ == emptied(old(self)@),
            load(final(self)@) <= load(old(self)@),
    {
        self.timestamp = None;
        self.nals.clear();
        self.nal_types.clear();
        self.fragment = None;
        assert(self@.nals =~= Seq::empty());
        assert(self.nal_types@ =~= kinds_of(self@.nals));
    }
}

/// Appends a NAL behind a start code.
fn push_with_start_code(out: &mut Vec<u8>, nal: &[u8])
    ensures
        final(out)@ == old(out)@ + START_CODE@ + nal@,
{
    let code = START_CODE;
    out.extend_from_slice(code.as_slice());
    out.extend_from_slice(nal);
    assert(out@ =~= old(out)@ + START_CODE@ + nal@);
}

/// What adding NALs leaves alone.
proof fn lemma_with_nals(v: StreamView, nals: Seq<Seq<u8>>)
    ensures
        with_nals(v, nals).stats == (StatsView {
            nal_units: v.stats.nal_units + nals.len(),
            ..v.stats
        }),
        with_nals(v, nals).nals == v.nals + nals,
        with_nals(v, nals).fragment == v.fragment,
        with_nals(v, nals).keyframe_seen == v.keyframe_seen,
        with_nals(v, nals).timestamp == v.timestamp,
    decreases nals.len(),
{
    if nals.len() > 0 {
        lemma_with_nals(v, nals.drop_last());
        assert((v.nals + nals.drop_last()).push(nals.last()) =~= v.nals + nals);
    } else {
        assert(v.nals + nals =~= v.nals);
    }
}

/// The length of a list of NALs in Annex B, taken from its front.
proof fn lemma_annex_b_front(nal: Seq<u8>, later: Seq<Seq<u8>>)
    ensures
        annex_b(seq![nal] + later).len() == 4 + nal.len() + annex_b(later).len(),
    decreases later.len(),
{
    let all = seq![nal] + later;
    if later.len() == 0 {
        reveal_with_fuel(annex_b, 2);
        assert(all.drop_last() =~= Seq::empty());
        assert(all.last() == nal);
    } else {
        assert(all.drop_last() =~= seq![nal] + later.drop_last());
        lemma_annex_b_front(nal, later.drop_last());
    }
}

/// The length of two lists of NALs in Annex B.
proof fn lemma_annex_b_joined(nals: Seq<Seq<u8>>, later: Seq<Seq<u8>>)
    ensures
        annex_b(nals + later).len() == annex_b(nals).len() + annex_b(later).len(),
    decreases later.len(),
{
    if later.len() == 0 {
        assert(nals + later =~= nals);
    } else {
        assert((nals + later).drop_last() =~= nals + later.drop_last());
        lemma_annex_b_joined(nals, later.drop_last());
    }
}

/// What a STAP-A body holds takes no more than thrice its length.
proof fn lemma_aggregate_size(body: Seq<u8>)
    ensures
        annex_b(aggregated(body).0).len() + aggregated(body).0.len() <= 3 * body.len(),
    decreases body.len(),
{
    let (nals, whole) = aggregated(body);
    if nals.len() > 0 {
        let size = wire::be16_at(body, 0);
        let later = aggregated(body.skip(2 + size)).0;
        lemma_aggregate_size(body.skip(2 + size));
        lemma_annex_b_front(body.subrange(2, 2 + size), later);
    }
}

/// Closing a picture counts what was held, and adds no more than two.
proof fn lemma_load_closed(v: StreamView, timestamp: u32, by_marker: bool)
    ensures
        load(closed(v, timestamp, by_marker).0) <= load(v) + 2,
{
}

/// What a payload adds to the load.
proof fn lemma_load_payload(v: StreamView, payload: Seq<u8>)
    ensures
        load(after_payload(v, payload)) <= load(v) + 3 * payload.len() + 5,
{
    if payload.len() > 0 {
        let kind = kind_of(payload);
        if 1 <= kind <= 23 {
            assert(v.nals.push(payload).drop_last() =~= v.nals);
        } else if kind == PACKET_STAP_A {
            let nals = aggregated(payload.skip(1)).0;
            lemma_aggregate_size(payload.skip(1));
            lemma_with_nals(v, nals);
            lemma_annex_b_joined(v.nals, nals);
        } else if kind == PACKET_FU_A && payload.len() >= 3 {
            let nal = if payload[1] >= 128 {
                seq![rebuilt_header(payload[0], payload[1])] + payload.skip(2)
            } else {
                v.fragment->Some_0 + payload.skip(2)
            };
            assert(v.nals.push(nal).drop_last() =~= v.nals);
        }
    }
}

/// What a packet adds to the load, step by step.
proof fn lemma_load_grows(v: StreamView, timestamp: u32, payload: Seq<u8>)
    ensures
        ({
            let a = StreamView { timestamp: Some(timestamp), ..moved_on(v, timestamp).0 };
            let b = after_payload(a, payload);
            &&& load(a) <= load(v) + 3
            &&& load(b) <= load(v) + 3 * payload.len() + 8
            &&& load(marked_end(b, timestamp).0) <= load(v) + 3 * payload.len() + 10
        }),
{
    let a = StreamView { timestamp: Some(timestamp), ..moved_on(v, timestamp).0 };
    let b = after_payload(a, payload);
    if v.timestamp is Some {
        lemma_load_closed(abandoned(v), v.timestamp->Some_0, false);
    }
    lemma_load_payload(a, payload);
    lemma_load_closed(abandoned(b), timestamp, true);
}

// ---- laws -----------------------------------------------------------------------------

/// The state after some payloads of one picture.
pub open spec fn after_payloads(v: StreamView, payloads: Seq<Seq<u8>>) -> StreamView
    decreases payloads.len(),
{
    if payloads.len() == 0 {
        v
    } else {
        after_payload(after_payloads(v, payloads.drop_last()), payloads.last())
    }
}

/// The FU-A packets that carry a NAL with this header byte, its remaining bytes cut into `bodies`.
pub open spec fn fragments_of(header: u8, bodies: Seq<Seq<u8>>) -> Seq<Seq<u8>> {
    Seq::new(
        bodies.len(),
        |i: int|
            seq![
                ((header / 32) * 32 + PACKET_FU_A) as u8,
                ((if i == 0 {
                    128int
                } else {
                    0
                }) + (if i == bodies.len() - 1 {
                    64int
                } else {
                    0
                }) + header % 32) as u8,
            ] + bodies[i],
    )
}

/// A NAL cut into any number of fragments comes back whole: its header is rebuilt and its bytes
/// joined in order.
pub proof fn lemma_fragments_rebuild_the_nal(v: StreamView, header: u8, bodies: Seq<Seq<u8>>)
    requires
        bodies.len() >= 1,
        forall|i: int| 0 <= i < bodies.len() ==> (#[trigger] bodies[i]).len() > 0,
        v.fragment is None,
    ensures
        after_payloads(v, fragments_of(header, bodies)) == with_nal(
            v,
            seq![header] + bodies.flatten(),
        ),
{
    let packets = fragments_of(header, bodies);
    let n = bodies.len() as int;
    lemma_fragments_so_far(v, header, bodies, n);
    assert(packets.take(n) =~= packets);
    assert(bodies.take(n) =~= bodies);
}

/// The first `n` fragments of a NAL.
#[verifier::spinoff_prover]
#[verifier::rlimit(60)]
proof fn lemma_fragments_so_far(v: StreamView, header: u8, bodies: Seq<Seq<u8>>, n: int)
    requires
        1 <= n <= bodies.len(),
        forall|i: int| 0 <= i < bodies.len() ==> (#[trigger] bodies[i]).len() > 0,
        v.fragment is None,
    ensures
        ({
            let packets = fragments_of(header, bodies);
            let nal = seq![header] + bodies.take(n).flatten();
            after_payloads(v, packets.take(n)) == if n == bodies.len() {
                with_nal(v, nal)
            } else {
                StreamView { fragment: Some(nal), ..v }
            }
        }),
    decreases n,
{
    let packets = fragments_of(header, bodies);
    let packet = packets[n - 1];
    let body = bodies[n - 1];
    let before = after_payloads(v, packets.take(n - 1));
    assert(packets.take(n).drop_last() =~= packets.take(n - 1));
    assert(packets.take(n).last() == packet);
    assert(bodies.take(n).drop_last() =~= bodies.take(n - 1));
    assert(bodies.take(n).last() == body);
    bodies.take(n).lemma_flatten_and_flatten_alt_are_equivalent();
    bodies.take(n - 1).lemma_flatten_and_flatten_alt_are_equivalent();
    assert(bodies.take(n).flatten() == bodies.take(n - 1).flatten() + body);
    assert(packet.skip(2) =~= body);
    assert(kind_of(packet) == PACKET_FU_A);
    let whole = seq![header] + bodies.take(n).flatten();
    if n == 1 {
        assert(packets.take(0) =~= Seq::empty());
        assert(bodies.take(0).flatten() =~= Seq::empty()) by {
            bodies.take(0).lemma_flatten_and_flatten_alt_are_equivalent();
        }
        assert(rebuilt_header(packet[0], packet[1]) == header);
        assert(seq![header] + packet.skip(2) =~= whole);
    } else {
        lemma_fragments_so_far(v, header, bodies, n - 1);
        let begun = seq![header] + bodies.take(n - 1).flatten();
        assert(begun + packet.skip(2) =~= whole);
    }
}

/// The STAP-A body that holds some NALs.
pub open spec fn aggregate_of(nals: Seq<Seq<u8>>) -> Seq<u8>
    decreases nals.len(),
{
    if nals.len() == 0 {
        Seq::empty()
    } else {
        let size = nals.first().len();
        seq![(size / 256) as u8, (size % 256) as u8] + nals.first() + aggregate_of(
            nals.drop_first(),
        )
    }
}

/// NALs aggregated into one packet come back one by one, in order.
pub proof fn lemma_an_aggregate_splits(v: StreamView, nals: Seq<Seq<u8>>)
    requires
        forall|i: int| 0 <= i < nals.len() ==> 1 <= (#[trigger] nals[i]).len() <= 0xFFFF,
    ensures
        after_aggregate(v, aggregate_of(nals)) == with_nals(v, nals),
{
    lemma_aggregated_undoes_aggregate(nals);
}

proof fn lemma_aggregated_undoes_aggregate(nals: Seq<Seq<u8>>)
    requires
        forall|i: int| 0 <= i < nals.len() ==> 1 <= (#[trigger] nals[i]).len() <= 0xFFFF,
    ensures
        aggregated(aggregate_of(nals)) == (nals, true),
    decreases nals.len(),
{
    let body = aggregate_of(nals);
    if nals.len() > 0 {
        let first = nals.first();
        let later = aggregate_of(nals.drop_first());
        lemma_aggregated_undoes_aggregate(nals.drop_first());
        assert(wire::be16_at(body, 0) == first.len());
        let end = 2 + first.len() as int;
        assert(body.subrange(2, end) =~= first);
        assert(body.skip(end) =~= later);
        assert(seq![first] + nals.drop_first() =~= nals);
    }
}

/// A picture never takes in NALs of another timestamp: when the timestamp moves on, what was held
/// is handed over as it stood, and the new packet's payload counts for the next picture only.
pub proof fn lemma_timestamps_do_not_mix(
    v: StreamView,
    timestamp: u32,
    marker: bool,
    payload: Seq<u8>,
)
    requires
        v.timestamp is Some,
        v.timestamp->Some_0 != timestamp,
        v.nals.len() > 0,
    ensures
        ({
            let units = after_packet(v, timestamp, marker, payload).1;
            &&& units.len() >= 1
            &&& units[0] == unit_of(v.nals, v.timestamp->Some_0, false)
            &&& forall|i: int|
                1 <= i < units.len() ==> (#[trigger] units[i]).timestamp == timestamp
        }),
{
}

/// The NALs of a STAP-A body are not empty.
proof fn lemma_aggregated_not_empty(body: Seq<u8>)
    ensures
        forall|i: int|
            0 <= i < aggregated(body).0.len() ==> (#[trigger] aggregated(body).0[i]).len() > 0,
    decreases body.len(),
{
    if body.len() >= 2 && wire::be16_at(body, 0) > 0 && body.len() >= 2 + wire::be16_at(body, 0) {
        let size = wire::be16_at(body, 0);
        let later = aggregated(body.skip(2 + size)).0;
        lemma_aggregated_not_empty(body.skip(2 + size));
        assert forall|i: int| 0 <= i < aggregated(body).0.len() implies (#[trigger] aggregated(
            body,
        ).0[i]).len() > 0 by {
            if i > 0 {
                assert(aggregated(body).0[i] == later[i - 1]);
            }
        }
    } else {
        assert(aggregated(body).0.len() == 0);
    }
}

/// A payload keeps what is held in an open picture.
proof fn lemma_payload_keeps_sound(v: StreamView, payload: Seq<u8>)
    requires
        sound(v),
        v.timestamp is Some,
    ensures
        sound(after_payload(v, payload)),
        after_payload(v, payload).timestamp == v.timestamp,
{
    if payload.len() > 0 && kind_of(payload) == PACKET_STAP_A {
        let nals = aggregated(payload.skip(1)).0;
        lemma_aggregated_not_empty(payload.skip(1));
        lemma_with_nals(v, nals);
    }
}

/// A packet keeps what is held in an open picture.
proof fn lemma_packet_keeps_sound(v: StreamView, timestamp: u32, marker: bool, payload: Seq<u8>)
    requires
        sound(v),
    ensures
        sound(after_packet(v, timestamp, marker, payload).0),
{
    lemma_payload_keeps_sound(opened(v, timestamp), payload);
}

/// Whether a picture is made of NALs, at least one and none of them empty, each behind a start
/// code and with its type listed.
pub open spec fn is_picture(unit: UnitView) -> bool {
    exists|nals: Seq<Seq<u8>>|
        {
            &&& nals.len() >= 1
            &&& forall|i: int| 0 <= i < nals.len() ==> (#[trigger] nals[i]).len() > 0
            &&& unit.data == #[trigger] annex_b(nals)
            &&& unit.nal_types == kinds_of(nals)
        }
}

/// What one packet hands over: at most two pictures, each made of NALs. One that the marker closed
/// is the last and has the packet's timestamp; any other has an earlier packet's. After a marker
/// nothing stays open.
pub proof fn lemma_what_one_packet_hands_over(
    v: StreamView,
    timestamp: u32,
    marker: bool,
    payload: Seq<u8>,
)
    requires
        sound(v),
    ensures
        ({
            let (after, units) = after_packet(v, timestamp, marker, payload);
            &&& units.len() <= 2
            &&& forall|i: int| 0 <= i < units.len() ==> is_picture(#[trigger] units[i])
            &&& forall|i: int|
                0 <= i < units.len() && (#[trigger] units[i]).closed_by_marker ==> i == units.len()
                    - 1 && units[i].timestamp == timestamp && marker
            &&& forall|i: int|
                0 <= i < units.len() && !(#[trigger] units[i]).closed_by_marker
                    ==> units[i].timestamp != timestamp
            &&& sound(after)
            &&& marker ==> after.timestamp is None && nothing_open(after)
        }),
{
    let a = opened(v, timestamp);
    let b = after_payload(a, payload);
    lemma_packet_keeps_sound(v, timestamp, marker, payload);
    lemma_payload_keeps_sound(a, payload);
    lemma_closed_is_a_picture(abandoned(v), v.timestamp->Some_0, false);
    lemma_closed_is_a_picture(abandoned(b), timestamp, true);
}

/// What closing hands over is a picture.
proof fn lemma_closed_is_a_picture(v: StreamView, timestamp: u32, by_marker: bool)
    requires
        forall|i: int| 0 <= i < v.nals.len() ==> (#[trigger] v.nals[i]).len() > 0,
    ensures
        ({
            let units = closed(v, timestamp, by_marker).1;
            &&& units.len() <= 1
            &&& forall|i: int|
                0 <= i < units.len() ==> is_picture(#[trigger] units[i]) && units[i].timestamp
                    == timestamp && units[i].closed_by_marker == by_marker
        }),
{
    if v.nals.len() > 0 {
        let unit = unit_of(v.nals, timestamp, by_marker);
        assert(unit.data == annex_b(v.nals));
        assert(is_picture(unit));
    }
}

/// What packets of one timestamp do, of which the last has the marker bit if `marker`, and the
/// pictures that they complete.
pub open spec fn after_run(
    v: StreamView,
    timestamp: u32,
    payloads: Seq<Seq<u8>>,
    marker: bool,
) -> (StreamView, Seq<UnitView>)
    decreases payloads.len(),
{
    if payloads.len() == 0 {
        (v, Seq::empty())
    } else {
        let (before, units) = after_run(v, timestamp, payloads.drop_last(), false);
        let (after, more) = after_packet(before, timestamp, marker, payloads.last());
        (after, units + more)
    }
}

/// Fragmentation leaves no trace: a NAL that is cut into fragments, of which the last has the
/// marker bit, gives the same pictures, parameter sets and statistics as the NAL in one packet
/// with the marker bit. The fragments before the last complete no picture of their own timestamp.
pub proof fn lemma_fragmentation_leaves_no_trace(
    v: StreamView,
    timestamp: u32,
    header: u8,
    bodies: Seq<Seq<u8>>,
)
    requires
        bodies.len() >= 1,
        forall|i: int| 0 <= i < bodies.len() ==> (#[trigger] bodies[i]).len() > 0,
        1 <= header % 32 <= 23,
    ensures
        ({
            let nal = seq![header] + bodies.flatten();
            let packets = fragments_of(header, bodies);
            let whole = after_packet(v, timestamp, true, nal);
            let earlier = moved_on(v, timestamp);
            &&& after_run(v, timestamp, packets, true) == whole
            &&& whole.1 == earlier.1.push(unit_of(earlier.0.nals.push(nal), timestamp, true))
            &&& forall|n: int|
                1 <= n < packets.len() ==> (#[trigger] after_run(
                    v,
                    timestamp,
                    packets.take(n),
                    false,
                )).1 == earlier.1
        }),
{
    let nal = seq![header] + bodies.flatten();
    let packets = fragments_of(header, bodies);
    let k = packets.len() as int;
    let a = opened(v, timestamp);
    let first = moved_on(v, timestamp).1;
    let whole = after_packet(v, timestamp, true, nal);
    assert(kind_of(nal) == header % 32);
    lemma_fragments_rebuild_the_nal(abandoned(a), header, bodies);
    lemma_a_start_abandons(a, header, bodies, k);
    assert(packets.take(k) =~= packets);
    assert(after_payloads(a, packets) == with_nal(abandoned(a), nal));
    assert(abandoned(with_nal(a, nal)) =~= with_nal(abandoned(a), nal));
    assert forall|n: int| 1 <= n < packets.len() implies (#[trigger] after_run(
        v,
        timestamp,
        packets.take(n),
        false,
    )).1 == first by {
        lemma_run_is_its_payloads(v, timestamp, packets.take(n));
    }
    let before = packets.drop_last();
    let w = after_run(v, timestamp, before, false);
    let b = after_payload(opened(w.0, timestamp), packets.last());
    if k == 1 {
        assert(before =~= Seq::empty());
        assert(after_payloads(a, before) == a);
        assert(w.1 + after_packet(w.0, timestamp, true, packets.last()).1 =~= after_packet(
            v,
            timestamp,
            true,
            packets.last(),
        ).1);
        assert(b == with_nal(abandoned(a), nal));
    } else {
        assert(before =~= packets.take(k - 1));
        lemma_run_is_its_payloads(v, timestamp, before);
        lemma_payloads_keep_the_timestamp(a, before);
        assert(opened(w.0, timestamp) =~= w.0);
        assert(b == with_nal(abandoned(a), nal));
        assert(moved_on(w.0, timestamp).1 =~= Seq::empty());
    }
    let last = marked_end(b, timestamp);
    assert(last == marked_end(with_nal(a, nal), timestamp));
    assert(after_run(v, timestamp, packets, true).1 =~= whole.1);
    assert(whole.1 =~= first.push(unit_of(a.nals.push(nal), timestamp, true)));
}

/// The first fragment of a NAL abandons what was being assembled.
proof fn lemma_a_start_abandons(v: StreamView, header: u8, bodies: Seq<Seq<u8>>, n: int)
    requires
        1 <= n <= bodies.len(),
        forall|i: int| 0 <= i < bodies.len() ==> (#[trigger] bodies[i]).len() > 0,
    ensures
        after_payloads(v, fragments_of(header, bodies).take(n)) == after_payloads(
            abandoned(v),
            fragments_of(header, bodies).take(n),
        ),
    decreases n,
{
    let packets = fragments_of(header, bodies);
    assert(packets.take(n).drop_last() =~= packets.take(n - 1));
    if n == 1 {
        let packet = packets[0];
        assert(packets.take(0) =~= Seq::empty());
        assert(after_payloads(v, packets.take(0)) == v);
        assert(after_payloads(abandoned(v), packets.take(0)) == abandoned(v));
        assert(bodies[0].len() > 0);
        assert(kind_of(packet) == PACKET_FU_A);
        assert(packet[1] >= 128);
        assert(abandoned(abandoned(v)) == abandoned(v));
    } else {
        lemma_a_start_abandons(v, header, bodies, n - 1);
    }
}

/// Payloads leave the timestamp of the open picture.
proof fn lemma_payloads_keep_the_timestamp(v: StreamView, payloads: Seq<Seq<u8>>)
    ensures
        after_payloads(v, payloads).timestamp == v.timestamp,
    decreases payloads.len(),
{
    if payloads.len() > 0 {
        lemma_payloads_keep_the_timestamp(v, payloads.drop_last());
        let w = after_payloads(v, payloads.drop_last());
        let payload = payloads.last();
        if payload.len() > 0 && kind_of(payload) == PACKET_STAP_A {
            lemma_with_nals(w, aggregated(payload.skip(1)).0);
        }
    }
}

/// Packets of one timestamp without a marker are their payloads, one after the other, once the
/// first of them has closed an earlier picture.
proof fn lemma_run_is_its_payloads(v: StreamView, timestamp: u32, payloads: Seq<Seq<u8>>)
    requires
        payloads.len() >= 1,
    ensures
        after_run(v, timestamp, payloads, false) == (
            after_payloads(opened(v, timestamp), payloads),
            moved_on(v, timestamp).1,
        ),
    decreases payloads.len(),
{
    let a = opened(v, timestamp);
    let before = payloads.drop_last();
    if before.len() == 0 {
        assert(after_run(v, timestamp, before, false) == (v, Seq::<UnitView>::empty()));
        assert(after_payloads(a, before) == a);
        assert(Seq::<UnitView>::empty() + moved_on(v, timestamp).1 =~= moved_on(v, timestamp).1);
    } else {
        lemma_run_is_its_payloads(v, timestamp, before);
        lemma_payloads_keep_the_timestamp(a, before);
        let w = after_payloads(a, before);
        assert(opened(w, timestamp) =~= w);
        assert(moved_on(v, timestamp).1 + Seq::<UnitView>::empty() =~= moved_on(v, timestamp).1);
    }
}

/// A call on a depacketiser.
pub enum CallView {
    Push(Seq<u8>),
    PushPayload { timestamp: u32, marker: bool, payload: Seq<u8> },
    Flush,
    Reset,
}

/// What a call does, and the pictures that it hands over.
pub open spec fn after_call(v: StreamView, call: CallView) -> (StreamView, Seq<UnitView>) {
    match call {
        CallView::Push(packet) => after_datagram(v, packet),
        CallView::PushPayload { timestamp, marker, payload } => after_packet(
            v,
            timestamp,
            marker,
            payload,
        ),
        CallView::Flush => flushed(v),
        CallView::Reset => (emptied(v), Seq::empty()),
    }
}

/// What some calls do, one after the other, and the pictures that they hand over.
pub open spec fn after_calls(v: StreamView, calls: Seq<CallView>) -> (StreamView, Seq<UnitView>)
    decreases calls.len(),
{
    if calls.len() == 0 {
        (v, Seq::empty())
    } else {
        let (before, units) = after_calls(v, calls.drop_last());
        let (after, more) = after_call(before, calls.last());
        (after, units + more)
    }
}

/// The pictures that packets completed, as opposed to those that a flush handed over.
pub open spec fn pushed_units(v: StreamView, calls: Seq<CallView>) -> Seq<UnitView>
    decreases calls.len(),
{
    if calls.len() == 0 {
        Seq::empty()
    } else {
        let before = pushed_units(v, calls.drop_last());
        if calls.last() is Push || calls.last() is PushPayload {
            before + after_call(after_calls(v, calls.drop_last()).0, calls.last()).1
        } else {
            before
        }
    }
}

/// Whether some picture is one that a decoder can begin with.
pub open spec fn some_decodable_start(units: Seq<UnitView>) -> bool {
    exists|i: int| 0 <= i < units.len() && decodable_start((#[trigger] units[i]).nal_types)
}

/// The bytes of some pictures.
pub open spec fn total_bytes(units: Seq<UnitView>) -> int
    decreases units.len(),
{
    if units.len() == 0 {
        0
    } else {
        total_bytes(units.drop_last()) + units.last().data.len()
    }
}

/// How many pictures have an IDR.
pub open spec fn keyframes_in(units: Seq<UnitView>) -> int
    decreases units.len(),
{
    if units.len() == 0 {
        0
    } else {
        keyframes_in(units.drop_last()) + if units.last().nal_types.contains(NAL_IDR) {
            1int
        } else {
            0
        }
    }
}

/// How many pictures were not closed by a marker.
pub open spec fn unmarked_in(units: Seq<UnitView>) -> int
    decreases units.len(),
{
    if units.len() == 0 {
        0
    } else {
        unmarked_in(units.drop_last()) + if units.last().closed_by_marker {
            0int
        } else {
            1
        }
    }
}

/// Whether the statistics count what was handed over: every picture, its bytes, those with an IDR,
/// and those of the ones that packets completed that had no marker. Whether the keyframe flag tells
/// of a picture with an IDR and its parameter sets, and whether every picture has a NAL.
pub open spec fn counted(v: StreamView, units: Seq<UnitView>, pushed: Seq<UnitView>) -> bool {
    &&& v.stats.access_units == units.len()
    &&& v.stats.bytes == total_bytes(units)
    &&& v.stats.keyframes == keyframes_in(units)
    &&& v.stats.units_closed_without_marker == unmarked_in(pushed)
    &&& v.keyframe_seen == some_decodable_start(units)
    &&& forall|i: int| 0 <= i < units.len() ==> (#[trigger] units[i]).nal_types.len() >= 1
}

/// The statistics count what was handed over, whatever was called and in whatever order.
pub proof fn lemma_what_is_emitted_is_counted(calls: Seq<CallView>)
    ensures
        counted(
            after_calls(unstarted(), calls).0,
            after_calls(unstarted(), calls).1,
            pushed_units(unstarted(), calls),
        ),
    decreases calls.len(),
{
    if calls.len() > 0 {
        lemma_what_is_emitted_is_counted(calls.drop_last());
        let (before, units) = after_calls(unstarted(), calls.drop_last());
        let pushed = pushed_units(unstarted(), calls.drop_last());
        let call = calls.last();
        match call {
            CallView::Push(packet) => {
                if rtp::fault(packet) is None && rtp::header_of(packet).payload_type
                    == PAYLOAD_TYPE {
                    let header = rtp::header_of(packet);
                    lemma_packet_is_counted(
                        before,
                        units,
                        pushed,
                        header.timestamp,
                        header.marker,
                        rtp::payload_of(packet),
                    );
                } else {
                    assert(units + after_call(before, call).1 =~= units);
                    assert(pushed + after_call(before, call).1 =~= pushed);
                }
            },
            CallView::PushPayload { timestamp, marker, payload } => {
                lemma_packet_is_counted(before, units, pushed, timestamp, marker, payload);
            },
            CallView::Flush => {
                if let Some(timestamp) = before.timestamp {
                    let open = StreamView { timestamp: None, fragment: None, ..before };
                    lemma_closed_is_counted(open, units, timestamp, false);
                } else {
                    assert(units + after_call(before, call).1 =~= units);
                }
            },
            CallView::Reset => {
                assert(units + after_call(before, call).1 =~= units);
            },
        }
    }
}

/// What one packet hands over is counted.
proof fn lemma_packet_is_counted(
    v: StreamView,
    units: Seq<UnitView>,
    pushed: Seq<UnitView>,
    timestamp: u32,
    marker: bool,
    payload: Seq<u8>,
)
    requires
        counted(v, units, pushed),
    ensures
        ({
            let (after, more) = after_packet(v, timestamp, marker, payload);
            counted(after, units + more, pushed + more)
        }),
{
    let first = moved_on(v, timestamp).1;
    let a = opened(v, timestamp);
    let b = after_payload(a, payload);
    if v.timestamp is Some && v.timestamp->Some_0 != timestamp {
        lemma_closed_is_counted(abandoned(v), units, v.timestamp->Some_0, false);
        lemma_unmarked_joins(pushed, first);
    } else {
        assert(units + first =~= units);
        assert(pushed + first =~= pushed);
    }
    assert(counted(a, units + first, pushed + first));
    lemma_payload_emits_nothing(a, payload);
    if marker {
        let last = marked_end(b, timestamp).1;
        lemma_closed_is_counted(abandoned(b), units + first, timestamp, true);
        lemma_unmarked_joins(pushed + first, last);
        assert(units + (first + last) =~= units + first + last);
        assert(pushed + (first + last) =~= pushed + first + last);
    }
}

/// Closing a picture counts it.
proof fn lemma_closed_is_counted(
    v: StreamView,
    units: Seq<UnitView>,
    timestamp: u32,
    by_marker: bool,
)
    requires
        v.stats.access_units == units.len(),
        v.stats.bytes == total_bytes(units),
        v.stats.keyframes == keyframes_in(units),
        v.keyframe_seen == some_decodable_start(units),
        forall|i: int| 0 <= i < units.len() ==> (#[trigger] units[i]).nal_types.len() >= 1,
    ensures
        ({
            let (w, more) = closed(v, timestamp, by_marker);
            let all = units + more;
            &&& more.len() <= 1
            &&& more.len() == 1 ==> more[0].closed_by_marker == by_marker
            &&& w.stats.access_units == all.len()
            &&& w.stats.bytes == total_bytes(all)
            &&& w.stats.keyframes == keyframes_in(all)
            &&& w.stats.units_closed_without_marker == v.stats.units_closed_without_marker
            &&& w.keyframe_seen == some_decodable_start(all)
            &&& forall|i: int| 0 <= i < all.len() ==> (#[trigger] all[i]).nal_types.len() >= 1
        }),
{
    let (w, more) = closed(v, timestamp, by_marker);
    let all = units + more;
    if more.len() == 0 {
        assert(all =~= units);
    } else {
        let unit = unit_of(v.nals, timestamp, by_marker);
        assert(all.drop_last() =~= units);
        assert(all.last() == unit);
        if some_decodable_start(units) {
            let i = choose|i: int|
                0 <= i < units.len() && decodable_start((#[trigger] units[i]).nal_types);
            assert(all[i] == units[i]);
        }
        if decodable_start(unit.nal_types) {
            assert(all[units.len() as int] == unit);
        }
        if some_decodable_start(all) {
            let i = choose|i: int|
                0 <= i < all.len() && decodable_start((#[trigger] all[i]).nal_types);
            if i < units.len() {
                assert(units[i] == all[i]);
            }
        }
    }
}

/// One more picture, or none, among those that had no marker.
proof fn lemma_unmarked_joins(units: Seq<UnitView>, more: Seq<UnitView>)
    requires
        more.len() <= 1,
    ensures
        unmarked_in(units + more) == unmarked_in(units) + if more.len() == 1
            && !more[0].closed_by_marker {
            1int
        } else {
            0
        },
{
    if more.len() == 0 {
        assert(units + more =~= units);
    } else {
        assert((units + more).drop_last() =~= units);
    }
}

/// A payload changes neither what was emitted nor its counts.
proof fn lemma_payload_emits_nothing(v: StreamView, payload: Seq<u8>)
    ensures
        ({
            let w = after_payload(v, payload);
            &&& w.stats.access_units == v.stats.access_units
            &&& w.stats.bytes == v.stats.bytes
            &&& w.stats.keyframes == v.stats.keyframes
            &&& w.stats.units_closed_without_marker == v.stats.units_closed_without_marker
            &&& w.keyframe_seen == v.keyframe_seen
            &&& no_counter_below(w.stats, v.stats)
        }),
{
    if payload.len() > 0 && kind_of(payload) == PACKET_STAP_A {
        let nals = aggregated(payload.skip(1)).0;
        lemma_with_nals(v, nals);
    }
}

/// Whether no counter of `later` is below that of `earlier`.
pub open spec fn no_counter_below(later: StatsView, earlier: StatsView) -> bool {
    &&& earlier.access_units <= later.access_units
    &&& earlier.keyframes <= later.keyframes
    &&& earlier.nal_units <= later.nal_units
    &&& earlier.bytes <= later.bytes
    &&& earlier.dropped_fragments <= later.dropped_fragments
    &&& earlier.unsupported_packets <= later.unsupported_packets
    &&& earlier.units_closed_without_marker <= later.units_closed_without_marker
}

/// No counter ever decreases, whatever is called and in whatever order.
pub proof fn lemma_no_counter_decreases(v: StreamView, calls: Seq<CallView>)
    ensures
        no_counter_below(after_calls(v, calls).0.stats, v.stats),
    decreases calls.len(),
{
    if calls.len() > 0 {
        lemma_no_counter_decreases(v, calls.drop_last());
        let before = after_calls(v, calls.drop_last()).0;
        match calls.last() {
            CallView::Push(packet) => {
                let header = rtp::header_of(packet);
                lemma_payload_emits_nothing(
                    opened(before, header.timestamp),
                    rtp::payload_of(packet),
                );
            },
            CallView::PushPayload { timestamp, marker, payload } => {
                lemma_payload_emits_nothing(opened(before, timestamp), payload);
            },
            _ => {},
        }
    }
}

// ---- the bytes of a picture ----------------------------------------------------------------

/// The bytes of a picture are its NALs in the order in which they came, each behind the four bytes
/// `00 00 00 01`.
proof fn lemma_annex_b_is_every_nal(nals: Seq<Seq<u8>>)
    ensures
        annex_b(nals) == nals.map_values(|n: Seq<u8>| seq![0u8, 0, 0, 1] + n).flatten(),
    decreases nals.len(),
{
    let marked = nals.map_values(|n: Seq<u8>| seq![0u8, 0, 0, 1] + n);
    if nals.len() == 0 {
        assert(marked =~= Seq::empty());
    } else {
        let before = nals.drop_last().map_values(|n: Seq<u8>| seq![0u8, 0, 0, 1] + n);
        lemma_annex_b_is_every_nal(nals.drop_last());
        assert(marked =~= before.push(seq![0u8, 0, 0, 1] + nals.last()));
        before.lemma_flatten_push(seq![0u8, 0, 0, 1] + nals.last());
        assert(START_CODE@ =~= seq![0u8, 0, 0, 1]);
        assert(annex_b(nals) =~= before.flatten() + (seq![0u8, 0, 0, 1] + nals.last()));
    }
}

/// Whether a picture is made of exactly these NALs: its bytes are the NALs in order, each behind
/// the four bytes `00 00 00 01`, and its types are the low five bits of their first bytes.
pub open spec fn holds_exactly(unit: UnitView, nals: Seq<Seq<u8>>) -> bool {
    &&& unit.data == nals.map_values(|n: Seq<u8>| seq![0u8, 0, 0, 1] + n).flatten()
    &&& unit.nal_types.len() == nals.len()
    &&& forall|i: int| 0 <= i < nals.len() ==> #[trigger] unit.nal_types[i] == nals[i][0] % 32
}

/// The NALs of a picture hold every byte of it, at the place that the NALs before leave.
pub proof fn lemma_where_a_nal_stands(unit: UnitView, nals: Seq<Seq<u8>>, i: int)
    requires
        holds_exactly(unit, nals),
        0 <= i < nals.len(),
    ensures
        ({
            let before = nals.take(i).map_values(|n: Seq<u8>| seq![0u8, 0, 0, 1] + n).flatten();
            let at = before.len() as int;
            &&& at + 4 + nals[i].len() <= unit.data.len()
            &&& unit.data.subrange(at, at + 4) == seq![0u8, 0, 0, 1]
            &&& unit.data.subrange(at + 4, at + 4 + nals[i].len()) == nals[i]
        }),
{
    let marked = nals.map_values(|n: Seq<u8>| seq![0u8, 0, 0, 1] + n);
    let before = nals.take(i).map_values(|n: Seq<u8>| seq![0u8, 0, 0, 1] + n);
    let after = nals.skip(i + 1).map_values(|n: Seq<u8>| seq![0u8, 0, 0, 1] + n);
    let own = seq![0u8, 0, 0, 1] + nals[i];
    assert(marked =~= before.push(own) + after);
    vstd::seq_lib::lemma_flatten_concat(before.push(own), after);
    before.lemma_flatten_push(own);
    let at = before.flatten().len() as int;
    assert(unit.data == before.flatten() + own + after.flatten());
    assert(unit.data.subrange(at, at + 4) =~= seq![0u8, 0, 0, 1]);
    assert(unit.data.subrange(at + 4, at + 4 + nals[i].len()) =~= nals[i]);
}

/// What closing hands over holds exactly the NALs that were held.
proof fn lemma_closed_holds_exactly(v: StreamView, timestamp: u32, by_marker: bool)
    requires
        v.nals.len() > 0,
    ensures
        ({
            let units = closed(v, timestamp, by_marker).1;
            &&& units.len() == 1
            &&& holds_exactly(units[0], v.nals)
            &&& units[0].timestamp == timestamp
            &&& units[0].closed_by_marker == by_marker
        }),
{
    lemma_annex_b_is_every_nal(v.nals);
}

/// Payloads that each are one NAL are held one after the other.
proof fn lemma_plain_payloads_are_held(v: StreamView, payloads: Seq<Seq<u8>>)
    requires
        forall|i: int|
            0 <= i < payloads.len() ==> (#[trigger] payloads[i]).len() > 0 && 1 <= payloads[i][0]
                % 32 <= 23,
    ensures
        after_payloads(v, payloads).nals == v.nals + payloads,
        after_payloads(v, payloads).fragment == v.fragment,
        after_payloads(v, payloads).timestamp == v.timestamp,
    decreases payloads.len(),
{
    if payloads.len() == 0 {
        assert(v.nals + payloads =~= v.nals);
    } else {
        let before = payloads.drop_last();
        assert forall|i: int| 0 <= i < before.len() implies (#[trigger] before[i]).len() > 0 && 1
            <= before[i][0] % 32 <= 23 by {
            assert(before[i] == payloads[i]);
        }
        lemma_plain_payloads_are_held(v, before);
        assert(payloads.last() == payloads[payloads.len() - 1]);
        assert((v.nals + before).push(payloads.last()) =~= v.nals + payloads);
    }
}

/// A picture holds every NAL of its packets: packets of one timestamp whose payloads are one NAL
/// each, the last with the marker, give one picture, made of exactly those payloads in order.
pub proof fn lemma_a_picture_holds_every_nal(
    v: StreamView,
    timestamp: u32,
    payloads: Seq<Seq<u8>>,
)
    requires
        v.timestamp is None,
        v.nals.len() == 0,
        v.fragment is None,
        payloads.len() >= 1,
        forall|i: int|
            0 <= i < payloads.len() ==> (#[trigger] payloads[i]).len() > 0 && 1 <= payloads[i][0]
                % 32 <= 23,
    ensures
        ({
            let (after, units) = after_run(v, timestamp, payloads, true);
            &&& units.len() == 1
            &&& holds_exactly(units[0], payloads)
            &&& units[0].timestamp == timestamp
            &&& units[0].closed_by_marker
            &&& after.timestamp is None
            &&& after.nals.len() == 0
            &&& after.fragment is None
        }),
{
    let before = payloads.drop_last();
    let a = opened(v, timestamp);
    lemma_plain_payloads_are_held(a, payloads);
    let w = after_run(v, timestamp, before, false);
    assert(a.nals + payloads =~= payloads);
    if before.len() == 0 {
        assert(after_payloads(a, before) == a);
        assert(w == (v, Seq::<UnitView>::empty()));
    } else {
        lemma_run_is_its_payloads(v, timestamp, before);
        lemma_payloads_keep_the_timestamp(a, before);
        assert(opened(w.0, timestamp) =~= w.0);
    }
    let b = after_payload(opened(w.0, timestamp), payloads.last());
    assert(b == after_payloads(a, payloads));
    lemma_closed_holds_exactly(b, timestamp, true);
    let last = marked_end(b, timestamp).1;
    assert(after_run(v, timestamp, payloads, true).1 =~= last);
}

/// A picture whose marker never came is handed over when the next picture begins, with every NAL
/// of its packets and its own timestamp, and not as one closed by a marker.
pub proof fn lemma_the_next_picture_closes_the_last(
    v: StreamView,
    timestamp: u32,
    payloads: Seq<Seq<u8>>,
    later: u32,
    payload: Seq<u8>,
)
    requires
        v.timestamp is None,
        v.nals.len() == 0,
        v.fragment is None,
        payloads.len() >= 1,
        forall|i: int|
            0 <= i < payloads.len() ==> (#[trigger] payloads[i]).len() > 0 && 1 <= payloads[i][0]
                % 32 <= 23,
        later != timestamp,
    ensures
        after_run(v, timestamp, payloads, false).1.len() == 0,
        ({
            let open = after_run(v, timestamp, payloads, false).0;
            let units = after_packet(open, later, false, payload).1;
            &&& units.len() == 1
            &&& holds_exactly(units[0], payloads)
            &&& units[0].timestamp == timestamp
            &&& !units[0].closed_by_marker
        }),
        ({
            let open = after_run(v, timestamp, payloads, false).0;
            let units = flushed(open).1;
            &&& units.len() == 1
            &&& holds_exactly(units[0], payloads)
            &&& units[0].timestamp == timestamp
            &&& !units[0].closed_by_marker
        }),
{
    let a = opened(v, timestamp);
    let open = after_run(v, timestamp, payloads, false).0;
    lemma_run_is_its_payloads(v, timestamp, payloads);
    lemma_plain_payloads_are_held(a, payloads);
    assert(a.nals + payloads =~= payloads);
    lemma_closed_holds_exactly(open, timestamp, false);
    lemma_closed_holds_exactly(
        StreamView { timestamp: None, fragment: None, ..open },
        timestamp,
        false,
    );
}

/// A NAL that comes in fragments stands in its picture as the byte that the first fragment's two
/// header bytes make up, followed by the bodies of all fragments in order.
pub proof fn lemma_a_picture_holds_a_fragmented_nal(
    v: StreamView,
    timestamp: u32,
    header: u8,
    bodies: Seq<Seq<u8>>,
    packets: Seq<Seq<u8>>,
)
    requires
        v.timestamp is None,
        v.nals.len() == 0,
        v.fragment is None,
        1 <= header % 32 <= 23,
        bodies.len() >= 1,
        packets.len() == bodies.len(),
        forall|i: int| 0 <= i < bodies.len() ==> (#[trigger] bodies[i]).len() > 0,
        forall|i: int|
            0 <= i < packets.len() ==> #[trigger] packets[i] == seq![
                (header / 32 * 32 + 28) as u8,
                ((if i == 0 {
                    128int
                } else {
                    0
                }) + (if i == packets.len() - 1 {
                    64int
                } else {
                    0
                }) + header % 32) as u8,
            ] + bodies[i],
    ensures
        ({
            let units = after_run(v, timestamp, packets, true).1;
            &&& units.len() == 1
            &&& units[0].data == seq![0u8, 0, 0, 1] + seq![header] + bodies.flatten()
            &&& units[0].nal_types == seq![header % 32]
            &&& units[0].timestamp == timestamp
            &&& units[0].closed_by_marker
        }),
        forall|n: int|
            1 <= n < packets.len() ==> (#[trigger] after_run(
                v,
                timestamp,
                packets.take(n),
                false,
            )).1.len() == 0,
{
    assert(packets =~= fragments_of(header, bodies));
    lemma_fragmentation_leaves_no_trace(v, timestamp, header, bodies);
    let nal = seq![header] + bodies.flatten();
    let held = v.nals.push(nal);
    assert(held =~= seq![nal]);
    lemma_annex_b_is_every_nal(seq![nal]);
    let marked = seq![nal].map_values(|n: Seq<u8>| seq![0u8, 0, 0, 1] + n);
    assert(marked =~= seq![seq![0u8, 0, 0, 1] + nal]);
    Seq::<Seq<u8>>::empty().lemma_flatten_push(seq![0u8, 0, 0, 1] + nal);
    assert(Seq::<Seq<u8>>::empty().push(seq![0u8, 0, 0, 1] + nal) =~= marked);
    let unit = unit_of(seq![nal], timestamp, true);
    assert(unit.data =~= seq![0u8, 0, 0, 1] + seq![header] + bodies.flatten());
    assert(kinds_of(seq![nal]) =~= seq![header % 32]);
}

/// The NALs of an aggregation packet all stand in its picture, in order.
pub proof fn lemma_a_picture_holds_an_aggregate(
    v: StreamView,
    timestamp: u32,
    upper: u8,
    nals: Seq<Seq<u8>>,
)
    requires
        v.timestamp is None,
        v.nals.len() == 0,
        v.fragment is None,
        upper < 8,
        nals.len() >= 1,
        forall|i: int| 0 <= i < nals.len() ==> 0 < (#[trigger] nals[i]).len() < 0x1_0000,
    ensures
        ({
            let payload = seq![(upper * 32 + 24) as u8] + nals.map_values(
                |n: Seq<u8>| seq![(n.len() / 256) as u8, (n.len() % 256) as u8] + n,
            ).flatten();
            let (after, units) = after_packet(v, timestamp, true, payload);
            &&& units.len() == 1
            &&& holds_exactly(units[0], nals)
            &&& units[0].timestamp == timestamp
            &&& units[0].closed_by_marker
            &&& after.stats.unsupported_packets == v.stats.unsupported_packets
        }),
{
    let sized = nals.map_values(
        |n: Seq<u8>| seq![(n.len() / 256) as u8, (n.len() % 256) as u8] + n,
    );
    let payload = seq![(upper * 32 + 24) as u8] + sized.flatten();
    assert(kind_of(payload) == PACKET_STAP_A);
    assert(payload.skip(1) =~= sized.flatten());
    lemma_sized_nals_split(nals);
    let a = opened(v, timestamp);
    lemma_with_nals(a, nals);
    let b = after_payload(a, payload);
    assert(a.nals + nals =~= nals);
    lemma_closed_holds_exactly(b, timestamp, true);
    assert(after_packet(v, timestamp, true, payload).1 =~= marked_end(b, timestamp).1);
}

/// NALs behind their sizes split into themselves.
proof fn lemma_sized_nals_split(nals: Seq<Seq<u8>>)
    requires
        forall|i: int| 0 <= i < nals.len() ==> 0 < (#[trigger] nals[i]).len() < 0x1_0000,
    ensures
        aggregated(
            nals.map_values(
                |n: Seq<u8>| seq![(n.len() / 256) as u8, (n.len() % 256) as u8] + n,
            ).flatten(),
        ) == (nals, true),
    decreases nals.len(),
{
    let sized = nals.map_values(
        |n: Seq<u8>| seq![(n.len() / 256) as u8, (n.len() % 256) as u8] + n,
    );
    let body = sized.flatten();
    if nals.len() == 0 {
        assert(sized =~= Seq::empty());
        assert(body.len() == 0);
    } else {
        let nal = nals[0];
        let later = nals.drop_first();
        let later_sized = later.map_values(
            |n: Seq<u8>| seq![(n.len() / 256) as u8, (n.len() % 256) as u8] + n,
        );
        assert(sized.drop_first() =~= later_sized);
        assert forall|i: int| 0 <= i < later.len() implies 0 < (#[trigger] later[i]).len()
            < 0x1_0000 by {
            assert(later[i] == nals[i + 1]);
        }
        lemma_sized_nals_split(later);
        let own = seq![(nal.len() / 256) as u8, (nal.len() % 256) as u8] + nal;
        assert(sized.first() == own);
        assert(body =~= own + later_sized.flatten());
        assert(wire::be16_at(body, 0) == nal.len());
        assert(body.skip(2 + nal.len() as int) =~= later_sized.flatten());
        assert(body.subrange(2, 2 + nal.len() as int) =~= nal);
        assert(seq![nal] + later =~= nals);
    }
}

/// A parameter set is kept as it came, the latest of each kind; no other NAL touches them.
pub proof fn lemma_the_latest_parameter_sets_are_kept(
    v: StreamView,
    timestamp: u32,
    marker: bool,
    payload: Seq<u8>,
)
    requires
        payload.len() > 0,
        1 <= payload[0] % 32 <= 23,
    ensures
        ({
            let after = after_packet(v, timestamp, marker, payload).0;
            &&& after.sps == (if payload[0] % 32 == 7 {
                Some(payload)
            } else {
                v.sps
            })
            &&& after.pps == (if payload[0] % 32 == 8 {
                Some(payload)
            } else {
                v.pps
            })
            &&& after.stats.nal_units == v.stats.nal_units + 1
        }),
{
}

/// A decoder can begin with a picture exactly when it has a NAL of each of the types 5, 7 and 8.
pub proof fn lemma_what_a_decoder_begins_with(kinds: Seq<u8>)
    ensures
        decodable_start(kinds) <==> kinds.contains(5) && kinds.contains(7) && kinds.contains(8),
{
}

/// A payload that is no NAL, no aggregate and no fragment is counted as unsupported and changes
/// nothing else in the open picture.
pub proof fn lemma_an_unsupported_payload_only_counts(
    v: StreamView,
    timestamp: u32,
    payload: Seq<u8>,
)
    requires
        v.timestamp == Some(timestamp),
        payload.len() == 0 || payload[0] % 32 == 0 || 25 <= payload[0] % 32 <= 27 || payload[0] % 32
            >= 29 || (payload[0] % 32 == 28 && payload.len() < 3),
    ensures
        after_packet(v, timestamp, false, payload) == (
            StreamView {
                stats: StatsView {
                    unsupported_packets: v.stats.unsupported_packets + 1,
                    ..v.stats
                },
                ..v
            },
            Seq::<UnitView>::empty(),
        ),
{
}

/// A later fragment of a NAL whose first one never came is dropped and changes nothing else.
pub proof fn lemma_a_fragment_without_a_start_is_dropped(
    v: StreamView,
    timestamp: u32,
    payload: Seq<u8>,
)
    requires
        v.timestamp == Some(timestamp),
        v.fragment is None,
        payload.len() >= 3,
        payload[0] % 32 == 28,
        payload[1] < 128,
    ensures
        after_packet(v, timestamp, false, payload) == (
            StreamView {
                stats: StatsView {
                    dropped_fragments: v.stats.dropped_fragments + 1,
                    ..v.stats
                },
                ..v
            },
            Seq::<UnitView>::empty(),
        ),
{
}

/// A NAL whose last fragment never came is dropped, counted once, and stands in no picture.
pub proof fn lemma_an_unfinished_nal_is_dropped(v: StreamView, timestamp: u32, payload: Seq<u8>)
    requires
        v.timestamp == Some(timestamp),
        v.fragment is Some,
        v.nals.len() == 0,
        payload.len() > 0,
        1 <= payload[0] % 32 <= 23,
    ensures
        ({
            let (after, units) = after_packet(v, timestamp, true, payload);
            &&& units.len() == 1
            &&& holds_exactly(units[0], seq![payload])
            &&& after.stats.dropped_fragments == v.stats.dropped_fragments + 1
            &&& after.fragment is None
        }),
{
    let b = abandoned(after_payload(opened(v, timestamp), payload));
    assert(b.nals =~= seq![payload]);
    lemma_closed_holds_exactly(b, timestamp, true);
    assert(after_packet(v, timestamp, true, payload).1 =~= marked_end(
        after_payload(opened(v, timestamp), payload),
        timestamp,
    ).1);
}

/// Only RTP of the payload type 96 is decoded. Anything else is counted as unsupported and changes
/// nothing else.
pub proof fn lemma_only_video_packets_are_decoded(v: StreamView, packet: Seq<u8>)
    ensures
        rtp::fault(packet) is Some || packet[1] % 128 != 96 ==> after_datagram(v, packet) == (
            StreamView {
                stats: StatsView {
                    unsupported_packets: v.stats.unsupported_packets + 1,
                    ..v.stats
                },
                ..v
            },
            Seq::<UnitView>::empty(),
        ),
        rtp::fault(packet) is None && packet[1] % 128 == 96 ==> after_datagram(v, packet)
            == after_packet(
            v,
            rtp::header_of(packet).timestamp,
            packet[1] >= 128,
            rtp::payload_of(packet),
        ),
{
}

/// A picture shows the timestamp, the bytes, the NAL types and the way it was closed.
pub proof fn lemma_what_a_picture_shows(unit: AccessUnit)
    ensures
        unit@.timestamp == unit.timestamp,
        unit@.data == unit.data@,
        unit@.nal_types == unit.nal_types@,
        unit@.closed_by_marker == unit.closed_by_marker,
{
}

// ---- what the operations give back -----------------------------------------------------------

/// What a NAL's first byte says: the low five bits are its type, the two above how much it is
/// referred to. Types 7 and 8 are parameter sets, and type 5 is a keyframe.
pub proof fn lemma_what_a_nal_header_says(byte: u8, kind: u8, idc: u8, b: bool)
    ensures
        call_ensures(nal_type, (byte,), kind) ==> kind < 32 && byte / 32 * 32 + kind == byte,
        call_ensures(nal_ref_idc, (byte,), idc) ==> idc < 4 && byte / 128 * 128 + idc * 32 + byte
            % 32 == byte,
        call_ensures(is_parameter_set, (kind,), b) ==> b == (kind == 7 || kind == 8),
        call_ensures(is_keyframe_nal, (kind,), b) ==> b == (kind == 5),
{
}

/// A picture is a keyframe if it holds a NAL of type 5, has its parameter sets if it holds one of
/// type 7 and one of type 8, and is as long as its bytes.
pub proof fn lemma_what_a_picture_says_of_itself(unit: AccessUnit, b: bool, n: usize)
    ensures
        call_ensures(AccessUnit::is_keyframe, (&unit,), b) ==> b == unit@.nal_types.contains(5),
        call_ensures(AccessUnit::has_parameter_sets, (&unit,), b) ==> b == (
        unit@.nal_types.contains(7) && unit@.nal_types.contains(8)),
        call_ensures(AccessUnit::len, (&unit,), n) ==> n == unit@.data.len(),
        call_ensures(AccessUnit::is_empty, (&unit,), b) ==> b == (unit@.data.len() == 0),
{
}

/// The packet with the marker hands over one picture, with every NAL that was held and its own.
pub proof fn lemma_the_marker_hands_the_picture_over(
    d: &mut Depacketizer,
    header: RtpHeader,
    payload: &[u8],
    units: Vec<AccessUnit>,
)
    requires
        old(d)@.timestamp == Some(header.timestamp) || old(d)@.timestamp is None
            && old(d)@.nals.len() == 0,
        old(d)@.fragment is None,
        header.marker,
        payload@.len() > 0,
        1 <= payload@[0] % 32 <= 23,
    ensures
        call_ensures(Depacketizer::push_payload, (old(d), &header, payload), units) ==> {
            &&& units@.len() == 1
            &&& holds_exactly(units@[0]@, old(d)@.nals + seq![payload@])
            &&& units@[0]@.timestamp == header.timestamp
            &&& units@[0]@.closed_by_marker
            &&& final(d)@.nals.len() == 0
            &&& final(d)@.timestamp is None
        },
{
    let v = old(d)@;
    let a = opened(v, header.timestamp);
    let b = after_payload(a, payload@);
    lemma_plain_payloads_are_held(a, seq![payload@]);
    reveal_with_fuel(after_payloads, 2);
    assert(seq![payload@].drop_last() =~= Seq::<Seq<u8>>::empty());
    assert(b.nals =~= v.nals + seq![payload@]);
    lemma_closed_holds_exactly(b, header.timestamp, true);
    if call_ensures(Depacketizer::push_payload, (old(d), &header, payload), units) {
        assert(unit_views(units@).len() == units@.len());
        assert(moved_on(v, header.timestamp).1.len() == 0);
        assert(unit_views(units@) =~= marked_end(b, header.timestamp).1);
        assert(unit_views(units@)[0] == units@[0]@);
    }
}

/// The parameter sets are given as they were last seen, and in front of a decoder as two NALs, each
/// behind the four bytes `00 00 00 01`, or not at all while one is missing.
pub proof fn lemma_how_the_parameter_sets_are_given(
    d: Depacketizer,
    r: (Option<&[u8]>, Option<&[u8]>),
    out: Vec<u8>,
)
    ensures
        call_ensures(Depacketizer::parameter_sets, (&d,), r) ==> {
            &&& r.0 is Some <==> d@.sps is Some
            &&& r.1 is Some <==> d@.pps is Some
            &&& r.0 matches Some(sps) ==> sps@ == d@.sps->Some_0
            &&& r.1 matches Some(pps) ==> pps@ == d@.pps->Some_0
        },
        call_ensures(Depacketizer::parameter_sets_annex_b, (&d,), out) ==> out@ == if d@.sps is Some
            && d@.pps is Some {
            seq![0u8, 0, 0, 1] + d@.sps->Some_0 + seq![0u8, 0, 0, 1] + d@.pps->Some_0
        } else {
            Seq::empty()
        },
{
    if d@.sps is Some && d@.pps is Some {
        let both = seq![d@.sps->Some_0, d@.pps->Some_0];
        lemma_annex_b_is_every_nal(both);
        let marked = both.map_values(|n: Seq<u8>| seq![0u8, 0, 0, 1] + n);
        reveal_with_fuel(Seq::flatten, 3);
        assert(marked.drop_first().drop_first() =~= Seq::<Seq<u8>>::empty());
        assert(marked.flatten() =~= seq![0u8, 0, 0, 1] + d@.sps->Some_0 + seq![0u8, 0, 0, 1]
            + d@.pps->Some_0);
    }
}

/// What a picture that the marker hands over counts as: one picture, one NAL more, its bytes, and a
/// keyframe if one of its NALs is of type 5.
pub proof fn lemma_what_a_marked_picture_counts(v: StreamView, timestamp: u32, payload: Seq<u8>)
    requires
        v.timestamp == Some(timestamp),
        v.fragment is None,
        payload.len() > 0,
        1 <= payload[0] % 32 <= 23,
    ensures
        ({
            let (after, units) = after_packet(v, timestamp, true, payload);
            &&& units.len() == 1
            &&& after.stats.access_units == v.stats.access_units + 1
            &&& after.stats.nal_units == v.stats.nal_units + 1
            &&& after.stats.bytes == v.stats.bytes + units[0].data.len()
            &&& after.stats.keyframes == v.stats.keyframes + (if units[0].nal_types.contains(5) {
                1int
            } else {
                0
            })
            &&& after.stats.units_closed_without_marker == v.stats.units_closed_without_marker
            &&& after.stats.dropped_fragments == v.stats.dropped_fragments
            &&& after.stats.unsupported_packets == v.stats.unsupported_packets
        }),
{
}

/// What a picture that the next one closes counts as: the same, and one picture more without its
/// marker. Flushing it counts no such picture.
pub proof fn lemma_what_an_unmarked_picture_counts(
    v: StreamView,
    timestamp: u32,
    later: u32,
    payload: Seq<u8>,
)
    requires
        v.timestamp == Some(timestamp),
        v.fragment is None,
        v.nals.len() > 0,
        later != timestamp,
        payload.len() > 0,
        1 <= payload[0] % 32 <= 23,
    ensures
        ({
            let (after, units) = after_packet(v, later, false, payload);
            &&& units.len() == 1
            &&& after.stats.access_units == v.stats.access_units + 1
            &&& after.stats.units_closed_without_marker == v.stats.units_closed_without_marker + 1
            &&& after.stats.nal_units == v.stats.nal_units + 1
            &&& after.stats.bytes == v.stats.bytes + units[0].data.len()
            &&& after.stats.keyframes == v.stats.keyframes + (if units[0].nal_types.contains(5) {
                1int
            } else {
                0
            })
            &&& after.stats.dropped_fragments == v.stats.dropped_fragments
            &&& after.stats.unsupported_packets == v.stats.unsupported_packets
        }),
        ({
            let (after, units) = flushed(v);
            &&& units.len() == 1
            &&& after.stats.access_units == v.stats.access_units + 1
            &&& after.stats.units_closed_without_marker == v.stats.units_closed_without_marker
            &&& after.stats.nal_units == v.stats.nal_units
            &&& after.stats.bytes == v.stats.bytes + units[0].data.len()
            &&& after.stats.keyframes == v.stats.keyframes + (if units[0].nal_types.contains(5) {
                1int
            } else {
                0
            })
        }),
{
}

/// The counts show themselves, and are all zero at first.
pub proof fn lemma_what_the_counts_show(s: DepacketizerStats, d: Depacketizer)
    ensures
        s@.access_units == s.access_units,
        s@.keyframes == s.keyframes,
        s@.nal_units == s.nal_units,
        s@.bytes == s.bytes,
        s@.dropped_fragments == s.dropped_fragments,
        s@.unsupported_packets == s.unsupported_packets,
        s@.units_closed_without_marker == s.units_closed_without_marker,
        call_ensures(Depacketizer::new, (), d) ==> {
            &&& d@.timestamp is None
            &&& d@.nals.len() == 0
            &&& d@.fragment is None
            &&& d@.sps is None
            &&& d@.pps is None
            &&& !d@.keyframe_seen
            &&& d@.stats.access_units == 0
            &&& d@.stats.keyframes == 0
            &&& d@.stats.nal_units == 0
            &&& d@.stats.bytes == 0
            &&& d@.stats.dropped_fragments == 0
            &&& d@.stats.unsupported_packets == 0
            &&& d@.stats.units_closed_without_marker == 0
        },
{
}

/// Dropping what is open drops its NALs and its fragment and nothing else: what was learnt and
/// counted stays.
pub proof fn lemma_what_a_reset_drops(d: &mut Depacketizer, r: ())
    ensures
        call_ensures(Depacketizer::reset, (old(d),), r) ==> {
            &&& final(d)@.timestamp is None
            &&& final(d)@.nals.len() == 0
            &&& final(d)@.fragment is None
            &&& final(d)@.sps == old(d)@.sps
            &&& final(d)@.pps == old(d)@.pps
            &&& final(d)@.keyframe_seen == old(d)@.keyframe_seen
            &&& final(d)@.stats == old(d)@.stats
        },
{
}

} // verus!

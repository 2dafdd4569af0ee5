//! The `AB 55` / `AC 55` control-packet envelope: encode, decode, and the streaming deframer.
//!
//! ```text
//!   app -> device   AB 55 | len (2, BIG-endian) | cmd (1) | data (N) | crc (1)
//!   device -> app   AC 55 | len (2, BIG-endian) | cmd (1) | data (N) | crc (1)
//!
//!   len = 1 (cmd) + N (data) + 1 (crc)          so a whole frame is 4 + len bytes
//!   crc = (cmd + sum of data) & 0xFF            a checksum, NOT a polynomial CRC
//! ```
//!
//! `len` counts the cmd and the crc but not the four header bytes, and the checksum covers the
//! cmd and the data but not the header or the length.
use crate::opcodes::AppCommand;
use vstd::prelude::*;
use vstd::slice::slice_subrange;
use vstd::slice::slice_to_vec;

verus! {

/// App to device frame magic.
pub const APP_HEADER: [u8; 2] = [0xAB, 0x55];

/// Device to app frame magic.
pub const DEVICE_HEADER: [u8; 2] = [0xAC, 0x55];

/// Magic (2) + length field (2). The length field does not count these.
pub const FRAME_OVERHEAD: usize = 4;

/// The smallest legal `len`: one cmd byte plus one crc byte, i.e. a frame with no data at all.
pub const MIN_LENGTH_FIELD: usize = 2;

/// Largest `len` the deframer will wait on before declaring the length field corrupt.
pub const MAX_LENGTH_FIELD: usize = 4096;

/// One decoded control frame. `cmd` stays a raw byte on purpose: classification is the
/// router's job, not the codec's.
#[derive(Debug, Clone, PartialEq, Eq)]
pub struct Frame {
    pub cmd: u8,
    pub data: Vec<u8>,
}

/// The mathematical content of a [`Frame`].
#[verifier::ext_equal]
pub struct FrameView {
    pub cmd: u8,
    pub data: Seq<u8>,
}

impl View for Frame {
    type V = FrameView;

    open spec fn view(&self) -> FrameView {
        FrameView { cmd: self.cmd, data: self.data@ }
    }
}

/// The contents of a list of frames, in order.
pub open spec fn frame_views(frames: Seq<Frame>) -> Seq<FrameView> {
    frames.map_values(|f: Frame| f@)
}

impl Frame {
    pub fn new(cmd: u8, data: Vec<u8>) -> (f: Self)
        ensures
            f.cmd == cmd,
            f.data == data,
    {
        Frame { cmd, data }
    }
}

/// Why a byte sequence is not a frame.
///
/// `Truncated` and `BadLength` are distinct even though both mean "cannot decode this yet": the
/// deframer waits on the first and resyncs on the second.
#[derive(Debug, Clone, Copy, PartialEq, Eq, Structural)]
pub enum DecodeError {
    /// Fewer than [`FRAME_OVERHEAD`] + [`MIN_LENGTH_FIELD`] bytes.
    TooShort,
    /// The first two bytes are not the expected magic.
    BadHeader,
    /// The length field is below [`MIN_LENGTH_FIELD`] or above [`MAX_LENGTH_FIELD`].
    BadLength,
    /// The length field is plausible but the buffer is shorter than `4 + len`.
    Truncated,
    /// Header and length are fine; the checksum does not match the trailing byte.
    ChecksumMismatch,
}

/// The sum of all bytes.
pub open spec fn byte_sum(data: Seq<u8>) -> nat
    decreases data.len(),
{
    if data.len() == 0 {
        0
    } else {
        byte_sum(data.drop_last()) + data.last() as nat
    }
}

/// `(cmd + sum of data) mod 256`.
pub open spec fn checksum_of(cmd: u8, data: Seq<u8>) -> u8 {
    ((cmd + byte_sum(data)) % 256) as u8
}

/// The bytes a frame occupies on the wire.
pub open spec fn frame_bytes(header: [u8; 2], frame: FrameView) -> Seq<u8> {
    let len = frame.data.len() + 2;
    header@ + seq![(len / 256 % 256) as u8, (len % 256) as u8, frame.cmd] + frame.data
        + seq![checksum_of(frame.cmd, frame.data)]
}

/// A command with no payload carries a single zero byte instead.
pub open spec fn or_filler(data: Seq<u8>) -> Seq<u8> {
    if data.len() == 0 {
        seq![0u8]
    } else {
        data
    }
}

/// The big-endian length field of a buffer of at least four bytes.
pub open spec fn length_field(bytes: Seq<u8>) -> int {
    bytes[2] * 256 + bytes[3]
}

pub open spec fn legal_length(len: int) -> bool {
    MIN_LENGTH_FIELD <= len <= MAX_LENGTH_FIELD
}

/// The frame fits a length field that decoding accepts.
pub open spec fn fits(frame: FrameView) -> bool {
    frame.data.len() + 2 <= MAX_LENGTH_FIELD
}

pub open spec fn begins_with(header: [u8; 2], bytes: Seq<u8>) -> bool {
    bytes.len() >= 2 && bytes[0] == header@[0] && bytes[1] == header@[1]
}

/// What decoding one frame from the front of `bytes` gives.
pub open spec fn decode_result(header: [u8; 2], bytes: Seq<u8>) -> Result<
    FrameView,
    DecodeError,
> {
    let len = length_field(bytes);
    if bytes.len() < FRAME_OVERHEAD + MIN_LENGTH_FIELD {
        Err(DecodeError::TooShort)
    } else if !begins_with(header, bytes) {
        Err(DecodeError::BadHeader)
    } else if !legal_length(len) {
        Err(DecodeError::BadLength)
    } else if bytes.len() < FRAME_OVERHEAD + len {
        Err(DecodeError::Truncated)
    } else {
        let frame = FrameView { cmd: bytes[4], data: bytes.subrange(5, len + 3) };
        if bytes[len + 3] != checksum_of(frame.cmd, frame.data) {
            Err(DecodeError::ChecksumMismatch)
        } else {
            Ok(frame)
        }
    }
}

/// Whether an executable decode result is the one the model gives.
pub open spec fn decodes_to(
    r: Result<Frame, DecodeError>,
    model: Result<FrameView, DecodeError>,
) -> bool {
    match r {
        Ok(f) => model == Ok::<FrameView, DecodeError>(f@),
        Err(e) => model == Err::<FrameView, DecodeError>(e),
    }
}

/// `(cmd + sum of data) & 0xFF`, over the cmd and the data only.
pub fn checksum(cmd: u8, data: &[u8]) -> (sum: u8)
    ensures
        sum == checksum_of(cmd, data@),
{
    let mut acc: u8 = cmd;
    for i in 0..data.len()
        invariant
            acc == checksum_of(cmd, data@.take(i as int)),
    {
        assert(data@.take(i + 1).drop_last() =~= data@.take(i as int));
        acc = acc.wrapping_add(data[i]);
    }
    assert(data@.take(data@.len() as int) =~= data@);
    acc
}

/// Build an app to device frame with a raw opcode byte. An empty payload is sent as the single
/// filler byte zero.
pub fn encode(cmd: u8, data: &[u8]) -> (bytes: Vec<u8>)
    ensures
        bytes@ == frame_bytes(APP_HEADER, FrameView { cmd, data: or_filler(data@) }),
{
    encode_framed(APP_HEADER, cmd, data)
}

/// [`encode`] with a typed opcode.
pub fn encode_command(cmd: AppCommand, data: &[u8]) -> (bytes: Vec<u8>)
    ensures
        bytes@ == frame_bytes(APP_HEADER, FrameView { cmd: cmd.code(), data: or_filler(data@) }),
{
    encode(cmd.code(), data)
}

/// Build a device to app frame, for fixtures and for checking a capture by re-encoding it.
pub fn encode_device(cmd: u8, data: &[u8]) -> (bytes: Vec<u8>)
    ensures
        bytes@ == frame_bytes(DEVICE_HEADER, FrameView { cmd, data: or_filler(data@) }),
{
    encode_framed(DEVICE_HEADER, cmd, data)
}

#[verifier::spinoff_prover]
#[verifier::rlimit(60)]
fn encode_framed(header: [u8; 2], cmd: u8, data: &[u8]) -> (bytes: Vec<u8>)
    ensures
        bytes@ == frame_bytes(header, FrameView { cmd, data: or_filler(data@) }),
{
    let filler: [u8; 1] = [0];
    let body: &[u8] = if data.is_empty() {
        &filler
    } else {
        data
    };
    assert(body@ =~= or_filler(data@));
    // Only the low sixteen bits of the length reach the wire.
    let len: usize = body.len() % 0x1_0000 + 2;
    let mut out: Vec<u8> = Vec::new();
    out.push(header[0]);
    out.push(header[1]);
    out.push((len / 256 % 256) as u8);
    out.push((len % 256) as u8);
    out.push(cmd);
    let ghost head = out@;
    assert(head =~= header@ + seq![head[2], head[3], cmd]);
    out.extend_from_slice(body);
    assert(out@ =~= head + body@);
    out.push(checksum(cmd, body));
    assert(out@ =~= head + body@ + seq![checksum_of(cmd, body@)]);
    out
}

/// Decode exactly one device to app frame from the front of `bytes`. Trailing bytes are ignored.
pub fn decode_device(bytes: &[u8]) -> (r: Result<Frame, DecodeError>)
    ensures
        decodes_to(r, decode_result(DEVICE_HEADER, bytes@)),
{
    decode_with(DEVICE_HEADER, bytes)
}

/// Decode exactly one app to device frame from the front of `bytes`.
pub fn decode_app(bytes: &[u8]) -> (r: Result<Frame, DecodeError>)
    ensures
        decodes_to(r, decode_result(APP_HEADER, bytes@)),
{
    decode_with(APP_HEADER, bytes)
}

fn decode_with(header: [u8; 2], bytes: &[u8]) -> (r: Result<Frame, DecodeError>)
    ensures
        decodes_to(r, decode_result(header, bytes@)),
{
    if bytes.len() < FRAME_OVERHEAD + MIN_LENGTH_FIELD {
        return Err(DecodeError::TooShort);
    }
    if bytes[0] != header[0] || bytes[1] != header[1] {
        return Err(DecodeError::BadHeader);
    }
    let len: usize = bytes[2] as usize * 256 + bytes[3] as usize;
    if len < MIN_LENGTH_FIELD || len > MAX_LENGTH_FIELD {
        return Err(DecodeError::BadLength);
    }
    if bytes.len() < FRAME_OVERHEAD + len {
        return Err(DecodeError::Truncated);
    }
    let cmd = bytes[4];
    let data = slice_subrange(bytes, 5, FRAME_OVERHEAD + len - 1);
    let stated = bytes[FRAME_OVERHEAD + len - 1];
    if stated != checksum(cmd, data) {
        return Err(DecodeError::ChecksumMismatch);
    }
    Ok(Frame { cmd, data: slice_to_vec(data) })
}

/// Whether `buf` begins, as far as it goes, with the magic of `header`.
pub open spec fn partial_prefix(header: [u8; 2], buf: Seq<u8>) -> bool {
    &&& buf.len() > 0
    &&& buf[0] == header@[0]
    &&& buf.len() >= 2 ==> buf[1] == header@[1]
}

/// Could `buf` still grow into a valid frame for `header`?
pub fn is_partial_frame_prefix(header: [u8; 2], buf: &[u8]) -> (b: bool)
    ensures
        b == partial_prefix(header, buf@),
{
    if buf.len() == 0 || buf[0] != header[0] {
        return false;
    }
    buf.len() < 2 || buf[1] == header[1]
}

/// How many bytes at the front of `buf` the deframer is done with: a whole frame, or the two
/// magic bytes of a frame whose length field no frame can have. Zero when it has to wait for
/// more bytes, or when the bytes are not the start of a frame at all.
pub open spec fn settled(header: [u8; 2], buf: Seq<u8>) -> int {
    if buf.len() < FRAME_OVERHEAD || !begins_with(header, buf) {
        0
    } else if !legal_length(length_field(buf)) {
        2
    } else if buf.len() < FRAME_OVERHEAD + length_field(buf) {
        0
    } else {
        FRAME_OVERHEAD + length_field(buf)
    }
}

/// The frames that draining `buf` gives, and the bytes it leaves. Settled bytes leave the
/// buffer one unit at a time; a unit that does not decode gives no frame.
pub open spec fn drained(header: [u8; 2], buf: Seq<u8>) -> (Seq<FrameView>, Seq<u8>)
    decreases buf.len(),
{
    let n = settled(header, buf);
    if n == 0 {
        (Seq::empty(), buf)
    } else {
        let (frames, rest) = drained(header, buf.skip(n));
        match decode_result(header, buf.take(n)) {
            Ok(frame) => (seq![frame] + frames, rest),
            Err(_) => (frames, rest),
        }
    }
}

/// Decode as many complete frames as `buffer` holds, consuming them in place. The remainder is
/// left alone: either a trailing partial frame, or bytes that are not ours.
///
/// A frame with a bad checksum is consumed and dropped: the length field already told where it
/// ends. A frame with an impossible length loses its two magic bytes, and nothing scans forward
/// for the next magic.
pub fn drain(header: [u8; 2], buffer: &mut Vec<u8>) -> (frames: Vec<Frame>)
    ensures
        frame_views(frames@) == drained(header, old(buffer)@).0,
        final(buffer)@ == drained(header, old(buffer)@).1,
{
    let ghost whole = buffer@;
    let mut out: Vec<Frame> = Vec::new();
    let mut pos: usize = 0;
    assert(whole.skip(0) =~= whole);
    assert(frame_views(out@) =~= Seq::empty());
    loop
        invariant
            pos <= buffer.len(),
            buffer@ == whole,
            drained(header, whole).0 == frame_views(out@) + drained(header, whole.skip(pos as int)).0,
            drained(header, whole).1 == drained(header, whole.skip(pos as int)).1,
        ensures
            pos <= buffer.len(),
            settled(header, whole.skip(pos as int)) == 0,
        decreases buffer.len() - pos,
    {
        let ghost rest = whole.skip(pos as int);
        let left: usize = buffer.len() - pos;
        if left < FRAME_OVERHEAD || buffer[pos] != header[0] || buffer[pos + 1] != header[1] {
            break;
        }
        let len: usize = buffer[pos + 2] as usize * 256 + buffer[pos + 3] as usize;
        if len < MIN_LENGTH_FIELD || len > MAX_LENGTH_FIELD {
            assert(whole.skip(pos + 2) =~= rest.skip(2));
            pos = pos + 2;
            continue;
        }
        let total: usize = FRAME_OVERHEAD + len;
        if left < total {
            break;
        }
        let unit = slice_subrange(buffer.as_slice(), pos, pos + total);
        assert(unit@ =~= rest.take(total as int));
        assert(whole.skip(pos + total) =~= rest.skip(total as int));
        let ghost before = frame_views(out@);
        let ghost after = drained(header, whole.skip(pos + total)).0;
        if let Ok(frame) = decode_with(header, unit) {
            out.push(frame);
            assert(frame_views(out@) =~= before.push(frame@));
            assert(before.push(frame@) + after =~= before + (seq![frame@] + after));
        }
        pos = pos + total;
    }
    let rest = buffer.split_off(pos);
    *buffer = rest;
    assert(frame_views(out@) + Seq::<FrameView>::empty() =~= frame_views(out@));
    out
}

/// What the deframer could not turn into frames.
#[derive(Debug, Clone, PartialEq, Eq)]
pub enum Residual {
    /// Every byte was consumed.
    Empty,
    /// A prefix that could still become a frame; it stays buffered for the next chunk. The
    /// count is how many bytes are held.
    PartialFrame(usize),
    /// Bytes that cannot begin a frame. Handed back rather than dropped because on the file
    /// characteristic these are the `52 58` file stream.
    Foreign(Vec<u8>),
    /// A partial frame grew past [`FRAME_OVERHEAD`] + [`MAX_LENGTH_FIELD`] without completing,
    /// so it was dropped. The count is what was discarded. A genuine partial frame is always
    /// shorter than that, so [`Deframer::push_detailed`] never reports this.
    Overflowed(usize),
}

/// The residual that goes with `rest`, the bytes that draining left.
pub open spec fn residual_of(header: [u8; 2], rest: Seq<u8>, residual: Residual) -> bool {
    match residual {
        Residual::Empty => rest.len() == 0,
        Residual::PartialFrame(n) => partial_prefix(header, rest) && n == rest.len(),
        Residual::Foreign(bytes) => rest.len() > 0 && !partial_prefix(header, rest) && bytes@
            == rest,
        Residual::Overflowed(_) => false,
    }
}

/// What stays buffered of `rest`, the bytes that draining left: a partial frame, nothing else.
pub open spec fn kept(header: [u8; 2], rest: Seq<u8>) -> Seq<u8> {
    if partial_prefix(header, rest) {
        rest
    } else {
        Seq::empty()
    }
}

/// Streaming frame demuxer for one characteristic.
///
/// Feed it whatever a notification delivered; it returns every frame that completed. It owns
/// bytes and nothing else: it has no timer, so "the stream went idle" is not a question it can
/// answer.
#[derive(Debug, Clone)]
pub struct Deframer {
    header: [u8; 2],
    buffer: Vec<u8>,
}

impl View for Deframer {
    type V = Seq<u8>;

    /// The bytes held, unparsed.
    closed spec fn view(&self) -> Seq<u8> {
        self.buffer@
    }
}

impl Deframer {
    /// The magic this deframer looks for.
    pub closed spec fn magic(&self) -> [u8; 2] {
        self.header
    }

    /// What is buffered is a partial frame, or nothing.
    pub open spec fn wf(&self) -> bool {
        &&& self@.len() > 0 ==> partial_prefix(self.magic(), self@)
        &&& settled(self.magic(), self@) == 0
        &&& self@.len() < FRAME_OVERHEAD + MAX_LENGTH_FIELD
    }

    /// For the device to app channels.
    pub fn device() -> (d: Self)
        ensures
            d.magic() == DEVICE_HEADER,
            d@ == Seq::<u8>::empty(),
            d.wf(),
    {
        Deframer { header: DEVICE_HEADER, buffer: Vec::new() }
    }

    /// For reading back our own outbound stream.
    pub fn app() -> (d: Self)
        ensures
            d.magic() == APP_HEADER,
            d@ == Seq::<u8>::empty(),
            d.wf(),
    {
        Deframer { header: APP_HEADER, buffer: Vec::new() }
    }

    /// Bytes currently held, unparsed.
    pub fn buffered(&self) -> (bytes: &[u8])
        ensures
            bytes@ == self@,
    {
        self.buffer.as_slice()
    }

    /// Forget everything buffered. Called on disconnect, where a half-frame from the previous
    /// link would otherwise prefix the next one.
    pub fn reset(&mut self)
        ensures
            final(self).magic() == old(self).magic(),
            final(self)@ == Seq::<u8>::empty(),
            final(self).wf(),
    {
        self.buffer.clear();
    }

    /// Feed one notification's bytes; returns the frames it completed.
    pub fn push(&mut self, chunk: &[u8]) -> (frames: Vec<Frame>)
        ensures
            ({
                let (out, rest) = drained(old(self).magic(), old(self)@ + chunk@);
                &&& frame_views(frames@) == out
                &&& final(self)@ == kept(old(self).magic(), rest)
            }),
            final(self).magic() == old(self).magic(),
            final(self).wf(),
    {
        self.push_detailed(chunk).0
    }

    /// [`Self::push`], plus what happened to the bytes that did not become frames.
    pub fn push_detailed(&mut self, chunk: &[u8]) -> (r: (Vec<Frame>, Residual))
        ensures
            ({
                let (out, rest) = drained(old(self).magic(), old(self)@ + chunk@);
                &&& frame_views(r.0@) == out
                &&& residual_of(old(self).magic(), rest, r.1)
                &&& final(self)@ == kept(old(self).magic(), rest)
            }),
            final(self).magic() == old(self).magic(),
            final(self).wf(),
    {
        self.buffer.extend_from_slice(chunk);
        let ghost whole = self.buffer@;
        assert(whole =~= old(self)@ + chunk@);
        let frames = drain(self.header, &mut self.buffer);
        let ghost rest = self.buffer@;
        proof {
            lemma_drain_leaves_nothing_settled(self.header, whole);
        }
        let residual = if self.buffer.is_empty() {
            Residual::Empty
        } else if !is_partial_frame_prefix(self.header, self.buffer.as_slice()) {
            // Cannot start a frame, so it is not ours.
            let foreign = self.buffer.split_off(0);
            assert(foreign@ =~= rest);
            Residual::Foreign(foreign)
        } else if self.buffer.len() > FRAME_OVERHEAD + MAX_LENGTH_FIELD {
            let n: usize = self.buffer.len();
            self.buffer.clear();
            Residual::Overflowed(n)
        } else {
            Residual::PartialFrame(self.buffer.len())
        };
        assert(self@ =~= kept(self.header, rest));
        (frames, residual)
    }
}

/// What draining leaves holds no complete frame and no frame start with an impossible length.
pub proof fn lemma_drain_leaves_nothing_settled(header: [u8; 2], buf: Seq<u8>)
    ensures
        settled(header, drained(header, buf).1) == 0,
    decreases buf.len(),
{
    let n = settled(header, buf);
    if n != 0 {
        lemma_drain_leaves_nothing_settled(header, buf.skip(n));
    }
}

/// Encoding is undone by decoding: a frame with a legal length, followed by anything, decodes
/// to itself.
pub proof fn lemma_decode_undoes_encode(header: [u8; 2], frame: FrameView, tail: Seq<u8>)
    requires
        fits(frame),
    ensures
        decode_result(header, frame_bytes(header, frame) + tail) == Ok::<FrameView, DecodeError>(
            frame,
        ),
        settled(header, frame_bytes(header, frame) + tail) == frame_bytes(header, frame).len(),
        frame_bytes(header, frame).len() == FRAME_OVERHEAD + frame.data.len() + 2,
{
    let bytes = frame_bytes(header, frame) + tail;
    let n = frame.data.len() as int;
    assert(length_field(bytes) == n + 2);
    assert(bytes.subrange(5, n + 5) =~= frame.data);
    assert(bytes[n + 5] == checksum_of(frame.cmd, frame.data));
}

/// Decoding is undone by encoding: bytes that decode to a frame begin with exactly the bytes
/// that encoding this frame gives.
pub proof fn lemma_encode_undoes_decode(header: [u8; 2], bytes: Seq<u8>)
    requires
        decode_result(header, bytes) is Ok,
    ensures
        ({
            let frame = decode_result(header, bytes)->Ok_0;
            &&& fits(frame)
            &&& bytes.take(FRAME_OVERHEAD + frame.data.len() + 2) == frame_bytes(header, frame)
        }),
{
    let frame = decode_result(header, bytes)->Ok_0;
    let n = frame.data.len() as int;
    assert(n == length_field(bytes) - 2);
    assert(bytes.take(n + 6) =~= frame_bytes(header, frame));
}

/// The two directions never accept each other's frames.
pub proof fn lemma_directions_are_disjoint(bytes: Seq<u8>)
    ensures
        decode_result(APP_HEADER, bytes) is Err || decode_result(DEVICE_HEADER, bytes) is Err,
{
}

/// Draining two pieces one after the other, carrying over what the first one leaves, gives the
/// same frames and the same remainder as draining them joined.
pub proof fn lemma_drain_split(header: [u8; 2], a: Seq<u8>, b: Seq<u8>)
    ensures
        drained(header, a + b).0 == drained(header, a).0 + drained(
            header,
            drained(header, a).1 + b,
        ).0,
        drained(header, a + b).1 == drained(header, drained(header, a).1 + b).1,
    decreases a.len(),
{
    let n = settled(header, a);
    if n == 0 {
        assert(drained(header, a).0 + drained(header, a + b).0 =~= drained(header, a + b).0);
    } else {
        lemma_drain_split(header, a.skip(n), b);
        assert((a + b).skip(n) =~= a.skip(n) + b);
        assert((a + b).take(n) =~= a.take(n));
        assert(settled(header, a + b) == n);
        let (frames, rest) = drained(header, a.skip(n));
        let after = drained(header, rest + b).0;
        match decode_result(header, a.take(n)) {
            Ok(frame) => {
                assert(seq![frame] + (frames + after) =~= (seq![frame] + frames) + after);
            },
            Err(_) => {},
        }
    }
}

/// A frame with a legal length whose checksum is wrong costs exactly itself: what follows it
/// is drained as if it had never been there.
pub proof fn lemma_bad_checksum_costs_one_frame(header: [u8; 2], bad: Seq<u8>, after: Seq<u8>)
    requires
        decode_result(header, bad) == Err::<FrameView, DecodeError>(DecodeError::ChecksumMismatch),
        bad.len() == FRAME_OVERHEAD + length_field(bad),
    ensures
        drained(header, bad + after) == drained(header, after),
{
    assert((bad + after).take(bad.len() as int) =~= bad);
    assert((bad + after).skip(bad.len() as int) =~= after);
    assert(length_field(bad + after) == length_field(bad));
}

/// The bytes of a sequence of frames, back to back.
pub open spec fn stream_bytes(header: [u8; 2], frames: Seq<FrameView>) -> Seq<u8>
    decreases frames.len(),
{
    if frames.len() == 0 {
        Seq::empty()
    } else {
        frame_bytes(header, frames.first()) + stream_bytes(header, frames.drop_first())
    }
}

/// All frames fit the length field that the deframer accepts.
pub open spec fn all_fit(frames: Seq<FrameView>) -> bool {
    forall|i: int| 0 <= i < frames.len() ==> fits(#[trigger] frames[i])
}

/// The frames that pushing `chunks` one by one gives to a deframer that holds `buffer`, and
/// what it holds afterwards.
pub open spec fn pushed(header: [u8; 2], buffer: Seq<u8>, chunks: Seq<Seq<u8>>) -> (
    Seq<FrameView>,
    Seq<u8>,
)
    decreases chunks.len(),
{
    if chunks.len() == 0 {
        (Seq::empty(), buffer)
    } else {
        let (out, rest) = drained(header, buffer + chunks.first());
        let (more, held) = pushed(header, kept(header, rest), chunks.drop_first());
        (out + more, held)
    }
}

/// A prefix of a stream of frames drains to some of its first frames, and leaves a prefix of
/// the rest of the stream that stays buffered.
proof fn lemma_drain_of_prefix(
    header: [u8; 2],
    frames: Seq<FrameView>,
    prefix: Seq<u8>,
    tail: Seq<u8>,
) -> (k: int)
    requires
        all_fit(frames),
        prefix + tail == stream_bytes(header, frames),
    ensures
        0 <= k <= frames.len(),
        drained(header, prefix).0 == frames.take(k),
        drained(header, prefix).1 + tail == stream_bytes(header, frames.skip(k)),
        kept(header, drained(header, prefix).1) == drained(header, prefix).1,
    decreases frames.len(),
{
    if frames.len() == 0 {
        assert((prefix + tail).len() == 0);
        assert(prefix =~= Seq::empty());
        assert(frames.take(0) =~= Seq::empty());
        assert(frames.skip(0) =~= frames);
        0
    } else {
        let first = frame_bytes(header, frames.first());
        let later = stream_bytes(header, frames.drop_first());
        lemma_decode_undoes_encode(header, frames.first(), later);
        lemma_decode_undoes_encode(header, frames.first(), Seq::empty());
        assert(first + Seq::empty() =~= first);
        let n = first.len() as int;
        let whole = prefix + tail;
        assert(prefix =~= whole.take(prefix.len() as int));
        if prefix.len() >= n {
            let rest = prefix.skip(n);
            assert(whole.skip(n) =~= rest + tail);
            assert(whole.skip(n) =~= later);
            assert(prefix.take(n) =~= whole.take(n));
            assert(whole.take(n) =~= first);
            assert(settled(header, prefix) == n);
            let k = lemma_drain_of_prefix(header, frames.drop_first(), rest, tail);
            assert(frames.take(k + 1) =~= seq![frames.first()] + frames.drop_first().take(k));
            assert(frames.skip(k + 1) =~= frames.drop_first().skip(k));
            k + 1
        } else {
            assert(prefix =~= first.take(prefix.len() as int));
            if prefix.len() >= FRAME_OVERHEAD {
                assert(length_field(prefix) == length_field(whole));
            }
            assert(settled(header, prefix) == 0);
            if prefix.len() > 0 {
                assert(partial_prefix(header, prefix));
            } else {
                assert(prefix =~= Seq::empty());
            }
            assert(frames.take(0) =~= Seq::empty());
            assert(frames.skip(0) =~= frames);
            0
        }
    }
}

/// Frames survive being coalesced and split arbitrarily: however the bytes of a stream of
/// frames are cut into chunks, pushing the chunks into an empty deframer gives exactly these
/// frames, in order, and leaves nothing buffered.
pub proof fn lemma_frames_survive_any_chunking(
    header: [u8; 2],
    frames: Seq<FrameView>,
    chunks: Seq<Seq<u8>>,
)
    requires
        all_fit(frames),
        chunks.flatten() == stream_bytes(header, frames),
    ensures
        pushed(header, Seq::empty(), chunks) == (frames, Seq::<u8>::empty()),
{
    assert(Seq::empty() + chunks.flatten() =~= chunks.flatten());
    lemma_frames_survive_from(header, frames, Seq::empty(), chunks);
}

proof fn lemma_frames_survive_from(
    header: [u8; 2],
    frames: Seq<FrameView>,
    buffer: Seq<u8>,
    chunks: Seq<Seq<u8>>,
)
    requires
        all_fit(frames),
        buffer + chunks.flatten() == stream_bytes(header, frames),
        settled(header, buffer) == 0,
    ensures
        pushed(header, buffer, chunks) == (frames, Seq::<u8>::empty()),
    decreases chunks.len(),
{
    if chunks.len() == 0 {
        assert(buffer + chunks.flatten() =~= buffer);
        if frames.len() > 0 {
            lemma_decode_undoes_encode(
                header,
                frames.first(),
                stream_bytes(header, frames.drop_first()),
            );
        }
        assert(frames =~= Seq::empty());
    } else {
        let prefix = buffer + chunks.first();
        let tail = chunks.drop_first().flatten();
        assert(prefix + tail =~= buffer + chunks.flatten());
        let k = lemma_drain_of_prefix(header, frames, prefix, tail);
        lemma_drain_leaves_nothing_settled(header, prefix);
        let rest = drained(header, prefix).1;
        lemma_frames_survive_from(header, frames.skip(k), rest, chunks.drop_first());
        assert(frames.take(k) + frames.skip(k) =~= frames);
    }
}

/// The checksum of nothing is the opcode, and each byte adds itself, modulo 256.
pub proof fn lemma_the_checksum_is_a_sum(cmd: u8, data: Seq<u8>, byte: u8)
    ensures
        checksum_of(cmd, Seq::empty()) == cmd,
        checksum_of(cmd, data.push(byte)) == (checksum_of(cmd, data) + byte) % 256,
{
    assert(data.push(byte).drop_last() =~= data);
}

/// What stands where in a frame: the magic, how many bytes follow the four first ones, most
/// significant byte first, the opcode, the data and the checksum.
pub proof fn lemma_what_stands_where_in_a_frame(header: [u8; 2], cmd: u8, data: Seq<u8>)
    requires
        data.len() < 0xFFFE,
    ensures
        ({
            let bytes = frame_bytes(header, FrameView { cmd, data });
            &&& bytes.len() == data.len() + 6
            &&& bytes[0] == header@[0]
            &&& bytes[1] == header@[1]
            &&& bytes[2] * 256 + bytes[3] == bytes.len() - 4
            &&& bytes[4] == cmd
            &&& forall|i: int| 0 <= i < data.len() ==> #[trigger] bytes[5 + i] == data[i]
            &&& bytes.last() == checksum_of(cmd, data)
        }),
{
}

/// Data stands for itself; no data is sent as a single zero byte.
pub proof fn lemma_only_no_data_is_filled(data: Seq<u8>)
    ensures
        data.len() > 0 ==> or_filler(data) == data,
        data.len() == 0 ==> or_filler(data) == seq![0u8],
{
}

/// What decodes and what does not: six bytes, the magic, a length from 2 to 4096, as many bytes as
/// it says and the right checksum are looked for in this order, and the first that is missing is
/// named. The frame is the opcode and the bytes between it and the checksum.
pub proof fn lemma_what_decodes(header: [u8; 2], bytes: Seq<u8>)
    ensures
        ({
            let len = bytes[2] * 256 + bytes[3];
            let r = decode_result(header, bytes);
            let magic = bytes[0] == header@[0] && bytes[1] == header@[1];
            &&& bytes.len() < 6 <==> r == Err::<FrameView, _>(DecodeError::TooShort)
            &&& bytes.len() >= 6 && !magic <==> r == Err::<FrameView, _>(DecodeError::BadHeader)
            &&& bytes.len() >= 6 && magic && !(2 <= len <= 4096) <==> r == Err::<FrameView, _>(
                DecodeError::BadLength,
            )
            &&& bytes.len() >= 6 && magic && 2 <= len <= 4096 && bytes.len() < 4 + len <==> r
                == Err::<FrameView, _>(DecodeError::Truncated)
            &&& r matches Ok(f) ==> {
                &&& f.cmd == bytes[4]
                &&& f.data.len() == len - 2
                &&& forall|i: int| 0 <= i < f.data.len() ==> #[trigger] f.data[i] == bytes[5 + i]
                &&& bytes[len + 3] == checksum_of(f.cmd, f.data)
            }
            &&& r == Err::<FrameView, _>(DecodeError::ChecksumMismatch) ==> bytes[len + 3]
                != checksum_of(bytes[4], bytes.subrange(5, len + 3))
        }),
{
}

/// A frame of up to 4094 data bytes, followed by anything, decodes to itself.
pub proof fn lemma_every_frame_that_fits_decodes(
    header: [u8; 2],
    cmd: u8,
    data: Seq<u8>,
    tail: Seq<u8>,
)
    requires
        data.len() <= 4094,
    ensures
        decode_result(header, frame_bytes(header, FrameView { cmd, data }) + tail) == Ok::<
            FrameView,
            DecodeError,
        >(FrameView { cmd, data }),
        drained(header, frame_bytes(header, FrameView { cmd, data }) + tail) == (
            seq![FrameView { cmd, data }] + drained(header, tail).0,
            drained(header, tail).1,
        ),
{
    let f = FrameView { cmd, data };
    let first = frame_bytes(header, f);
    lemma_decode_undoes_encode(header, f, tail);
    lemma_decode_undoes_encode(header, f, Seq::empty());
    assert(first + Seq::empty() =~= first);
    assert((first + tail).take(first.len() as int) =~= first);
    assert((first + tail).skip(first.len() as int) =~= tail);
}

/// What draining does with bytes that begin no whole frame: it waits for more of a frame, leaves
/// foreign bytes alone, and takes only the magic off a length that no frame can have.
pub proof fn lemma_what_draining_waits_for(header: [u8; 2], buf: Seq<u8>)
    ensures
        ({
            let len = buf[2] * 256 + buf[3];
            let magic = buf[0] == header@[0] && buf[1] == header@[1];
            &&& buf.len() < 4 || !magic || (2 <= len <= 4096 && buf.len() < 4 + len) ==> drained(
                header,
                buf,
            ) == (Seq::<FrameView>::empty(), buf)
            &&& buf.len() >= 4 && magic && !(2 <= len <= 4096) ==> drained(header, buf) == drained(
                header,
                buf.skip(2),
            )
            &&& buf.len() >= 4 && magic && 2 <= len <= 4096 && buf.len() >= 4 + len
                && decode_result(header, buf) is Err ==> drained(header, buf) == drained(
                header,
                buf.skip(4 + len),
            )
        }),
{
    let len = length_field(buf);
    if buf.len() >= 4 && begins_with(header, buf) {
        if !legal_length(len) {
            assert(decode_result(header, buf.take(2)) is Err);
        } else if buf.len() >= 4 + len {
            let unit = buf.take(4 + len);
            assert(unit.subrange(5, len + 3) =~= buf.subrange(5, len + 3));
            assert(length_field(unit) == len);
        }
    }
}

/// Of the bytes that draining leaves, those that may still begin a frame stay buffered, and those
/// that cannot are handed back as they are.
pub proof fn lemma_what_stays_buffered(header: [u8; 2], rest: Seq<u8>, residual: Residual)
    ensures
        ({
            let ours = rest.len() > 0 && rest[0] == header@[0] && (rest.len() >= 2 ==> rest[1]
                == header@[1]);
            &&& kept(header, rest) == (if ours {
                rest
            } else {
                Seq::empty()
            })
            &&& residual_of(header, rest, residual) <==> (residual == (if rest.len() == 0 {
                Residual::Empty
            } else if ours {
                Residual::PartialFrame(rest.len() as usize)
            } else {
                residual
            }) && (rest.len() > 0 && !ours ==> residual is Foreign && residual->Foreign_0@ == rest)
                && (ours ==> rest.len() <= usize::MAX))
        }),
{
}

/// A frame shows its opcode and its data.
pub proof fn lemma_what_a_frame_shows(f: Frame)
    ensures
        f@.cmd == f.cmd,
        f@.data == f.data@,
{
}

/// What each side sends and reads: the app's frames begin with `AB 55`, the device's with
/// `AC 55`, and each side refuses the other's.
pub proof fn lemma_which_side_a_frame_is_from(
    cmd: u8,
    data: &[u8],
    bytes: Vec<u8>,
    received: &[u8],
    r: Result<Frame, DecodeError>,
)
    ensures
        call_ensures(encode, (cmd, data), bytes) ==> bytes@.len() >= 6 && bytes@[0] == 0xAB
            && bytes@[1] == 0x55 && bytes@[4] == cmd,
        call_ensures(encode_device, (cmd, data), bytes) ==> bytes@.len() >= 6 && bytes@[0] == 0xAC
            && bytes@[1] == 0x55 && bytes@[4] == cmd,
        call_ensures(decode_app, (received,), r) ==> (r matches Ok(f) ==> received@[0] == 0xAB
            && received@[1] == 0x55 && f.cmd == received@[4] && f.data@.len() + 2 == received@[2]
            * 256 + received@[3]),
        call_ensures(decode_device, (received,), r) ==> (r matches Ok(f) ==> received@[0] == 0xAC
            && received@[1] == 0x55 && f.cmd == received@[4] && f.data@.len() + 2 == received@[2]
            * 256 + received@[3]),
{
    lemma_what_decodes(APP_HEADER, received@);
    lemma_what_decodes(DEVICE_HEADER, received@);
}

/// A fresh deframer holds nothing and looks for its own side's magic.
pub proof fn lemma_what_a_fresh_deframer_is(d: Deframer)
    ensures
        call_ensures(Deframer::device, (), d) ==> d.magic()@ == seq![0xACu8, 0x55] && d@.len() == 0,
        call_ensures(Deframer::app, (), d) ==> d.magic()@ == seq![0xABu8, 0x55] && d@.len() == 0,
{
}

} // verus!

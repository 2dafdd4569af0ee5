//! The `52 58` file stream: a second envelope, and the chunked-transfer accumulator that rides
//! it.
//!
//! ```text
//!   info   52 58 | len (2, BIG-endian) | 97 | total (4 BE) type (1) | crc (1) | 58 52
//!   data   52 58 | len (2, BIG-endian) | 98 | addr  (4 BE) bytes..  | crc (1) | 58 52
//!   end    52 58 | len (2, BIG-endian) | 99 | 00                    | crc (1) | 58 52
//!
//!   len = 1 (cmd) + payload + 1 (crc)     so a whole frame is 4 + len + 2 bytes
//!   crc = (cmd + sum of payload) & 0xFF   the same additive checksum as the control envelope
//! ```
//!
//! The cmd bytes collide with the voice channel's: `0x97` and `0x99` mean *file info* and *file
//! end* here, and *voice-capture start* and *voice-capture end* inside an `AC 55` frame. The
//! envelope tells them apart; the byte does not.
//!
//! This owns bytes and nothing else. It has no clock, so "the transfer went quiet" is not a
//! question it can answer; progress is a query rather than an event.
use crate::frame;
use crate::frame::checksum;
use crate::frame::Frame;
use crate::frame::FrameView;
use crate::frame::FRAME_OVERHEAD;
use crate::frame::MAX_LENGTH_FIELD;
use crate::frame::MIN_LENGTH_FIELD;
use crate::opcodes::Evidence;
use crate::ranges;
use crate::ranges::ReceivedRanges;
use crate::ranges::MAX_RECEIVED_SPANS;
use crate::wire;
use crate::wire::be32;
use vstd::prelude::*;
use vstd::set_lib::*;
use vstd::slice::slice_subrange;
use vstd::slice::slice_to_vec;

verus! {

/// File-frame magic, device to app.
pub const FILE_HEADER: [u8; 2] = [0x52, 0x58];

/// File-frame trailer: the magic reversed.
pub const FILE_TRAILER: [u8; 2] = [0x58, 0x52];

/// magic (2) + length field (2) + trailer (2). The length field counts none of them.
pub const FILE_FRAME_OVERHEAD: usize = 6;

/// The `0x98` chunk size every captured transfer uses, up to the short final frame. Nothing
/// depends on it: `addr` says where every byte goes.
pub const CAPTURED_CHUNK_BYTES: usize = 496;

/// Hard ceiling on a declared file size, enforced once, at the `0x97` header: a transfer
/// declaring more than this never opens, so no later allocation can be driven past it.
pub const MAX_FILE_BYTES: usize = 16 * 1024 * 1024;

/// The three cmd bytes that appear inside a `52 58` frame.
#[derive(Debug, Clone, Copy, PartialEq, Eq, PartialOrd, Ord, Hash, Structural)]
pub enum FileOpcode {
    /// `0x97`: `total (4 BE) type (1)`.
    Info,
    /// `0x98`: `addr (4 BE) bytes..`.
    Data,
    /// `0x99`: one zero byte.
    End,
}

impl FileOpcode {
    /// Every file-stream cmd byte, ascending.
    pub const ALL: [FileOpcode; 3] = [FileOpcode::Info, FileOpcode::Data, FileOpcode::End];

    /// The wire byte.
    pub open spec fn spec_code(self) -> u8 {
        match self {
            FileOpcode::Info => 0x97,
            FileOpcode::Data => 0x98,
            FileOpcode::End => 0x99,
        }
    }

    /// The wire byte.
    #[verifier::when_used_as_spec(spec_code)]
    pub fn code(self) -> (code: u8)
        ensures
            code == self.code(),
    {
        match self {
            FileOpcode::Info => 0x97,
            FileOpcode::Data => 0x98,
            FileOpcode::End => 0x99,
        }
    }

    /// Classify a cmd byte that arrived inside a `52 58` frame.
    pub fn from_code(code: u8) -> (r: Option<FileOpcode>)
        ensures
            match r {
                Some(c) => c.code() == code,
                None => forall|c: FileOpcode| c.code() != code,
            },
    {
        match code {
            0x97 => Some(FileOpcode::Info),
            0x98 => Some(FileOpcode::Data),
            0x99 => Some(FileOpcode::End),
            _ => None,
        }
    }
}

/// The `0x97` header's type byte. Only [`FileKind::HdImage`] has ever been seen.
#[derive(Debug, Clone, Copy, PartialEq, Eq, PartialOrd, Ord, Hash, Structural)]
pub enum FileKind {
    /// `0x01`: image thumbnail.
    ImageThumb,
    /// `0x02`: full-resolution still.
    HdImage,
    /// `0x03`: video thumbnail.
    VideoThumb,
}

impl FileKind {
    /// Every declared type byte, ascending.
    pub const ALL: [FileKind; 3] = [FileKind::ImageThumb, FileKind::HdImage, FileKind::VideoThumb];

    /// The wire byte.
    pub open spec fn spec_code(self) -> u8 {
        match self {
            FileKind::ImageThumb => 0x01,
            FileKind::HdImage => 0x02,
            FileKind::VideoThumb => 0x03,
        }
    }

    /// The wire byte.
    #[verifier::when_used_as_spec(spec_code)]
    pub fn code(self) -> (code: u8)
        ensures
            code == self.code(),
    {
        match self {
            FileKind::ImageThumb => 0x01,
            FileKind::HdImage => 0x02,
            FileKind::VideoThumb => 0x03,
        }
    }

    /// The type with this wire byte, if one is declared.
    pub open spec fn of_code(code: u8) -> Option<FileKind> {
        if code == 0x01 {
            Some(FileKind::ImageThumb)
        } else if code == 0x02 {
            Some(FileKind::HdImage)
        } else if code == 0x03 {
            Some(FileKind::VideoThumb)
        } else {
            None
        }
    }

    /// Classify the `0x97` type byte, or `None` for an undeclared value.
    pub fn from_code(code: u8) -> (r: Option<FileKind>)
        ensures
            r == Self::of_code(code),
            match r {
                Some(c) => c.code() == code,
                None => forall|c: FileKind| c.code() != code,
            },
    {
        match code {
            0x01 => Some(FileKind::ImageThumb),
            0x02 => Some(FileKind::HdImage),
            0x03 => Some(FileKind::VideoThumb),
            _ => None,
        }
    }

    /// What backs this value.
    pub fn evidence(self) -> (level: Evidence)
        ensures
            level == (if self == FileKind::HdImage {
                Evidence::Capture
            } else {
                Evidence::ClientOnly
            }),
    {
        match self {
            FileKind::HdImage => Evidence::Capture,
            FileKind::ImageThumb | FileKind::VideoThumb => Evidence::ClientOnly,
        }
    }
}

/// Why a byte sequence is not a file frame.
#[derive(Debug, Clone, Copy, PartialEq, Eq, Structural)]
pub enum FileFrameError {
    /// Shorter than the smallest legal frame: magic, length, cmd, crc, trailer.
    TooShort,
    /// The first two bytes are not [`FILE_HEADER`].
    BadHeader,
    /// The length field is out of range; never satisfiable by waiting.
    BadLength,
    /// The length is plausible but the buffer is shorter than the frame it describes.
    Truncated,
    /// The last two bytes are not [`FILE_TRAILER`].
    BadTrailer,
    /// The checksum does not match the byte before the trailer.
    ChecksumMismatch,
}

/// The bytes a file frame occupies on the wire.
pub open spec fn file_frame_bytes(frame: FrameView) -> Seq<u8> {
    let len = frame.data.len() + 2;
    FILE_HEADER@ + seq![(len / 256 % 256) as u8, (len % 256) as u8, frame.cmd] + frame.data + seq![
        frame::checksum_of(frame.cmd, frame.data),
    ] + FILE_TRAILER@
}

/// What decoding one file frame from the front of `bytes` gives.
pub open spec fn file_decode_result(bytes: Seq<u8>) -> Result<FrameView, FileFrameError> {
    let len = frame::length_field(bytes);
    if bytes.len() < FILE_FRAME_OVERHEAD + MIN_LENGTH_FIELD {
        Err(FileFrameError::TooShort)
    } else if !frame::begins_with(FILE_HEADER, bytes) {
        Err(FileFrameError::BadHeader)
    } else if !frame::legal_length(len) {
        Err(FileFrameError::BadLength)
    } else if bytes.len() < FILE_FRAME_OVERHEAD + len {
        Err(FileFrameError::Truncated)
    } else if bytes[len + 4] != FILE_TRAILER@[0] || bytes[len + 5] != FILE_TRAILER@[1] {
        Err(FileFrameError::BadTrailer)
    } else {
        let frame = FrameView { cmd: bytes[4], data: bytes.subrange(5, len + 3) };
        if bytes[len + 3] != frame::checksum_of(frame.cmd, frame.data) {
            Err(FileFrameError::ChecksumMismatch)
        } else {
            Ok(frame)
        }
    }
}

/// Build one `52 58` frame, for fixtures and for checking a capture by re-encoding it. Unlike a
/// command, an empty payload gets no filler.
pub fn encode_file_frame(cmd: u8, payload: &[u8]) -> (bytes: Vec<u8>)
    ensures
        bytes@ == file_frame_bytes(FrameView { cmd, data: payload@ }),
{
    // Only the low sixteen bits of the length reach the wire.
    let len: usize = payload.len() % 0x1_0000 + 2;
    let high: u8 = (len / 256 % 256) as u8;
    let low: u8 = (len % 256) as u8;
    proof {
        lemma_low_sixteen_bits(payload@.len() as int);
    }
    let mut out: Vec<u8> = Vec::new();
    out.push(FILE_HEADER[0]);
    out.push(FILE_HEADER[1]);
    out.push(high);
    out.push(low);
    out.push(cmd);
    let ghost head = out@;
    assert(head =~= FILE_HEADER@ + seq![high, low, cmd]);
    out.extend_from_slice(payload);
    assert(out@ =~= head + payload@);
    out.push(checksum(cmd, payload));
    let ghost body = out@;
    assert(body =~= head + payload@ + seq![frame::checksum_of(cmd, payload@)]);
    out.push(FILE_TRAILER[0]);
    out.push(FILE_TRAILER[1]);
    assert(out@ =~= body + FILE_TRAILER@);
    out
}

/// The length bytes depend on the low sixteen bits alone.
proof fn lemma_low_sixteen_bits(n: int)
    requires
        0 <= n,
    ensures
        (n % 0x1_0000 + 2) / 256 % 256 == (n + 2) / 256 % 256,
        (n % 0x1_0000 + 2) % 256 == (n + 2) % 256,
{
}

/// Decode exactly one `52 58` frame from the front of `bytes`. Trailing bytes are ignored.
///
/// The trailer is checked before the checksum: a wrong trailer means the length field pointed at
/// the wrong place, while a wrong checksum means the length was right and the contents were not.
pub fn decode_file_frame(bytes: &[u8]) -> (r: Result<Frame, FileFrameError>)
    ensures
        match r {
            Ok(f) => file_decode_result(bytes@) == Ok::<FrameView, FileFrameError>(f@),
            Err(e) => file_decode_result(bytes@) == Err::<FrameView, FileFrameError>(e),
        },
{
    if bytes.len() < FILE_FRAME_OVERHEAD + MIN_LENGTH_FIELD {
        return Err(FileFrameError::TooShort);
    }
    if bytes[0] != FILE_HEADER[0] || bytes[1] != FILE_HEADER[1] {
        return Err(FileFrameError::BadHeader);
    }
    let len: usize = bytes[2] as usize * 256 + bytes[3] as usize;
    if len < MIN_LENGTH_FIELD || len > MAX_LENGTH_FIELD {
        return Err(FileFrameError::BadLength);
    }
    if bytes.len() < FILE_FRAME_OVERHEAD + len {
        return Err(FileFrameError::Truncated);
    }
    if bytes[len + 4] != FILE_TRAILER[0] || bytes[len + 5] != FILE_TRAILER[1] {
        return Err(FileFrameError::BadTrailer);
    }
    let cmd = bytes[4];
    let payload = slice_subrange(bytes, 5, FRAME_OVERHEAD + len - 1);
    if bytes[FRAME_OVERHEAD + len - 1] != checksum(cmd, payload) {
        return Err(FileFrameError::ChecksumMismatch);
    }
    Ok(Frame::new(cmd, slice_to_vec(payload)))
}

/// What draining a buffer of file frames gives: the frames, how many bytes were discarded to
/// regain sync, and what is left.
#[verifier::ext_equal]
pub struct FileDrain {
    pub frames: Seq<FrameView>,
    pub dropped: nat,
    pub rest: Seq<u8>,
}

/// How draining proceeds from the front of the buffer:
///
/// * a byte that cannot begin a header is dropped;
/// * the two magic bytes of a frame whose length no frame can have are dropped;
/// * a whole frame is consumed, and gives a frame if it decodes;
/// * anything else waits for more bytes.
pub open spec fn file_drained(buf: Seq<u8>) -> FileDrain
    decreases buf.len(),
{
    let len = frame::length_field(buf);
    if buf.len() == 0 {
        FileDrain { frames: Seq::empty(), dropped: 0, rest: buf }
    } else if !frame::partial_prefix(FILE_HEADER, buf) {
        let later = file_drained(buf.skip(1));
        FileDrain { dropped: later.dropped + 1, ..later }
    } else if buf.len() < FRAME_OVERHEAD {
        FileDrain { frames: Seq::empty(), dropped: 0, rest: buf }
    } else if !frame::legal_length(len) {
        let later = file_drained(buf.skip(2));
        FileDrain { dropped: later.dropped + 2, ..later }
    } else if buf.len() < FILE_FRAME_OVERHEAD + len {
        FileDrain { frames: Seq::empty(), dropped: 0, rest: buf }
    } else {
        let later = file_drained(buf.skip(FILE_FRAME_OVERHEAD + len));
        match file_decode_result(buf.take(FILE_FRAME_OVERHEAD + len)) {
            Ok(frame) => FileDrain { frames: seq![frame] + later.frames, ..later },
            Err(_) => later,
        }
    }
}

/// How many bytes after `from` cannot begin a header. A trailing lone `0x52` can: it is half a
/// header split across notifications.
fn resync_to_header(buffer: &[u8], from: usize) -> (n: usize)
    requires
        from <= buffer.len(),
    ensures
        from + n <= buffer@.len(),
        forall|j: int|
            from <= j < from + n ==> !frame::partial_prefix(FILE_HEADER, #[trigger] buffer@.skip(j)),
        from + n < buffer@.len() ==> frame::partial_prefix(FILE_HEADER, buffer@.skip(from + n)),
{
    let mut at: usize = from;
    while at < buffer.len() && !(buffer[at] == FILE_HEADER[0] && (at + 1 == buffer.len()
        || buffer[at + 1] == FILE_HEADER[1]))
        invariant
            from <= at <= buffer.len(),
            forall|j: int|
                from <= j < at ==> !frame::partial_prefix(FILE_HEADER, #[trigger] buffer@.skip(j)),
        decreases buffer.len() - at,
    {
        at = at + 1;
    }
    at - from
}

/// Bytes that cannot begin a header are dropped one by one.
proof fn lemma_drain_skips(buf: Seq<u8>, from: int, n: int)
    requires
        0 <= from,
        0 <= n,
        from + n <= buf.len(),
        forall|j: int|
            from <= j < from + n ==> !frame::partial_prefix(FILE_HEADER, #[trigger] buf.skip(j)),
    ensures
        ({
            let later = file_drained(buf.skip(from + n));
            file_drained(buf.skip(from)) == FileDrain { dropped: later.dropped + n as nat, ..later }
        }),
    decreases n,
{
    if n > 0 {
        assert(buf.skip(from).skip(1) =~= buf.skip(from + 1));
        lemma_drain_skips(buf, from + 1, n - 1);
    }
}

/// Decode as many complete file frames as `buffer` holds, consuming them in place. Returns the
/// frames and how many bytes had to be discarded to regain sync. The remainder is left alone:
/// either a trailing partial frame, or a lone `0x52` that could still become a header.
///
/// A frame whose checksum or trailer is wrong is consumed and dropped, and the loop keeps going.
/// An unsatisfiable length drops the two magic bytes and re-tests. Leading bytes that cannot
/// begin a frame are scanned past to the next `52 58`.
pub fn drain_file_frames(buffer: &mut Vec<u8>) -> (r: (Vec<Frame>, usize))
    ensures
        ({
            let d = file_drained(old(buffer)@);
            &&& frame::frame_views(r.0@) == d.frames
            &&& r.1 == d.dropped
            &&& final(buffer)@ == d.rest
        }),
        final(buffer)@.len() < FILE_FRAME_OVERHEAD + MAX_LENGTH_FIELD,
{
    let ghost whole = buffer@;
    let ghost model = file_drained(whole);
    let mut out: Vec<Frame> = Vec::new();
    let mut dropped: usize = 0;
    let mut pos: usize = 0;
    assert(whole.skip(0) =~= whole);
    assert(frame::frame_views(out@) =~= Seq::empty());
    assert(Seq::empty() + model.frames =~= model.frames);
    loop
        invariant
            pos <= buffer.len(),
            buffer@ == whole,
            dropped <= pos,
            model == file_drained(whole),
            ({
                let later = file_drained(whole.skip(pos as int));
                &&& model.frames == frame::frame_views(out@) + later.frames
                &&& model.dropped == dropped + later.dropped
                &&& model.rest == later.rest
            }),
        ensures
            pos <= buffer.len(),
            file_drained(whole.skip(pos as int)) == (FileDrain {
                frames: Seq::empty(),
                dropped: 0,
                rest: whole.skip(pos as int),
            }),
            buffer.len() - pos < FILE_FRAME_OVERHEAD + MAX_LENGTH_FIELD,
        decreases buffer.len() - pos,
    {
        let gap: usize = resync_to_header(buffer.as_slice(), pos);
        proof {
            lemma_drain_skips(whole, pos as int, gap as int);
        }
        dropped = dropped + gap;
        pos = pos + gap;
        let ghost rest = whole.skip(pos as int);
        let left: usize = buffer.len() - pos;
        if left < FRAME_OVERHEAD {
            break;
        }
        let len: usize = buffer[pos + 2] as usize * 256 + buffer[pos + 3] as usize;
        if len < MIN_LENGTH_FIELD || len > MAX_LENGTH_FIELD {
            assert(whole.skip(pos + 2) =~= rest.skip(2));
            pos = pos + 2;
            dropped = dropped + 2;
            continue;
        }
        let total: usize = FILE_FRAME_OVERHEAD + len;
        if left < total {
            break;
        }
        let unit = slice_subrange(buffer.as_slice(), pos, pos + total);
        assert(unit@ =~= rest.take(total as int));
        assert(whole.skip(pos + total) =~= rest.skip(total as int));
        let ghost before = frame::frame_views(out@);
        let ghost after = file_drained(whole.skip(pos + total)).frames;
        if let Ok(f) = decode_file_frame(unit) {
            out.push(f);
            assert(frame::frame_views(out@) =~= before.push(f@));
            assert(before.push(f@) + after =~= before + (seq![f@] + after));
        }
        pos = pos + total;
    }
    let rest = buffer.split_off(pos);
    *buffer = rest;
    assert(frame::frame_views(out@) + Seq::<FrameView>::empty() =~= frame::frame_views(out@));
    (out, dropped)
}

/// A completed file, exactly as many bytes as its `0x97` header declared.
#[derive(Debug, Clone, PartialEq, Eq)]
pub struct ReassembledFile {
    /// The raw `0x97` type byte.
    pub file_type: u8,
    /// The reassembled contents.
    pub data: Vec<u8>,
}

impl ReassembledFile {
    /// The type byte as a named value, or `None` for an undeclared one.
    pub fn kind(&self) -> (r: Option<FileKind>)
        ensures
            r == FileKind::of_code(self.file_type),
            match r {
                Some(k) => k.code() == self.file_type,
                None => forall|k: FileKind| k.code() != self.file_type,
            },
    {
        FileKind::from_code(self.file_type)
    }
}

/// Why a transfer ended without producing a file.
#[derive(Debug, Clone, Copy, PartialEq, Eq, Structural)]
pub enum FileAbort {
    /// A `0x99` arrived with no transfer open.
    NoFileInfo,
    /// A `0x97` declared a size of zero, or more than [`MAX_FILE_BYTES`]. The transfer never
    /// opened.
    ImplausibleSize { declared_total: usize },
    /// A `0x97` arrived while a transfer was still in flight, whether or not it had received bytes.
    Superseded { received: usize, declared_total: usize },
    /// A `0x98` addressed bytes outside the declared file.
    OutOfRange { addr: usize, end: usize, declared_total: usize },
    /// A `0x99` arrived with fewer bytes genuinely delivered than declared. `first_gap` is the
    /// offset of the first byte never received.
    ///
    /// Also emitted mid-transfer when the delivered bytes have fragmented into more than
    /// [`MAX_RECEIVED_SPANS`] disjoint spans.
    Incomplete { received: usize, declared_total: usize, first_gap: Option<usize> },
}

/// What a chunk of file-stream bytes did to the transfer state.
#[derive(Debug, Clone, PartialEq, Eq)]
pub enum FileEvent {
    /// A `0x97` header opened a transfer.
    Started { declared_total: usize, file_type: u8 },
    /// A `0x99` closed one, and every declared byte was genuinely delivered.
    Completed(ReassembledFile),
    /// The transfer ended with nothing to hand over.
    Aborted(FileAbort),
    /// Bytes that could not begin a frame were discarded to regain sync.
    Desynced { dropped: usize },
}

/// The mathematical content of a [`FileEvent`].
#[verifier::ext_equal]
pub enum FileEventView {
    Started { declared_total: usize, file_type: u8 },
    Completed { file_type: u8, data: Seq<u8> },
    Aborted(FileAbort),
    Desynced { dropped: usize },
}

impl View for FileEvent {
    type V = FileEventView;

    open spec fn view(&self) -> FileEventView {
        match *self {
            FileEvent::Started { declared_total, file_type } => FileEventView::Started {
                declared_total,
                file_type,
            },
            FileEvent::Completed(file) => FileEventView::Completed {
                file_type: file.file_type,
                data: file.data@,
            },
            FileEvent::Aborted(abort) => FileEventView::Aborted(abort),
            FileEvent::Desynced { dropped } => FileEventView::Desynced { dropped },
        }
    }
}

/// The contents of a list of events, in order.
pub open spec fn file_event_views(events: Seq<FileEvent>) -> Seq<FileEventView> {
    events.map_values(|e: FileEvent| e@)
}

/// How far along the in-flight transfer is. `received` counts bytes a `0x98` genuinely delivered
/// and never padding.
#[derive(Debug, Clone, Copy, PartialEq, Eq)]
pub struct TransferProgress {
    pub received: usize,
    pub declared_total: usize,
    pub file_type: u8,
    /// Offset of the first byte not yet delivered, or `None` when the file is complete.
    pub first_gap: Option<usize>,
}

impl Default for TransferProgress {
    /// No transfer.
    fn default() -> (p: Self)
        ensures
            p == (TransferProgress {
                received: 0,
                declared_total: 0,
                file_type: 0,
                first_gap: None,
            }),
    {
        TransferProgress { received: 0, declared_total: 0, file_type: 0, first_gap: None }
    }
}

impl TransferProgress {
    /// Whether a `0x97` has opened a transfer that has not yet closed.
    pub fn is_active(&self) -> (b: bool)
        ensures
            b == (self.declared_total > 0),
    {
        self.declared_total > 0
    }
}

/// A transfer in flight: what its header declared, and the bytes delivered so far, by offset.
#[verifier::ext_equal]
pub struct TransferView {
    pub declared_total: nat,
    pub file_type: u8,
    pub delivered: Map<int, u8>,
}

impl TransferView {
    /// Every declared byte was delivered.
    pub open spec fn complete(self) -> bool {
        forall|x: int| 0 <= x < self.declared_total ==> self.delivered.dom().contains(x)
    }

    pub open spec fn wf(self) -> bool {
        &&& 0 < self.declared_total <= MAX_FILE_BYTES
        &&& self.delivered.dom().finite()
        &&& ranges::run_count(self.delivered.dom()) <= MAX_RECEIVED_SPANS
        &&& forall|x: int| self.delivered.dom().contains(x) ==> 0 <= x < self.declared_total
    }
}

/// The first offset from `at` up to `total` that is not in the set.
pub open spec fn first_missing(delivered: Set<int>, at: int, total: int) -> Option<usize>
    decreases total - at,
{
    if at >= total {
        None
    } else if !delivered.contains(at) {
        Some(at as usize)
    } else {
        first_missing(delivered, at + 1, total)
    }
}

/// The bytes of a chunk, by offset.
pub open spec fn chunk_at(addr: int, bytes: Seq<u8>) -> Map<int, u8> {
    Map::new(|x: int| addr <= x < addr + bytes.len(), |x: int| bytes[x - addr])
}

/// The report on a transfer that cannot complete.
pub open spec fn incomplete(t: TransferView) -> FileEventView {
    FileEventView::Aborted(
        FileAbort::Incomplete {
            received: t.delivered.dom().len() as usize,
            declared_total: t.declared_total as usize,
            first_gap: first_missing(t.delivered.dom(), 0, t.declared_total as int),
        },
    )
}

/// What a `0x97` header does: it opens a transfer if the size it declares is plausible. A
/// transfer that was in flight is gone either way, which is reported: a caller waiting on it has to
/// know.
pub open spec fn after_info(t: Option<TransferView>, payload: Seq<u8>) -> (
    Option<TransferView>,
    Seq<FileEventView>,
) {
    let total = wire::be32_at(payload, 0);
    if payload.len() < 5 {
        (t, Seq::empty())
    } else {
        let superseded = match t {
            Some(t) => seq![
                FileEventView::Aborted(
                    FileAbort::Superseded {
                        received: t.delivered.dom().len() as usize,
                        declared_total: t.declared_total as usize,
                    },
                ),
            ],
            None => Seq::empty(),
        };
        if 0 < total <= MAX_FILE_BYTES {
            (
                Some(
                    TransferView {
                        declared_total: total as nat,
                        file_type: payload[4],
                        delivered: Map::empty(),
                    },
                ),
                superseded.push(
                    FileEventView::Started {
                        declared_total: total as usize,
                        file_type: payload[4],
                    },
                ),
            )
        } else {
            (
                None,
                superseded.push(
                    FileEventView::Aborted(
                        FileAbort::ImplausibleSize { declared_total: total as usize },
                    ),
                ),
            )
        }
    }
}

/// What a `0x98` does: its bytes are delivered to their offsets. A chunk that leaves the declared
/// file, or that fragments the file too much, ends the transfer. Without a transfer nothing
/// happens.
pub open spec fn after_data(t: Option<TransferView>, payload: Seq<u8>) -> (
    Option<TransferView>,
    Seq<FileEventView>,
) {
    let addr = wire::be32_at(payload, 0);
    let bytes = payload.skip(4);
    let end = addr + bytes.len();
    if payload.len() < 4 || t is None {
        (t, Seq::empty())
    } else {
        let t = t->Some_0;
        let more = t.delivered.union_prefer_right(chunk_at(addr, bytes));
        if end > t.declared_total {
            (
                None,
                seq![
                    FileEventView::Aborted(
                        FileAbort::OutOfRange {
                            addr: addr as usize,
                            end: if end <= usize::MAX {
                                end as usize
                            } else {
                                usize::MAX
                            },
                            declared_total: t.declared_total as usize,
                        },
                    ),
                ],
            )
        } else if ranges::run_count(more.dom()) > MAX_RECEIVED_SPANS {
            (None, seq![incomplete(t)])
        } else {
            (Some(TransferView { delivered: more, ..t }), Seq::empty())
        }
    }
}

/// What a `0x99` does: it closes the transfer, with the file if every byte was delivered.
pub open spec fn after_end(t: Option<TransferView>) -> (
    Option<TransferView>,
    Seq<FileEventView>,
) {
    match t {
        None => (None, seq![FileEventView::Aborted(FileAbort::NoFileInfo)]),
        Some(t) => (
            None,
            seq![
                if t.complete() {
                    FileEventView::Completed {
                        file_type: t.file_type,
                        data: Seq::new(t.declared_total, |x: int| t.delivered[x]),
                    }
                } else {
                    incomplete(t)
                },
            ],
        ),
    }
}

/// What one file frame does to the transfer, and the events it gives.
pub open spec fn after_frame(t: Option<TransferView>, frame: FrameView) -> (
    Option<TransferView>,
    Seq<FileEventView>,
) {
    if frame.cmd == FileOpcode::Info.code() {
        after_info(t, frame.data)
    } else if frame.cmd == FileOpcode::Data.code() {
        after_data(t, frame.data)
    } else if frame.cmd == FileOpcode::End.code() {
        after_end(t)
    } else {
        (t, Seq::empty())
    }
}

/// What a sequence of file frames does to the transfer, and the events it gives.
pub open spec fn after_frames(t: Option<TransferView>, frames: Seq<FrameView>) -> (
    Option<TransferView>,
    Seq<FileEventView>,
)
    decreases frames.len(),
{
    if frames.len() == 0 {
        (t, Seq::empty())
    } else {
        let (before, events) = after_frames(t, frames.drop_last());
        let (after, more) = after_frame(before, frames.last());
        (after, events + more)
    }
}

/// The state of a [`FileReassembler`]: bytes that have not yet formed a frame, and the transfer.
#[verifier::ext_equal]
pub struct ReassemblerView {
    pub buffer: Seq<u8>,
    pub transfer: Option<TransferView>,
}

/// What pushing a chunk does: the whole frames it completes are handled in order, after a report
/// on the bytes discarded to regain sync, if there were any.
pub open spec fn after_push(r: ReassemblerView, chunk: Seq<u8>) -> (
    ReassemblerView,
    Seq<FileEventView>,
) {
    let d = file_drained(r.buffer + chunk);
    let (transfer, events) = after_frames(r.transfer, d.frames);
    let desynced = if d.dropped > 0 {
        seq![FileEventView::Desynced { dropped: d.dropped as usize }]
    } else {
        Seq::empty()
    };
    (ReassemblerView { buffer: d.rest, transfer }, desynced + events)
}

/// Streaming accumulator for the `52 58` file channel.
///
/// Feed it whatever a notification delivered; take completed files (and failures) out. A transfer
/// can be abandoned without discarding correctly framed bytes that have already arrived.
#[derive(Debug, Clone)]
pub struct FileReassembler {
    buffer: Vec<u8>,
    transfer: Option<Transfer>,
}

#[derive(Debug, Clone)]
struct Transfer {
    declared_total: usize,
    file_type: u8,
    /// Sized only by bytes that actually arrived.
    data: Vec<u8>,
    received: ReceivedRanges,
}

impl Transfer {
    spec fn model(self) -> TransferView {
        TransferView {
            declared_total: self.declared_total as nat,
            file_type: self.file_type,
            delivered: Map::new(|x: int| self.received@.contains(x), |x: int| self.data@[x]),
        }
    }

    spec fn wf(self) -> bool {
        &&& self.received.wf()
        &&& self.model().wf()
        &&& self.data@.len() <= self.declared_total
        &&& forall|x: int| self.received@.contains(x) ==> 0 <= x < self.data@.len()
    }
}

impl View for FileReassembler {
    type V = ReassemblerView;

    closed spec fn view(&self) -> ReassemblerView {
        ReassemblerView {
            buffer: self.buffer@,
            transfer: match self.transfer {
                Some(t) => Some(t.model()),
                None => None,
            },
        }
    }
}

impl Default for FileReassembler {
    fn default() -> (r: Self)
        ensures
            r.wf(),
            r@ == (ReassemblerView { buffer: Seq::empty(), transfer: None }),
    {
        FileReassembler { buffer: Vec::new(), transfer: None }
    }
}

/// How far along a transfer is; all zeroes when there is none.
pub open spec fn progress_of(transfer: Option<TransferView>) -> TransferProgress {
    match transfer {
        None => TransferProgress {
            received: 0,
            declared_total: 0,
            file_type: 0,
            first_gap: None,
        },
        Some(t) => TransferProgress {
            received: t.delivered.dom().len() as usize,
            declared_total: t.declared_total as usize,
            file_type: t.file_type,
            first_gap: first_missing(t.delivered.dom(), 0, t.declared_total as int),
        },
    }
}

impl FileReassembler {
    pub closed spec fn wf(&self) -> bool {
        match self.transfer {
            Some(t) => t.wf(),
            None => true,
        }
    }

    /// The transfer in flight declares a plausible size, and never more bytes are delivered than
    /// it declares.
    pub proof fn lemma_received_is_at_most_declared(&self)
        requires
            self.wf(),
        ensures
            self@.transfer matches Some(t) ==> t.wf() && t.delivered.dom().len()
                <= t.declared_total,
            progress_of(self@.transfer).received <= progress_of(self@.transfer).declared_total,
    {
        if let Some(t) = self@.transfer {
            lemma_complete_by_count(t);
        }
    }

    pub fn new() -> (r: Self)
        ensures
            r.wf(),
            r@ == (ReassemblerView { buffer: Seq::empty(), transfer: None }),
    {
        Self::default()
    }

    /// Bytes held that have not yet formed a frame.
    pub fn buffered(&self) -> (bytes: &[u8])
        ensures
            bytes@ == self@.buffer,
    {
        self.buffer.as_slice()
    }

    /// Whether a partial frame is buffered.
    pub fn has_buffered_frame_data(&self) -> (b: bool)
        ensures
            b == (self@.buffer.len() > 0),
    {
        !self.buffer.is_empty()
    }

    /// How far along the in-flight transfer is; all zeroes when none is open.
    pub fn progress(&self) -> (p: TransferProgress)
        requires
            self.wf(),
        ensures
            p == progress_of(self@.transfer),
    {
        match &self.transfer {
            None => TransferProgress::default(),
            Some(t) => {
                assert(t.model().delivered.dom() =~= t.received@);
                let first_gap = t.received.first_gap(t.declared_total);
                proof {
                    lemma_first_missing(t.received@, 0, t.declared_total as int, first_gap);
                }
                TransferProgress {
                    received: t.received.covered(),
                    declared_total: t.declared_total,
                    file_type: t.file_type,
                    first_gap,
                }
            },
        }
    }

    /// Forget everything: buffered bytes and any transfer in flight.
    pub fn reset(&mut self)
        ensures
            final(self).wf(),
            final(self)@ == (ReassemblerView { buffer: Seq::empty(), transfer: None }),
    {
        self.buffer.clear();
        self.transfer = None;
    }

    /// Feed one notification's bytes; returns what happened.
    pub fn push(&mut self, chunk: &[u8]) -> (events: Vec<FileEvent>)
        requires
            old(self).wf(),
        ensures
            final(self).wf(),
            (final(self)@, file_event_views(events@)) == after_push(old(self)@, chunk@),
            final(self)@.buffer.len() < FILE_FRAME_OVERHEAD + MAX_LENGTH_FIELD,
    {
        let ghost t0 = self@.transfer;
        self.buffer.extend_from_slice(chunk);
        assert(self.buffer@ =~= old(self)@.buffer + chunk@);
        let (frames, dropped) = drain_file_frames(&mut self.buffer);
        let ghost rest = self.buffer@;
        let mut events: Vec<FileEvent> = Vec::new();
        if dropped > 0 {
            events.push(FileEvent::Desynced { dropped });
        }
        let ghost desynced = file_event_views(events@);
        assert(desynced =~= (if dropped > 0 {
            seq![FileEventView::Desynced { dropped }]
        } else {
            Seq::empty()
        }));
        let ghost views = frame::frame_views(frames@);
        assert(desynced + Seq::<FileEventView>::empty() =~= desynced);
        for i in 0..frames.len()
            invariant
                self.wf(),
                self@.buffer == rest,
                views == frame::frame_views(frames@),
                self@.transfer == after_frames(t0, views.take(i as int)).0,
                file_event_views(events@) == desynced + after_frames(t0, views.take(i as int)).1,
        {
            let ghost done = after_frames(t0, views.take(i as int)).1;
            assert(views.take(i + 1).drop_last() =~= views.take(i as int));
            self.handle(&frames[i], &mut events);
            assert(views.take(i + 1).last() == frames@[i as int]@);
            proof {
                let more = after_frame(after_frames(t0, views.take(i as int)).0, views[i as int]).1;
                assert(desynced + done + more =~= desynced + (done + more));
            }
        }
        assert(views.take(views.len() as int) =~= views);
        events
    }

    /// Route one already-decoded file frame.
    pub fn handle_frame(&mut self, frame: &Frame) -> (events: Vec<FileEvent>)
        requires
            old(self).wf(),
        ensures
            final(self).wf(),
            final(self)@.buffer == old(self)@.buffer,
            (final(self)@.transfer, file_event_views(events@)) == after_frame(
                old(self)@.transfer,
                frame@,
            ),
    {
        let mut events: Vec<FileEvent> = Vec::new();
        self.handle(frame, &mut events);
        assert(file_event_views(events@) =~= after_frame(old(self)@.transfer, frame@).1);
        events
    }

    fn handle(&mut self, frame: &Frame, events: &mut Vec<FileEvent>)
        requires
            old(self).wf(),
        ensures
            final(self).wf(),
            final(self)@.buffer == old(self)@.buffer,
            final(self)@.transfer == after_frame(old(self)@.transfer, frame@).0,
            file_event_views(final(events)@) == file_event_views(old(events)@) + after_frame(
                old(self)@.transfer,
                frame@,
            ).1,
    {
        match FileOpcode::from_code(frame.cmd) {
            Some(FileOpcode::Info) => self.on_info(frame.data.as_slice(), events),
            Some(FileOpcode::Data) => self.on_data(frame.data.as_slice(), events),
            Some(FileOpcode::End) => self.on_end(events),
            None => {
                proof {
                    assert(FileOpcode::Info.code() != frame.cmd);
                    assert(FileOpcode::Data.code() != frame.cmd);
                    assert(FileOpcode::End.code() != frame.cmd);
                }
                assert(file_event_views(events@) + Seq::<FileEventView>::empty()
                    =~= file_event_views(events@));
            },
        }
    }

    fn on_info(&mut self, payload: &[u8], events: &mut Vec<FileEvent>)
        requires
            old(self).wf(),
        ensures
            final(self).wf(),
            final(self)@.buffer == old(self)@.buffer,
            final(self)@.transfer == after_info(old(self)@.transfer, payload@).0,
            file_event_views(final(events)@) == file_event_views(old(events)@) + after_info(
                old(self)@.transfer,
                payload@,
            ).1,
    {
        let ghost start = file_event_views(events@);
        if payload.len() < 5 {
            assert(start + Seq::<FileEventView>::empty() =~= start);
            return;
        }
        let declared_total: usize = be32(payload, 0) as usize;
        let file_type = payload[4];
        if let Some(t) = self.transfer.take() {
            assert(t.model().delivered.dom() =~= t.received@);
            let received: usize = t.received.covered();
            events.push(
                FileEvent::Aborted(
                    FileAbort::Superseded { received, declared_total: t.declared_total },
                ),
            );
        }
        if declared_total == 0 || declared_total > MAX_FILE_BYTES {
            events.push(FileEvent::Aborted(FileAbort::ImplausibleSize { declared_total }));
            assert(file_event_views(events@) =~= start + after_info(
                old(self)@.transfer,
                payload@,
            ).1);
            return;
        }
        let t = Transfer {
            declared_total,
            file_type,
            data: Vec::new(),
            received: ReceivedRanges::default(),
        };
        proof {
            assert(t.model().delivered =~= Map::empty());
            assert(ranges::run_starts(Set::empty()) =~= Set::empty());
        }
        self.transfer = Some(t);
        events.push(FileEvent::Started { declared_total, file_type });
        assert(file_event_views(events@) =~= start + after_info(old(self)@.transfer, payload@).1);
    }

    fn on_end(&mut self, events: &mut Vec<FileEvent>)
        requires
            old(self).wf(),
        ensures
            final(self).wf(),
            final(self)@.buffer == old(self)@.buffer,
            final(self)@.transfer is None,
            file_event_views(final(events)@) == file_event_views(old(events)@) + after_end(
                old(self)@.transfer,
            ).1,
    {
        let ghost start = file_event_views(events@);
        let t = match self.transfer.take() {
            None => {
                events.push(FileEvent::Aborted(FileAbort::NoFileInfo));
                assert(file_event_views(events@) =~= start + after_end(old(self)@.transfer).1);
                return;
            },
            Some(t) => t,
        };
        assert(t.model().delivered.dom() =~= t.received@);
        let received: usize = t.received.covered();
        let first_gap = t.received.first_gap(t.declared_total);
        proof {
            lemma_first_missing(t.received@, 0, t.declared_total as int, first_gap);
            lemma_complete_by_count(t.model());
        }
        if received != t.declared_total {
            events.push(
                FileEvent::Aborted(
                    FileAbort::Incomplete { received, declared_total: t.declared_total, first_gap },
                ),
            );
            assert(file_event_views(events@) =~= start + after_end(old(self)@.transfer).1);
            return;
        }
        let ghost model = t.model();
        assert(t.data@.len() == t.declared_total) by {
            assert(model.delivered.dom().contains(t.declared_total - 1));
        }
        assert(t.data@ =~= Seq::new(model.declared_total, |x: int| model.delivered[x]));
        events.push(
            FileEvent::Completed(ReassembledFile { file_type: t.file_type, data: t.data }),
        );
        assert(file_event_views(events@) =~= start + after_end(old(self)@.transfer).1);
    }

    fn on_data(&mut self, payload: &[u8], events: &mut Vec<FileEvent>)
        requires
            old(self).wf(),
        ensures
            final(self).wf(),
            final(self)@.buffer == old(self)@.buffer,
            final(self)@.transfer == after_data(old(self)@.transfer, payload@).0,
            file_event_views(final(events)@) == file_event_views(old(events)@) + after_data(
                old(self)@.transfer,
                payload@,
            ).1,
    {
        let ghost start = file_event_views(events@);
        assert(start + Seq::<FileEventView>::empty() =~= start);
        if payload.len() < 4 {
            return;
        }
        let mut t = match self.transfer.take() {
            None => {
                return;
            },
            Some(t) => t,
        };
        let ghost model = t.model();
        assert(model.delivered.dom() =~= t.received@);
        let declared_total: usize = t.declared_total;
        let addr: usize = be32(payload, 0) as usize;
        let chunk = slice_subrange(payload, 4, payload.len());
        assert(chunk@ =~= payload@.skip(4));
        let ghost more = model.delivered.union_prefer_right(chunk_at(addr as int, chunk@));
        let end: usize = match addr.checked_add(chunk.len()) {
            Some(end) => end,
            None => usize::MAX,
        };
        if end > declared_total {
            events.push(FileEvent::Aborted(FileAbort::OutOfRange { addr, end, declared_total }));
            assert(file_event_views(events@) =~= start + after_data(
                old(self)@.transfer,
                payload@,
            ).1);
            return;
        }
        if end > t.data.len() {
            t.data.resize(end, 0);
        }
        let ghost data0 = t.data@;
        for k in 0..chunk.len()
            invariant
                end == addr + chunk@.len(),
                end <= t.data@.len(),
                t.data@.len() == data0.len(),
                t.declared_total == declared_total,
                t.file_type == model.file_type,
                t.received@ == model.delivered.dom(),
                t.received.wf(),
                forall|x: int|
                    0 <= x < data0.len() ==> #[trigger] t.data@[x] == (if addr <= x < addr + k {
                        chunk@[x - addr]
                    } else {
                        data0[x]
                    }),
        {
            t.data[addr + k] = chunk[k];
        }
        assert(more.dom() =~= t.received@.union(set_int_range(addr as int, end as int)));
        if !t.received.insert(addr, end) {
            let received: usize = t.received.covered();
            let first_gap = t.received.first_gap(declared_total);
            proof {
                lemma_first_missing(t.received@, 0, t.declared_total as int, first_gap);
            }
            events.push(
                FileEvent::Aborted(FileAbort::Incomplete { received, declared_total, first_gap }),
            );
            assert(file_event_views(events@) =~= start + after_data(
                old(self)@.transfer,
                payload@,
            ).1);
            return;
        }
        proof {
            lemma_int_range(addr as int, end as int);
            assert(t.model().delivered =~= more);
            assert(t.model().delivered.dom() =~= t.received@);
        }
        self.transfer = Some(t);
    }
}

/// A gap that was searched for is the first missing offset.
proof fn lemma_first_missing(delivered: Set<int>, at: int, total: int, gap: Option<usize>)
    requires
        0 <= at,
        total <= usize::MAX,
        match gap {
            Some(g) => at <= g < total && !delivered.contains(g as int) && (forall|x: int|
                at <= x < g ==> delivered.contains(x)),
            None => forall|x: int| at <= x < total ==> delivered.contains(x),
        },
    ensures
        first_missing(delivered, at, total) == gap,
    decreases total - at,
{
    if at < total && delivered.contains(at) {
        lemma_first_missing(delivered, at + 1, total, gap);
    }
}

/// As many delivered bytes as declared means that every byte was delivered.
pub proof fn lemma_complete_by_count(t: TransferView)
    requires
        t.wf(),
    ensures
        t.complete() <==> t.delivered.dom().len() == t.declared_total,
        t.delivered.dom().len() <= t.declared_total,
{
    let all = set_int_range(0, t.declared_total as int);
    lemma_int_range(0, t.declared_total as int);
    lemma_len_subset(t.delivered.dom(), all);
    if t.delivered.dom().len() == t.declared_total {
        lemma_subset_equality(t.delivered.dom(), all);
    }
    if t.complete() {
        assert(t.delivered.dom() =~= all);
    }
}

/// Encoding a file frame is undone by decoding it, whatever follows.
pub proof fn lemma_file_decode_undoes_encode(f: FrameView, tail: Seq<u8>)
    requires
        frame::fits(f),
    ensures
        file_decode_result(file_frame_bytes(f) + tail) == Ok::<FrameView, FileFrameError>(f),
        file_frame_bytes(f).len() == FILE_FRAME_OVERHEAD + f.data.len() + 2,
{
    let bytes = file_frame_bytes(f) + tail;
    let n = f.data.len() as int;
    assert(frame::length_field(bytes) == n + 2);
    assert(bytes.subrange(5, n + 5) =~= f.data);
    assert(bytes[n + 5] == frame::checksum_of(f.cmd, f.data));
}

/// Decoding a file frame is undone by encoding it.
pub proof fn lemma_file_encode_undoes_decode(bytes: Seq<u8>)
    requires
        file_decode_result(bytes) is Ok,
    ensures
        ({
            let f = file_decode_result(bytes)->Ok_0;
            &&& frame::fits(f)
            &&& bytes.take(FILE_FRAME_OVERHEAD + f.data.len() + 2) == file_frame_bytes(f)
        }),
{
    let f = file_decode_result(bytes)->Ok_0;
    let n = f.data.len() as int;
    assert(n == frame::length_field(bytes) - 2);
    assert(bytes.take(n + 8) =~= file_frame_bytes(f));
}

/// The file envelope and the control envelopes never accept each other's bytes.
pub proof fn lemma_envelopes_are_disjoint(bytes: Seq<u8>)
    ensures
        file_decode_result(bytes) is Err || (frame::decode_result(frame::DEVICE_HEADER, bytes) is Err
            && frame::decode_result(frame::APP_HEADER, bytes) is Err),
{
}

/// Draining two pieces one after the other, carrying over what the first one leaves, gives the
/// same frames, the same number of dropped bytes and the same remainder as draining them joined.
pub proof fn lemma_file_drain_split(a: Seq<u8>, b: Seq<u8>)
    ensures
        ({
            let first = file_drained(a);
            let second = file_drained(first.rest + b);
            file_drained(a + b) == (FileDrain {
                frames: first.frames + second.frames,
                dropped: first.dropped + second.dropped,
                rest: second.rest,
            })
        }),
    decreases a.len(),
{
    let len = frame::length_field(a);
    let first = file_drained(a);
    let second = file_drained(first.rest + b);
    if a.len() == 0 {
        assert(a + b =~= b);
        assert(first.rest + b =~= b);
        assert(first.frames + second.frames =~= second.frames);
    } else if !frame::partial_prefix(FILE_HEADER, a) {
        lemma_file_drain_split(a.skip(1), b);
        assert((a + b).skip(1) =~= a.skip(1) + b);
    } else if a.len() < FRAME_OVERHEAD {
        assert(first.frames + second.frames =~= second.frames);
    } else if !frame::legal_length(len) {
        lemma_file_drain_split(a.skip(2), b);
        assert((a + b).skip(2) =~= a.skip(2) + b);
    } else if a.len() < FILE_FRAME_OVERHEAD + len {
        assert(first.frames + second.frames =~= second.frames);
    } else {
        let n = FILE_FRAME_OVERHEAD + len;
        lemma_file_drain_split(a.skip(n), b);
        assert((a + b).skip(n) =~= a.skip(n) + b);
        assert((a + b).take(n) =~= a.take(n));
        let later = file_drained(a.skip(n));
        match file_decode_result(a.take(n)) {
            Ok(f) => {
                assert(seq![f] + (later.frames + second.frames) =~= (seq![f] + later.frames)
                    + second.frames);
            },
            Err(_) => {},
        }
    }
}

/// Handling two lists of frames one after the other is handling them joined.
proof fn lemma_after_frames_concat(t: Option<TransferView>, f: Seq<FrameView>, g: Seq<FrameView>)
    ensures
        ({
            let first = after_frames(t, f);
            let second = after_frames(first.0, g);
            after_frames(t, f + g) == (second.0, first.1 + second.1)
        }),
    decreases g.len(),
{
    let first = after_frames(t, f);
    if g.len() == 0 {
        assert(f + g =~= f);
        assert(first.1 + Seq::<FileEventView>::empty() =~= first.1);
    } else {
        lemma_after_frames_concat(t, f, g.drop_last());
        assert((f + g).drop_last() =~= f + g.drop_last());
        let before = after_frames(first.0, g.drop_last());
        let more = after_frame(before.0, g.last());
        assert(first.1 + before.1 + more.1 =~= first.1 + (before.1 + more.1));
    }
}

proof fn lemma_after_one_frame(t: Option<TransferView>, f: FrameView)
    ensures
        after_frames(t, seq![f]) == after_frame(t, f),
{
    assert(seq![f].drop_last() =~= Seq::empty());
    assert(after_frames(t, Seq::empty()) == (t, Seq::<FileEventView>::empty()));
    assert(Seq::empty() + after_frame(t, f).1 =~= after_frame(t, f).1);
}

/// How the bytes are cut into notifications does not matter: two pushes leave the same state as
/// one push of the joined bytes, and the frames of both pushes are handled as those of the joined
/// one. Only the reports on discarded bytes are merged.
pub proof fn lemma_push_split(r: ReassemblerView, a: Seq<u8>, b: Seq<u8>)
    ensures
        after_push(after_push(r, a).0, b).0 == after_push(r, a + b).0,
        ({
            let first = file_drained(r.buffer + a);
            let second = file_drained(first.rest + b);
            let joined = file_drained(r.buffer + (a + b));
            let t = after_frames(r.transfer, first.frames);
            &&& after_frames(r.transfer, joined.frames).1 == t.1 + after_frames(
                t.0,
                second.frames,
            ).1
            &&& joined.dropped == first.dropped + second.dropped
        }),
{
    let first = file_drained(r.buffer + a);
    let second = file_drained(first.rest + b);
    lemma_file_drain_split(r.buffer + a, b);
    assert(r.buffer + a + b =~= r.buffer + (a + b));
    lemma_after_frames_concat(r.transfer, first.frames, second.frames);
}

/// A holey file is never completed: a completed file is exactly as long as declared, and each of
/// its bytes was delivered.
pub proof fn lemma_no_holey_file(t: Option<TransferView>, f: FrameView, i: int)
    requires
        0 <= i < after_frame(t, f).1.len(),
        after_frame(t, f).1[i] is Completed,
    ensures
        t is Some,
        t->Some_0.complete(),
        after_frame(t, f).1[i]->Completed_data.len() == t->Some_0.declared_total,
        forall|x: int|
            0 <= x < t->Some_0.declared_total ==> t->Some_0.delivered.dom().contains(x)
                && #[trigger] after_frame(t, f).1[i]->Completed_data[x] == t->Some_0.delivered[x],
{
}

/// A transfer that is reported incomplete always has a gap to name.
pub proof fn lemma_incomplete_names_a_gap(t: TransferView, payload: Seq<u8>)
    requires
        t.wf(),
        after_end(Some(t)).1 == seq![incomplete(t)] || after_data(Some(t), payload).1 == seq![
            incomplete(t),
        ],
    ensures
        first_missing(t.delivered.dom(), 0, t.declared_total as int) is Some,
{
    let addr = wire::be32_at(payload, 0);
    let bytes = payload.skip(4);
    let more = t.delivered.union_prefer_right(chunk_at(addr, bytes));
    if t.complete() {
        assert(after_end(Some(t)).1[0] is Completed);
        assert(after_end(Some(t)).1[0] != incomplete(t));
        assert(after_data(Some(t), payload).1[0] == incomplete(t));
        assert(more.dom() =~= t.delivered.dom());
        assert(false);
    }
    let x = choose|x: int| 0 <= x < t.declared_total && !t.delivered.dom().contains(x);
    lemma_missing_exists(t.delivered.dom(), 0, t.declared_total as int, x);
}

proof fn lemma_missing_exists(delivered: Set<int>, at: int, total: int, x: int)
    requires
        at <= x < total,
        !delivered.contains(x),
    ensures
        first_missing(delivered, at, total) is Some,
    decreases total - at,
{
    if delivered.contains(at) {
        lemma_missing_exists(delivered, at + 1, total, x);
    }
}

/// What was delivered so far agrees with `file`.
pub open spec fn agrees(t: TransferView, file: Seq<u8>) -> bool {
    &&& t.declared_total == file.len()
    &&& forall|x: int| #[trigger] t.delivered.dom().contains(x) ==> t.delivered[x] == file[x]
}

/// Chunks of a file may come in any order and more than once: each adds its own offsets, keeps the
/// delivered bytes in agreement with the file, and opens at most one more run of offsets. Only a
/// run too many ends the transfer. Once every byte has arrived, the end frame gives exactly the
/// file.
pub proof fn lemma_any_order_gives_the_file(
    t: TransferView,
    file: Seq<u8>,
    addr: int,
    n: int,
)
    requires
        t.wf(),
        agrees(t, file),
        0 <= addr,
        0 <= n,
        addr + n <= file.len(),
    ensures
        ({
            let payload = wire::be32_bytes(addr) + file.subrange(addr, addr + n);
            let after = after_data(Some(t), payload).0;
            let runs = ranges::run_count(t.delivered.dom());
            &&& runs < MAX_RECEIVED_SPANS ==> after is Some
            &&& after is None ==> after_data(Some(t), payload).1 == seq![incomplete(t)]
            &&& after matches Some(u) ==> {
                &&& after_data(Some(t), payload).1.len() == 0
                &&& u.wf()
                &&& agrees(u, file)
                &&& u.file_type == t.file_type
                &&& ranges::run_count(u.delivered.dom()) <= runs + 1
                &&& forall|x: int|
                    u.delivered.dom().contains(x) <==> t.delivered.dom().contains(x) || addr <= x
                        < addr + n
            }
        }),
        t.complete() ==> after_end(Some(t)).1 == seq![
            FileEventView::Completed { file_type: t.file_type, data: file },
        ],
{
    let bytes = file.subrange(addr, addr + n);
    let payload = wire::be32_bytes(addr) + bytes;
    wire::lemma_be32_round_trip(addr, bytes);
    assert(payload.skip(4) =~= bytes);
    let more = t.delivered.union_prefer_right(chunk_at(addr, bytes));
    assert(more.dom() =~= t.delivered.dom().union(set_int_range(addr, addr + n)));
    lemma_int_range(addr, addr + n);
    ranges::lemma_a_span_opens_at_most_one_run(t.delivered.dom(), addr, addr + n);
    if t.complete() {
        assert forall|x: int| 0 <= x < file.len() implies t.delivered[x] == file[x] by {
            assert(t.delivered.dom().contains(x));
        }
        assert(Seq::new(t.declared_total, |x: int| t.delivered[x]) =~= file);
    }
}

/// The data frame of the `n` bytes of a file from the offset `addr` on.
pub open spec fn piece_frame(file: Seq<u8>, addr: int, n: int) -> FrameView {
    FrameView {
        cmd: FileOpcode::Data.code(),
        data: wire::be32_bytes(addr) + file.subrange(addr, addr + n),
    }
}

/// The data frames of pieces of a file, each given by its offset and its length.
pub open spec fn piece_frames(file: Seq<u8>, pieces: Seq<(int, int)>) -> Seq<FrameView> {
    pieces.map_values(|p: (int, int)| piece_frame(file, p.0, p.1))
}

/// Whether each piece lies in a file of `total` bytes.
pub open spec fn pieces_lie_in(pieces: Seq<(int, int)>, total: int) -> bool {
    forall|i: int|
        0 <= i < pieces.len() ==> 0 <= (#[trigger] pieces[i]).0 && 0 <= pieces[i].1 && pieces[i].0
            + pieces[i].1 <= total
}

/// Whether some piece holds the offset `x`.
pub open spec fn in_pieces(pieces: Seq<(int, int)>, x: int) -> bool {
    exists|i: int|
        0 <= i < pieces.len() && (#[trigger] pieces[i]).0 <= x < pieces[i].0 + pieces[i].1
}

/// A file that is sent in pieces, in any order, with overlaps and repeats, is reassembled: as long
/// as the pieces cover the file and there are no more of them than [`MAX_RECEIVED_SPANS`], the
/// transfer starts and its end frame gives exactly the file.
pub proof fn lemma_pieces_in_any_order_complete(
    file_type: u8,
    file: Seq<u8>,
    pieces: Seq<(int, int)>,
)
    requires
        0 < file.len() <= MAX_FILE_BYTES,
        pieces.len() <= MAX_RECEIVED_SPANS,
        pieces_lie_in(pieces, file.len() as int),
        forall|x: int| 0 <= x < file.len() ==> in_pieces(pieces, x),
    ensures
        ({
            let info = FrameView {
                cmd: FileOpcode::Info.code(),
                data: wire::be32_bytes(file.len() as int).push(file_type),
            };
            let end = FrameView { cmd: FileOpcode::End.code(), data: seq![0u8] };
            after_frames(None, seq![info] + piece_frames(file, pieces) + seq![end]) == (
                None::<TransferView>,
                seq![
                    FileEventView::Started { declared_total: file.len() as usize, file_type },
                    FileEventView::Completed { file_type, data: file },
                ],
            )
        }),
{
    let t: Option<TransferView> = None;
    let frames = piece_frames(file, pieces);
    let info = FrameView {
        cmd: FileOpcode::Info.code(),
        data: wire::be32_bytes(file.len() as int).push(file_type),
    };
    let end = FrameView { cmd: FileOpcode::End.code(), data: seq![0u8] };
    let opened = TransferView { declared_total: file.len(), file_type, delivered: Map::empty() };
    let started = FileEventView::Started { declared_total: file.len() as usize, file_type };
    let completed = FileEventView::Completed { file_type, data: file };
    wire::lemma_be32_round_trip(file.len() as int, seq![file_type]);
    assert(info.data =~= wire::be32_bytes(file.len() as int) + seq![file_type]);
    lemma_after_one_frame(t, info);
    assert(Seq::empty().push(started) =~= seq![started]);
    assert(after_frames(t, seq![info]) == (Some(opened), seq![started]));
    lemma_pieces_so_far(opened, file, pieces);
    lemma_after_frames_concat(t, seq![info], frames);
    assert(seq![started] + Seq::<FileEventView>::empty() =~= seq![started]);
    let full = after_frames(Some(opened), frames).0->Some_0;
    assert forall|x: int| 0 <= x < file.len() implies full.delivered.dom().contains(x) by {
        assert(in_pieces(pieces, x));
    }
    lemma_any_order_gives_the_file(full, file, 0, 0);
    lemma_after_frames_concat(t, seq![info] + frames, seq![end]);
    lemma_after_one_frame(Some(full), end);
    assert(seq![started] + seq![completed] =~= seq![started, completed]);
}

/// What the pieces of a file leave behind: a transfer that is still open, with exactly their
/// offsets and no more runs than pieces.
proof fn lemma_pieces_so_far(opened: TransferView, file: Seq<u8>, pieces: Seq<(int, int)>)
    requires
        0 < file.len() <= MAX_FILE_BYTES,
        opened.declared_total == file.len(),
        opened.delivered == Map::<int, u8>::empty(),
        pieces.len() <= MAX_RECEIVED_SPANS,
        pieces_lie_in(pieces, file.len() as int),
    ensures
        ({
            let (after, events) = after_frames(Some(opened), piece_frames(file, pieces));
            &&& events == Seq::<FileEventView>::empty()
            &&& after matches Some(u) && {
                &&& u.wf()
                &&& agrees(u, file)
                &&& u.file_type == opened.file_type
                &&& ranges::run_count(u.delivered.dom()) <= pieces.len()
                &&& forall|x: int| u.delivered.dom().contains(x) <==> in_pieces(pieces, x)
            }
        }),
    decreases pieces.len(),
{
    let frames = piece_frames(file, pieces);
    if pieces.len() == 0 {
        assert(frames =~= Seq::empty());
        assert(opened.delivered.dom() =~= Set::empty());
        assert(ranges::run_starts(opened.delivered.dom()) =~= Set::empty());
    } else {
        let before = pieces.drop_last();
        let (addr, n) = pieces.last();
        assert(pieces[pieces.len() - 1] == pieces.last());
        assert(pieces_lie_in(before, file.len() as int)) by {
            assert forall|i: int| 0 <= i < before.len() implies 0 <= (#[trigger] before[i]).0 && 0
                <= before[i].1 && before[i].0 + before[i].1 <= file.len() by {
                assert(before[i] == pieces[i]);
            }
        }
        lemma_pieces_so_far(opened, file, before);
        assert(frames.drop_last() =~= piece_frames(file, before));
        assert(frames.last() == piece_frame(file, addr, n));
        let t = after_frames(Some(opened), piece_frames(file, before)).0->Some_0;
        lemma_any_order_gives_the_file(t, file, addr, n);
        assert(after_frames(Some(opened), frames).1 =~= Seq::empty());
        let u = after_frames(Some(opened), frames).0->Some_0;
        assert forall|x: int| u.delivered.dom().contains(x) <==> in_pieces(pieces, x) by {
            if in_pieces(before, x) {
                let i = choose|i: int|
                    0 <= i < before.len() && (#[trigger] before[i]).0 <= x < before[i].0
                        + before[i].1;
                assert(pieces[i] == before[i]);
            }
            if in_pieces(pieces, x) {
                let i = choose|i: int|
                    0 <= i < pieces.len() && (#[trigger] pieces[i]).0 <= x < pieces[i].0
                        + pieces[i].1;
                if i < before.len() {
                    assert(before[i] == pieces[i]);
                }
            }
        }
    }
}

/// The data frames of a file that is sent in order, from the offset `at` on.
pub open spec fn data_frames(at: int, chunks: Seq<Seq<u8>>) -> Seq<FrameView>
    decreases chunks.len(),
{
    if chunks.len() == 0 {
        Seq::empty()
    } else {
        seq![
            FrameView {
                cmd: FileOpcode::Data.code(),
                data: wire::be32_bytes(at) + chunks.first(),
            },
        ] + data_frames(at + chunks.first().len(), chunks.drop_first())
    }
}

/// The frames of a whole transfer.
pub open spec fn transfer_frames(file_type: u8, chunks: Seq<Seq<u8>>) -> Seq<FrameView> {
    seq![
        FrameView {
            cmd: FileOpcode::Info.code(),
            data: wire::be32_bytes(chunks.flatten().len() as int).push(file_type),
        },
    ] + data_frames(0, chunks) + seq![
        FrameView { cmd: FileOpcode::End.code(), data: seq![0u8] },
    ]
}

/// A file that is sent in order, in chunks of any size, is reassembled: the transfer starts, and
/// its end frame gives exactly the bytes that were sent.
pub proof fn lemma_in_order_transfer_completes(file_type: u8, chunks: Seq<Seq<u8>>)
    requires
        0 < chunks.flatten().len() <= MAX_FILE_BYTES,
    ensures
        after_frames(None, transfer_frames(file_type, chunks)) == (
            None::<TransferView>,
            seq![
                FileEventView::Started {
                    declared_total: chunks.flatten().len() as usize,
                    file_type,
                },
                FileEventView::Completed { file_type, data: chunks.flatten() },
            ],
        ),
{
    let t: Option<TransferView> = None;
    let file = chunks.flatten();
    let info = FrameView {
        cmd: FileOpcode::Info.code(),
        data: wire::be32_bytes(file.len() as int).push(file_type),
    };
    let end = FrameView { cmd: FileOpcode::End.code(), data: seq![0u8] };
    let opened = TransferView {
        declared_total: file.len(),
        file_type,
        delivered: chunk_at(0, file.take(0)),
    };
    assert(opened.delivered =~= Map::empty());
    wire::lemma_be32_round_trip(file.len() as int, seq![file_type]);
    assert(info.data =~= wire::be32_bytes(file.len() as int) + seq![file_type]);
    let started = FileEventView::Started { declared_total: file.len() as usize, file_type };
    lemma_after_one_frame(t, info);
    assert(Seq::empty().push(started) =~= seq![started]);
    assert(after_frames(t, seq![info]) == (Some(opened), seq![started]));
    assert(file.skip(0) =~= file);
    lemma_data_frames(opened, file, 0, chunks);
    lemma_after_frames_concat(t, seq![info], data_frames(0, chunks));
    let full = TransferView { delivered: chunk_at(0, file), ..opened };
    assert(seq![started] + Seq::<FileEventView>::empty() =~= seq![started]);
    lemma_after_frames_concat(t, seq![info] + data_frames(0, chunks), seq![end]);
    lemma_after_one_frame(Some(full), end);
    assert(Seq::new(full.declared_total, |x: int| full.delivered[x]) =~= file);
    let completed = FileEventView::Completed { file_type, data: file };
    assert(after_end(Some(full)).1 =~= seq![completed]);
    assert(seq![started] + seq![completed] =~= seq![started, completed]);
}

proof fn lemma_data_frames(t: TransferView, file: Seq<u8>, at: int, chunks: Seq<Seq<u8>>)
    requires
        t.declared_total == file.len(),
        file.len() <= MAX_FILE_BYTES,
        0 <= at <= file.len(),
        t.delivered == chunk_at(0, file.take(at)),
        chunks.flatten() == file.skip(at),
    ensures
        after_frames(Some(t), data_frames(at, chunks)) == (
            Some(TransferView { delivered: chunk_at(0, file), ..t }),
            Seq::<FileEventView>::empty(),
        ),
    decreases chunks.len(),
{
    if chunks.len() == 0 {
        assert(file.skip(at).len() == 0);
        assert(file.take(at) =~= file);
    } else {
        let bytes = chunks.first();
        let next = at + bytes.len();
        let payload = wire::be32_bytes(at) + bytes;
        let f = FrameView { cmd: FileOpcode::Data.code(), data: payload };
        let later = chunks.drop_first();
        wire::lemma_be32_round_trip(at, bytes);
        assert(payload.skip(4) =~= bytes);
        assert(chunks.flatten() =~= bytes + later.flatten());
        assert(file.skip(at).len() == bytes.len() + later.flatten().len());
        assert forall|x: int| 0 <= x < bytes.len() implies bytes[x] == file[at + x] by {
            assert((bytes + later.flatten())[x] == file.skip(at)[x]);
        }
        assert(later.flatten() =~= file.skip(next)) by {
            assert(chunks.flatten().skip(bytes.len() as int) =~= later.flatten());
            assert(file.skip(at).skip(bytes.len() as int) =~= file.skip(next));
        }
        let more = t.delivered.union_prefer_right(chunk_at(at, bytes));
        assert(more =~= chunk_at(0, file.take(next)));
        lemma_one_run(next);
        assert(more.dom() =~= set_int_range(0, next));
        let after = TransferView { delivered: chunk_at(0, file.take(next)), ..t };
        assert(after_data(Some(t), payload) == (Some(after), Seq::<FileEventView>::empty()));
        lemma_after_one_frame(Some(t), f);
        assert(Seq::<FileEventView>::empty() + Seq::<FileEventView>::empty() =~= Seq::empty());
        lemma_data_frames(after, file, next, later);
        lemma_after_frames_concat(Some(t), seq![f], data_frames(next, later));
    }
}

/// Consecutive offsets form at most one run.
proof fn lemma_one_run(n: int)
    requires
        0 <= n,
    ensures
        ranges::run_count(set_int_range(0, n)) <= 1,
{
    let starts = ranges::run_starts(set_int_range(0, n));
    let first = Set::<int>::empty().insert(0);
    assert(starts.subset_of(first));
    lemma_len_subset(starts, first);
}

// ---- what the bytes of a file frame mean ---------------------------------------------------

/// What stands where in a file frame: `52 58`, how many bytes follow the four first ones up to the
/// checksum, most significant byte first, the opcode, the data, the checksum, and `58 52`.
pub proof fn lemma_what_stands_where_in_a_file_frame(cmd: u8, data: Seq<u8>)
    requires
        data.len() < 0xFFFE,
    ensures
        ({
            let bytes = file_frame_bytes(FrameView { cmd, data });
            let n = data.len() as int;
            &&& bytes.len() == n + 8
            &&& bytes[0] == 0x52
            &&& bytes[1] == 0x58
            &&& bytes[2] * 256 + bytes[3] == n + 2
            &&& bytes[4] == cmd
            &&& bytes.subrange(5, n + 5) == data
            &&& bytes[n + 5] == frame::checksum_of(cmd, data)
            &&& bytes[n + 6] == 0x58
            &&& bytes[n + 7] == 0x52
        }),
{
    let bytes = file_frame_bytes(FrameView { cmd, data });
    assert(bytes.subrange(5, data.len() as int + 5) =~= data);
}

/// What decodes as a file frame and what does not: eight bytes, the magic, a length from 2 to 4096,
/// as many bytes as it says, the trailer and the right checksum are looked for in this order, and
/// the first that is missing is named.
pub proof fn lemma_what_decodes_as_a_file_frame(bytes: Seq<u8>)
    ensures
        ({
            let len = bytes[2] * 256 + bytes[3];
            let r = file_decode_result(bytes);
            if bytes.len() < 8 {
                r == Err::<FrameView, _>(FileFrameError::TooShort)
            } else if bytes[0] != 0x52 || bytes[1] != 0x58 {
                r == Err::<FrameView, _>(FileFrameError::BadHeader)
            } else if len < 2 || len > 4096 {
                r == Err::<FrameView, _>(FileFrameError::BadLength)
            } else if bytes.len() < 6 + len {
                r == Err::<FrameView, _>(FileFrameError::Truncated)
            } else if bytes[len + 4] != 0x58 || bytes[len + 5] != 0x52 {
                r == Err::<FrameView, _>(FileFrameError::BadTrailer)
            } else if bytes[len + 3] != frame::checksum_of(bytes[4], bytes.subrange(5, len + 3)) {
                r == Err::<FrameView, _>(FileFrameError::ChecksumMismatch)
            } else {
                r == Ok::<FrameView, FileFrameError>(
                    FrameView { cmd: bytes[4], data: bytes.subrange(5, len + 3) },
                )
            }
        }),
{
}

/// Draining takes whole frames, drops one byte at a time of what cannot begin one, drops the magic
/// of a length that no frame can have, and waits for the rest of a frame that has begun.
pub proof fn lemma_what_draining_file_bytes_does(cmd: u8, data: Seq<u8>, buf: Seq<u8>)
    requires
        data.len() <= 4094,
    ensures
        ({
            let first = file_frame_bytes(FrameView { cmd, data });
            let later = file_drained(buf);
            file_drained(first + buf) == (FileDrain {
                frames: seq![FrameView { cmd, data }] + later.frames,
                ..later
            })
        }),
        file_drained(Seq::empty()) == (FileDrain {
            frames: Seq::empty(),
            dropped: 0,
            rest: Seq::empty(),
        }),
        buf.len() > 0 && (buf[0] != 0x52 || buf.len() >= 2 && buf[1] != 0x58) ==> file_drained(buf)
            == (FileDrain {
            dropped: file_drained(buf.skip(1)).dropped + 1,
            ..file_drained(buf.skip(1))
        }),
        ({
            let len = buf[2] * 256 + buf[3];
            let begun = buf.len() > 0 && buf[0] == 0x52 && (buf.len() >= 2 ==> buf[1] == 0x58);
            &&& begun && (buf.len() < 4 || 2 <= len <= 4096 && buf.len() < 6 + len)
                ==> file_drained(buf) == (FileDrain {
                frames: Seq::empty(),
                dropped: 0,
                rest: buf,
            })
            &&& begun && buf.len() >= 4 && (len < 2 || len > 4096) ==> file_drained(buf) == (
            FileDrain {
                dropped: file_drained(buf.skip(2)).dropped + 2,
                ..file_drained(buf.skip(2))
            })
        }),
{
    let f = FrameView { cmd, data };
    let first = file_frame_bytes(f);
    lemma_file_decode_undoes_encode(f, buf);
    lemma_file_decode_undoes_encode(f, Seq::empty());
    assert(first + Seq::empty() =~= first);
    let all = first + buf;
    let n = first.len() as int;
    assert(all.take(n) =~= first);
    assert(all.skip(n) =~= buf);
    assert(frame::length_field(all) == data.len() + 2);
}

/// A header opens a transfer of the four bytes' size, most significant first, and of the type in
/// the fifth byte. A size of zero or above 16 MiB opens none. A transfer in flight is gone either
/// way, and is reported first. A shorter header does nothing.
pub proof fn lemma_what_a_header_does(
    t: Option<TransferView>,
    total: u32,
    file_type: u8,
    tail: Seq<u8>,
)
    ensures
        ({
            let data = seq![
                (total / 0x100_0000) as u8,
                (total / 0x1_0000 % 256) as u8,
                (total / 0x100 % 256) as u8,
                (total % 256) as u8,
                file_type,
            ] + tail;
            let (after, events) = after_frame(t, FrameView { cmd: 0x97, data });
            let gone = match t {
                Some(open) => seq![
                    FileEventView::Aborted(
                        FileAbort::Superseded {
                            received: open.delivered.dom().len() as usize,
                            declared_total: open.declared_total as usize,
                        },
                    ),
                ],
                None => Seq::empty(),
            };
            if 0 < total <= 16 * 1024 * 1024 {
                &&& after == Some(
                    TransferView {
                        declared_total: total as nat,
                        file_type,
                        delivered: Map::empty(),
                    },
                )
                &&& events == gone.push(
                    FileEventView::Started { declared_total: total as usize, file_type },
                )
            } else {
                &&& after is None
                &&& events == gone.push(
                    FileEventView::Aborted(
                        FileAbort::ImplausibleSize { declared_total: total as usize },
                    ),
                )
            }
        }),
        tail.len() < 5 ==> after_frame(t, FrameView { cmd: 0x97, data: tail }) == (
            t,
            Seq::<FileEventView>::empty(),
        ),
{
    let data = seq![
        (total / 0x100_0000) as u8,
        (total / 0x1_0000 % 256) as u8,
        (total / 0x100 % 256) as u8,
        (total % 256) as u8,
        file_type,
    ] + tail;
    assert(wire::be32_at(data, 0) == total);
}

/// A chunk delivers each of its bytes to its own offset, over what was there, and leaves every other
/// offset alone. One that reaches past the declared size ends the transfer. Without a transfer, or
/// without an offset, nothing happens.
pub proof fn lemma_what_a_chunk_does(
    t: Option<TransferView>,
    addr: u32,
    bytes: Seq<u8>,
)
    requires
        bytes.len() <= 4096,
    ensures
        ({
            let data = seq![
                (addr / 0x100_0000) as u8,
                (addr / 0x1_0000 % 256) as u8,
                (addr / 0x100 % 256) as u8,
                (addr % 256) as u8,
            ] + bytes;
            let (after, events) = after_frame(t, FrameView { cmd: 0x98, data });
            match t {
                None => after is None && events.len() == 0,
                Some(open) => {
                    &&& addr + bytes.len() > open.declared_total ==> after is None && events
                        == seq![
                        FileEventView::Aborted(
                            FileAbort::OutOfRange {
                                addr: addr as usize,
                                end: if addr + bytes.len() <= usize::MAX {
                                    (addr + bytes.len()) as usize
                                } else {
                                    usize::MAX
                                },
                                declared_total: open.declared_total as usize,
                            },
                        ),
                    ]
                    &&& addr + bytes.len() <= open.declared_total ==> ({
                        let covered = open.delivered.dom().union(
                            set_int_range(addr as int, addr + bytes.len()),
                        );
                        &&& after is Some <==> ranges::run_count(covered) <= 4096
                        &&& after is None ==> events.len() == 1 && (events[0] matches
                            FileEventView::Aborted(abort) && abort is Incomplete)
                    })
                    &&& after matches Some(now) ==> {
                        &&& events.len() == 0
                        &&& now.declared_total == open.declared_total
                        &&& now.file_type == open.file_type
                        &&& forall|x: int|
                            now.delivered.dom().contains(x) <==> open.delivered.dom().contains(x)
                                || addr <= x < addr + bytes.len()
                        &&& forall|x: int|
                            #![trigger now.delivered[x]]
                            addr <= x < addr + bytes.len() ==> now.delivered[x] == bytes[x - addr]
                        &&& forall|x: int|
                            #![trigger now.delivered[x]]
                            open.delivered.dom().contains(x) && !(addr <= x < addr + bytes.len())
                                ==> now.delivered[x] == open.delivered[x]
                    }
                },
            }
        }),
        bytes.len() < 4 ==> after_frame(t, FrameView { cmd: 0x98, data: bytes }) == (
            t,
            Seq::<FileEventView>::empty(),
        ),
{
    let data = seq![
        (addr / 0x100_0000) as u8,
        (addr / 0x1_0000 % 256) as u8,
        (addr / 0x100 % 256) as u8,
        (addr % 256) as u8,
    ] + bytes;
    assert(wire::be32_at(data, 0) == addr);
    assert(data.skip(4) =~= bytes);
    if let Some(open) = t {
        let more = open.delivered.union_prefer_right(chunk_at(addr as int, bytes));
        assert(more.dom() =~= open.delivered.dom().union(
            set_int_range(addr as int, addr + bytes.len()),
        ));
    }
}

/// An end closes the transfer: with the file if every byte was delivered, and else with how much
/// was and where the first gap is. Without a transfer it is reported as such. Any other opcode does
/// nothing.
pub proof fn lemma_what_an_end_does(t: Option<TransferView>, f: FrameView)
    ensures
        ({
            let (after, events) = after_frame(t, FrameView { cmd: 0x99, data: f.data });
            &&& after is None
            &&& events.len() == 1
            &&& t is None ==> events[0] == FileEventView::Aborted(FileAbort::NoFileInfo)
            &&& t matches Some(open) ==> ({
                let whole = forall|x: int|
                    0 <= x < open.declared_total ==> open.delivered.dom().contains(x);
                &&& whole ==> events[0] is Completed && events[0]->Completed_file_type
                    == open.file_type && events[0]->Completed_data.len() == open.declared_total
                    && forall|x: int|
                    0 <= x < open.declared_total ==> #[trigger] events[0]->Completed_data[x]
                        == open.delivered[x]
                &&& !whole ==> events[0] == FileEventView::Aborted(
                    FileAbort::Incomplete {
                        received: open.delivered.dom().len() as usize,
                        declared_total: open.declared_total as usize,
                        first_gap: first_missing(
                            open.delivered.dom(),
                            0,
                            open.declared_total as int,
                        ),
                    },
                )
            })
        }),
        f.cmd != 0x97 && f.cmd != 0x98 && f.cmd != 0x99 ==> after_frame(t, f) == (
            t,
            Seq::<FileEventView>::empty(),
        ),
{
}

/// The first gap is the first offset that was not delivered; without a gap there is none.
pub proof fn lemma_what_the_first_gap_is(delivered: Set<int>, total: int)
    requires
        0 <= total <= usize::MAX,
    ensures
        match first_missing(delivered, 0, total) {
            Some(g) => g < total && !delivered.contains(g as int) && forall|x: int|
                0 <= x < g ==> delivered.contains(x),
            None => forall|x: int| 0 <= x < total ==> delivered.contains(x),
        },
{
    lemma_first_gap_from(delivered, 0, total);
}

proof fn lemma_first_gap_from(delivered: Set<int>, at: int, total: int)
    requires
        0 <= at,
        total <= usize::MAX,
    ensures
        match first_missing(delivered, at, total) {
            Some(g) => at <= g < total && !delivered.contains(g as int) && forall|x: int|
                at <= x < g ==> delivered.contains(x),
            None => forall|x: int| at <= x < total ==> delivered.contains(x),
        },
    decreases total - at,
{
    if at < total && delivered.contains(at) {
        lemma_first_gap_from(delivered, at + 1, total);
    }
}

/// Pushed bytes are handled as the frames that they complete, in order, behind a report on what had
/// to be discarded if there was any. What is not yet a frame is kept.
pub proof fn lemma_what_a_push_does(r: ReassemblerView, chunk: Seq<u8>)
    ensures
        ({
            let d = file_drained(r.buffer + chunk);
            let (after, events) = after_push(r, chunk);
            &&& after.buffer == d.rest
            &&& after.transfer == after_frames(r.transfer, d.frames).0
            &&& d.dropped == 0 ==> events == after_frames(r.transfer, d.frames).1
            &&& d.dropped > 0 ==> events == seq![
                FileEventView::Desynced { dropped: d.dropped as usize },
            ] + after_frames(r.transfer, d.frames).1
        }),
{
    let d = file_drained(r.buffer + chunk);
    let events = after_frames(r.transfer, d.frames).1;
    assert(Seq::<FileEventView>::empty() + events =~= events);
}

/// Frames are handled one after the other, each on what the ones before left.
pub proof fn lemma_frames_are_handled_in_order(
    t: Option<TransferView>,
    frames: Seq<FrameView>,
    f: FrameView,
)
    ensures
        after_frames(t, Seq::empty()) == (t, Seq::<FileEventView>::empty()),
        ({
            let before = after_frames(t, frames);
            let own = after_frame(before.0, f);
            after_frames(t, frames.push(f)) == (own.0, before.1 + own.1)
        }),
{
    assert(frames.push(f).drop_last() =~= frames);
}

/// How far along a transfer is: what it declares, how many offsets were delivered, and the first
/// gap. Without one there is nothing.
pub proof fn lemma_what_progress_says(t: TransferView)
    requires
        t.wf(),
    ensures
        ({
            let p = progress_of(Some(t));
            &&& p.received == t.delivered.dom().len()
            &&& p.declared_total == t.declared_total
            &&& p.file_type == t.file_type
            &&& p.first_gap == first_missing(t.delivered.dom(), 0, t.declared_total as int)
        }),
        progress_of(None).received == 0,
        progress_of(None).declared_total == 0,
        progress_of(None).file_type == 0,
        progress_of(None).first_gap is None,
{
    lemma_complete_by_count(t);
}

/// The kinds of file by their bytes.
pub proof fn lemma_the_kinds_of_file(byte: u8, kind: FileKind, op: FileOpcode)
    ensures
        FileKind::of_code(byte) == Some(kind) <==> kind.code() == byte,
        kind == FileKind::ImageThumb <==> kind.code() == 1,
        kind == FileKind::HdImage <==> kind.code() == 2,
        kind == FileKind::VideoThumb <==> kind.code() == 3,
        op == FileOpcode::Info <==> op.code() == 0x97,
        op == FileOpcode::Data <==> op.code() == 0x98,
        op == FileOpcode::End <==> op.code() == 0x99,
{
}

/// A file event shows what it carries.
pub proof fn lemma_what_a_file_event_shows(e: FileEvent)
    ensures
        match e {
            FileEvent::Started { declared_total, file_type } => e@ == (FileEventView::Started {
                declared_total,
                file_type,
            }),
            FileEvent::Completed(file) => e@ == (FileEventView::Completed {
                file_type: file.file_type,
                data: file.data@,
            }),
            FileEvent::Aborted(abort) => e@ == FileEventView::Aborted(abort),
            FileEvent::Desynced { dropped } => e@ == (FileEventView::Desynced { dropped }),
        },
{
}

} // verus!

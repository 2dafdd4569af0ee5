//! The file framing and its reassembler.

use luma_core::frame::{
    DecodeError, FRAME_OVERHEAD, Frame, MAX_LENGTH_FIELD, checksum, decode_device,
};
use luma_core::opcodes::{DeviceUpload, Evidence};
use luma_core::ranges::{MAX_RECEIVED_SPANS, ReceivedRanges};
use luma_core::reassembly::{
    CAPTURED_CHUNK_BYTES, FILE_FRAME_OVERHEAD, FILE_TRAILER, FileAbort, FileEvent, FileFrameError,
    FileKind, FileOpcode, FileReassembler, MAX_FILE_BYTES, ReassembledFile, TransferProgress,
    decode_file_frame, drain_file_frames, encode_file_frame,
};

fn hex(s: &str) -> Vec<u8> {
    let s: String = s.chars().filter(|c| !c.is_whitespace()).collect();
    assert!(
        s.len() % 2 == 0,
        "hex literal must be byte-aligned"
    );
    (0..s.len() / 2)
        .map(|i| u8::from_str_radix(&s[i * 2..i * 2 + 2], 16).expect("valid hex"))
        .collect()
}

const GOLDEN_INFO: &[(&str, usize, u8, &str)] = &[
    (
        "525800079700002ac402875852",
        10_948,
        0x02,
        "client_2 — 22 x 496 + 36",
    ),
    ("52580007970000292402e65852", 10_532, 0x02, "eyevue_2 — 21 x 496 + 116"),
    ("5258000797000034a0026d5852", 13_472, 0x02, "client_1 — 27 x 496 + 80, the largest seen"),
];

/// `client_2`'s final `0x98`, whole and unedited: the short tail that closes the file at
/// exactly the declared total. 48 wire bytes — the smallest complete real data frame in any
/// capture, which is why it is the one embedded here.
const GOLDEN_LAST_DATA: &str = "5258002a9800002aa05ffe08ccb78bfdafc047ff00db68317a363d498b\
                                ff00b6d6a514ff00adff00e08cffd900ef5852";

/// The end frame, byte-identical in all three captured transfers.
const GOLDEN_END: &str = "525800039900995852";

/// Build a whole transfer at the geometry the captures use. Content is deterministic and
/// content-addressed by offset so a misplaced chunk shows up as a byte mismatch rather than
/// as a length that happens to match.
fn transfer(total: usize, file_type: u8) -> (Vec<u8>, Vec<Vec<u8>>) {
    let body: Vec<u8> = (0..total)
        .map(|i| (i as u8).wrapping_mul(31).wrapping_add(7))
        .collect();
    let mut frames = vec![{
        let mut p = (total as u32).to_be_bytes().to_vec();
        p.push(file_type);
        encode_file_frame(FileOpcode::Info.code(), &p)
    }];
    for addr in (0..total).step_by(CAPTURED_CHUNK_BYTES) {
        let end = (addr + CAPTURED_CHUNK_BYTES).min(total);
        let mut p = (addr as u32).to_be_bytes().to_vec();
        p.extend_from_slice(&body[addr..end]);
        frames.push(encode_file_frame(FileOpcode::Data.code(), &p));
    }
    frames.push(encode_file_frame(FileOpcode::End.code(), &[0x00]));
    (body, frames)
}

fn completed(events: &[FileEvent]) -> Option<&ReassembledFile> {
    events.iter().find_map(|e| match e {
        FileEvent::Completed(f) => Some(f),
        _ => None,
    })
}

fn aborts(events: &[FileEvent]) -> Vec<FileAbort> {
    events
        .iter()
        .filter_map(|e| match e {
            FileEvent::Aborted(a) => Some(*a),
            _ => None,
        })
        .collect()
}

/// The load-bearing test: every captured header decodes to the total and type the transfer
/// actually produced, AND re-encodes to the original bytes. Round-tripping in both
/// directions is what pins the length and checksum boundaries — a codec that counted the
/// trailer inside `len`, or ran the checksum over the header, passes a decode-only test on
/// the `0x99` frame and fails here on the first multi-byte one.
#[test]
fn every_captured_file_frame_decodes_and_re_encodes_byte_for_byte() {
    for (h, total, kind, why) in GOLDEN_INFO {
        let bytes = hex(h);
        let f = decode_file_frame(&bytes).unwrap_or_else(|e| panic!("{h} ({why}): {e:?}"));
        assert_eq!(f.cmd, FileOpcode::Info.code(), "{why}");
        assert_eq!(f.data.len(), 5, "{why}");
        let got = u32::from_be_bytes([f.data[0], f.data[1], f.data[2], f.data[3]]) as usize;
        assert_eq!(got, *total, "{why}");
        assert_eq!(f.data[4], *kind, "{why}");
        assert_eq!(encode_file_frame(f.cmd, &f.data), bytes, "{why}");
    }

    let last = hex(GOLDEN_LAST_DATA);
    let f = decode_file_frame(&last).expect("the captured short tail decodes");
    assert_eq!(f.cmd, FileOpcode::Data.code());
    let addr = u32::from_be_bytes([f.data[0], f.data[1], f.data[2], f.data[3]]) as usize;
    assert_eq!(
        (addr, f.data.len() - 4),
        (10_912, 36),
        "22 x 496, then 36 bytes"
    );
    assert_eq!(
        addr + (f.data.len() - 4),
        10_948,
        "the tail lands exactly on the total"
    );
    assert_eq!(encode_file_frame(f.cmd, &f.data), last);

    let end = hex(GOLDEN_END);
    let f = decode_file_frame(&end).expect("the captured end frame decodes");
    assert_eq!(
        (f.cmd, f.data.as_slice()),
        (FileOpcode::End.code(), &[0x00][..])
    );
    assert_eq!(encode_file_frame(f.cmd, &f.data), end);
}

/// `len` excludes the header AND the trailer; the checksum covers cmd + payload only.
/// Asserted on a captured frame with a multi-byte payload, where every boundary is visible.
#[test]
fn reassembly_length_and_checksum_boundaries_are_where_the_captures_put_them() {
    let bytes = hex("525800079700002ac402875852");
    let len = ((bytes[2] as usize) << 8) | bytes[3] as usize;
    assert_eq!(len, 7, "cmd + 5 payload + checksum");
    assert_eq!(
        bytes.len(),
        FRAME_OVERHEAD + len + 2,
        "magic and trailer are outside len"
    );
    assert_eq!(checksum(0x97, &bytes[5..10]), 0x87);
    assert_eq!(bytes[10], 0x87);
    assert_eq!(&bytes[11..], &FILE_TRAILER);
    // Folding the header in would give a different byte — proof the boundary matters.
    assert_ne!(checksum(0x52, &bytes[1..10]), 0x87);
}

/// A full transfer at each captured geometry, driven one notification per frame, which is
/// how the device actually delivers them.
#[test]
fn the_captured_transfer_geometries_reassemble_to_the_declared_total() {
    for (total, chunks, tail) in [
        (10_532usize, 21usize, 116usize),
        (13_472, 27, 80),
        (10_948, 22, 36),
    ] {
        assert_eq!(
            chunks * CAPTURED_CHUNK_BYTES + tail,
            total,
            "geometry table"
        );
        let (body, frames) = transfer(total, FileKind::HdImage.code());
        assert_eq!(frames.len(), chunks + 3, "info + data frames + end");

        let mut r = FileReassembler::new();
        let mut events = Vec::new();
        for f in &frames {
            events.extend(r.push(f));
        }
        assert_eq!(
            events.first(),
            Some(&FileEvent::Started {
                declared_total: total,
                file_type: 0x02
            })
        );
        let file = completed(&events).unwrap_or_else(|| panic!("{total} did not complete"));
        assert_eq!(file.data, body);
        assert_eq!(file.kind(), Some(FileKind::HdImage));
        assert!(r.progress().declared_total == 0, "the transfer closed");
        assert!(!r.has_buffered_frame_data());
    }
}

/// Delivery in every capture is one whole frame per notification. This asserts the
/// deframer survives the coalescing and fragmentation nobody has observed — labelled as
/// robustness so it is never cited as device evidence.
#[test]
fn a_transfer_survives_being_coalesced_and_split_arbitrarily() {
    let (body, frames) = transfer(2_000, 0x02);
    let stream: Vec<u8> = frames.concat();

    // Everything in one notification.
    let mut r = FileReassembler::new();
    let events = r.push(&stream);
    assert_eq!(
        completed(&events).map(|f| f.data.clone()),
        Some(body.clone())
    );

    // One byte at a time.
    let mut r = FileReassembler::new();
    let mut events = Vec::new();
    for b in &stream {
        events.extend(r.push(&[*b]));
    }
    assert_eq!(
        completed(&events).map(|f| f.data.clone()),
        Some(body.clone())
    );

    // And split at every possible boundary.
    for cut in 1..stream.len() {
        let mut r = FileReassembler::new();
        let mut events = r.push(&stream[..cut]);
        events.extend(r.push(&stream[cut..]));
        assert_eq!(
            completed(&events).map(|f| f.data.len()),
            Some(body.len()),
            "split at {cut}"
        );
    }
}

#[test]
fn a_dropped_chunk_is_rejected_rather_than_delivered_with_a_hole() {
    let (_, frames) = transfer(2_000, 0x02);
    let mut r = FileReassembler::new();
    let mut events = Vec::new();
    for (i, f) in frames.iter().enumerate() {
        if i == 2 {
            continue; // lose the second data frame
        }
        events.extend(r.push(f));
    }
    assert!(
        completed(&events).is_none(),
        "a holey file must not be delivered"
    );
    assert_eq!(
        aborts(&events),
        vec![FileAbort::Incomplete {
            received: 2_000 - CAPTURED_CHUNK_BYTES,
            declared_total: 2_000,
            first_gap: Some(CAPTURED_CHUNK_BYTES),
        }],
        "the gap is reported, and it is reported where it is"
    );
}

/// The same gap, filled by a late retransmit. `addr` is what makes this expressible; no
/// device has ever used it, so this pins INFERRED behaviour rather than captured behaviour.
#[test]
fn a_late_retransmit_fills_the_gap_and_the_file_completes() {
    let (body, frames) = transfer(2_000, 0x02);
    let mut r = FileReassembler::new();
    let mut events = Vec::new();
    for (i, f) in frames.iter().enumerate() {
        if i == 2 {
            continue;
        }
        events.extend(r.push(f));
    }
    // The zero-fill left the buffer the right LENGTH but the wrong CONTENT, and the gap is
    // still outstanding — so progress reports it even though `data.len()` is already 2,000.
    assert!(completed(&events).is_none());

    // Replay the whole transfer, this time delivering the missing chunk last.
    let mut r = FileReassembler::new();
    let mut events = Vec::new();
    for (i, f) in frames.iter().enumerate() {
        if i == 2 || i == frames.len() - 1 {
            continue;
        }
        events.extend(r.push(f));
    }
    assert_eq!(r.progress().first_gap, Some(CAPTURED_CHUNK_BYTES));
    events.extend(r.push(&frames[2]));
    assert_eq!(r.progress().first_gap, None, "the hole closed");
    events.extend(r.push(&frames[frames.len() - 1]));
    assert_eq!(completed(&events).map(|f| f.data.clone()), Some(body));
}

/// Duplicates must not double-count, and out-of-order arrival must not shift a byte.
/// Both are INFERRED paths — every captured transfer is strictly ascending and gapless.
#[test]
fn duplicates_and_out_of_order_chunks_reassemble_correctly() {
    let (body, frames) = transfer(2_000, 0x02);
    let info = &frames[0];
    let end = &frames[frames.len() - 1];
    let data = &frames[1..frames.len() - 1];

    let mut r = FileReassembler::new();
    let mut events = r.push(info);
    // Reverse order, with every chunk sent twice.
    for f in data.iter().rev() {
        events.extend(r.push(f));
        events.extend(r.push(f));
    }
    assert_eq!(
        r.progress().received,
        2_000,
        "a duplicate adds no bytes to the count"
    );
    events.extend(r.push(end));
    assert_eq!(completed(&events).map(|f| f.data.clone()), Some(body));
}

/// A truncated transfer — the device stops before the tail and then closes.
#[test]
fn a_truncated_tail_is_reported_with_where_it_stopped() {
    let (_, frames) = transfer(2_000, 0x02);
    let mut r = FileReassembler::new();
    let mut events = Vec::new();
    for f in &frames[..frames.len() - 2] {
        events.extend(r.push(f));
    }
    events.extend(r.push(&frames[frames.len() - 1]));
    assert_eq!(
        aborts(&events),
        vec![FileAbort::Incomplete {
            received: 4 * CAPTURED_CHUNK_BYTES,
            declared_total: 2_000,
            first_gap: Some(4 * CAPTURED_CHUNK_BYTES),
        }]
    );
}

#[test]
fn a_corrupt_frame_does_not_strand_the_end_frame_behind_it() {
    let (body, frames) = transfer(1_000, 0x02);
    let mut r = FileReassembler::new();
    let mut events = Vec::new();
    for f in &frames[..frames.len() - 1] {
        events.extend(r.push(f));
    }
    // A checksum-corrupt frame immediately followed by the real end frame, in one chunk.
    let mut corrupt = encode_file_frame(FileOpcode::Data.code(), &[0, 0, 0, 0, 0xAA]);
    let n = corrupt.len();
    corrupt[n - 3] ^= 0xFF;
    let mut coalesced = corrupt.clone();
    coalesced.extend_from_slice(&frames[frames.len() - 1]);

    assert_eq!(
        decode_file_frame(&corrupt),
        Err(FileFrameError::ChecksumMismatch)
    );
    events.extend(r.push(&coalesced));
    assert_eq!(
        completed(&events).map(|f| f.data.clone()),
        Some(body),
        "the end frame behind the corrupt one must still be seen"
    );
}

/// A bad trailer is structural — the length pointed at the wrong place — and is caught
/// before the checksum so the two failures stay distinguishable.
#[test]
fn a_bad_trailer_is_its_own_failure_and_the_frame_is_still_consumed() {
    let mut f = encode_file_frame(FileOpcode::End.code(), &[0x00]);
    *f.last_mut().expect("non-empty") = 0x00;
    assert_eq!(decode_file_frame(&f), Err(FileFrameError::BadTrailer));

    let good = encode_file_frame(FileOpcode::Info.code(), &[0, 0, 0, 10, 0x02]);
    let mut stream = f;
    stream.extend_from_slice(&good);
    let mut r = FileReassembler::new();
    let events = r.push(&stream);
    assert_eq!(
        events,
        vec![FileEvent::Started {
            declared_total: 10,
            file_type: 0x02
        }],
        "the bad frame is dropped and the good one behind it still lands"
    );
    assert!(!r.has_buffered_frame_data());
}

#[test]
fn an_oversized_length_resyncs_instead_of_waiting_forever() {
    let mut stream = vec![0x52, 0x58, 0xFF, 0xFF]; // len = 65535
    stream.extend_from_slice(&encode_file_frame(
        FileOpcode::Info.code(),
        &[0, 0, 0, 4, 0x02],
    ));

    let mut r = FileReassembler::new();
    let events = r.push(&stream);
    assert!(
        matches!(events.first(), Some(FileEvent::Desynced { .. })),
        "{events:?}"
    );
    assert!(
        events.contains(&FileEvent::Started {
            declared_total: 4,
            file_type: 0x02
        }),
        "one bad length costs a resync, not the rest of the stream: {events:?}"
    );
    assert!(!r.has_buffered_frame_data());

    assert_eq!(
        decode_file_frame(&[0x52, 0x58, 0xFF, 0xFF, 0, 0, 0, 0]),
        Err(FileFrameError::BadLength)
    );
    assert_eq!(
        decode_file_frame(&[0x52, 0x58, 0x00, 0x01, 0, 0, 0, 0]),
        Err(FileFrameError::BadLength),
        "len < 2 cannot describe even a cmd and a checksum"
    );
}

/// Leading garbage is scanned past — and a lone `0x52` at the end of a notification is a
/// split header, not garbage, so it must survive to be completed by the next one.
#[test]
fn leading_garbage_resyncs_and_a_split_header_is_kept() {
    let good = encode_file_frame(FileOpcode::End.code(), &[0x00]);
    let mut stream = vec![0xDE, 0xAD, 0xBE, 0xEF];
    stream.extend_from_slice(&good);

    let mut r = FileReassembler::new();
    let events = r.push(&stream);
    assert_eq!(events.first(), Some(&FileEvent::Desynced { dropped: 4 }));

    let mut r = FileReassembler::new();
    assert_eq!(
        r.push(&[0x00, 0x52]),
        vec![FileEvent::Desynced { dropped: 1 }]
    );
    assert_eq!(
        r.buffered(),
        &[0x52],
        "the trailing 0x52 is half a header, not junk"
    );
    let events = r.push(&good[1..]);
    assert_eq!(
        aborts(&events),
        vec![FileAbort::NoFileInfo],
        "the frame completed"
    );
    assert!(!r.has_buffered_frame_data());
}

/// The buffer cannot grow without bound even under a flood of junk: the length cap plus the
/// resync mean a partial frame can never outlast the largest frame the wire can describe.
/// This is why there is no `Overflowed` case here and there is one on the control channel.
#[test]
fn the_framing_buffer_stays_bounded_under_junk() {
    let mut r = FileReassembler::new();
    for _ in 0..64 {
        r.push(&[0x52; 512]);
        assert!(r.buffered().len() <= FILE_FRAME_OVERHEAD + MAX_LENGTH_FIELD);
    }
    // …and a real frame after the flood still lands.
    let events = r.push(&encode_file_frame(
        FileOpcode::Info.code(),
        &[0, 0, 0, 4, 0x02],
    ));
    assert!(events.contains(&FileEvent::Started {
        declared_total: 4,
        file_type: 0x02
    }));
}

/// A `0x99` with no header cannot be checked and must not be delivered: there is no
/// declared size, and the type byte would be whatever the PREVIOUS transfer left behind.
#[test]
fn an_end_frame_with_no_header_is_reported_not_delivered() {
    let mut r = FileReassembler::new();
    let events = r.push(&encode_file_frame(FileOpcode::End.code(), &[0x00]));
    assert_eq!(aborts(&events), vec![FileAbort::NoFileInfo]);
    assert!(completed(&events).is_none());
}

#[test]
fn orphan_data_frames_allocate_nothing() {
    let mut r = FileReassembler::new();
    let mut p = 0x00FF_0000u32.to_be_bytes().to_vec();
    p.extend_from_slice(&[0xAB; 32]);
    let events = r.push(&encode_file_frame(FileOpcode::Data.code(), &p));
    assert!(events.is_empty(), "{events:?}");
    assert_eq!(r.progress(), TransferProgress::default());
}

#[test]
fn an_implausible_declared_size_never_opens_a_transfer() {
    for total in [0u32, (MAX_FILE_BYTES + 1) as u32, u32::MAX] {
        let mut r = FileReassembler::new();
        let mut p = total.to_be_bytes().to_vec();
        p.push(0x02);
        let events = r.push(&encode_file_frame(FileOpcode::Info.code(), &p));
        assert_eq!(
            aborts(&events),
            vec![FileAbort::ImplausibleSize {
                declared_total: total as usize
            }]
        );
        assert!(!r.progress().is_active());

        // A data frame behind it therefore has nothing to grow.
        let mut d = 0u32.to_be_bytes().to_vec();
        d.extend_from_slice(&[0x01; 16]);
        assert!(r
            .push(&encode_file_frame(FileOpcode::Data.code(), &d))
            .is_empty());
    }
}

#[test]
fn an_out_of_range_address_closes_the_transfer_without_losing_buffered_bytes() {
    let mut r = FileReassembler::new();
    r.push(&encode_file_frame(
        FileOpcode::Info.code(),
        &[0, 0, 0, 100, 0x02],
    ));

    let mut bad = 90u32.to_be_bytes().to_vec();
    bad.extend_from_slice(&[0xAA; 32]); // 90 + 32 = 122 > 100
                                        // Coalesce the offending frame with the start of the NEXT header, so a reset that
                                        // empties the byte buffer would eat it.
    let mut stream = encode_file_frame(FileOpcode::Data.code(), &bad);
    let next = encode_file_frame(FileOpcode::Info.code(), &[0, 0, 0, 4, 0x02]);
    stream.extend_from_slice(&next[..3]);

    let events = r.push(&stream);
    assert_eq!(
        aborts(&events),
        vec![FileAbort::OutOfRange {
            addr: 90,
            end: 122,
            declared_total: 100
        }]
    );
    assert_eq!(
        r.buffered(),
        &next[..3],
        "the next frame's prefix survives the abort"
    );
    let events = r.push(&next[3..]);
    assert!(events.contains(&FileEvent::Started {
        declared_total: 4,
        file_type: 0x02
    }));
}

#[test]
fn an_address_that_wraps_the_end_offset_is_rejected() {
    let mut r = FileReassembler::new();
    r.push(&encode_file_frame(
        FileOpcode::Info.code(),
        &[0, 0, 0, 100, 0x02],
    ));
    let mut p = u32::MAX.to_be_bytes().to_vec();
    p.extend_from_slice(&[0xAA; 32]);
    let events = r.push(&encode_file_frame(FileOpcode::Data.code(), &p));
    assert!(
        matches!(aborts(&events).as_slice(), [FileAbort::OutOfRange { .. }]),
        "{events:?}"
    );
}

#[test]
fn a_second_header_supersedes_the_transfer_in_flight() {
    let (_, frames) = transfer(2_000, 0x02);
    let mut r = FileReassembler::new();
    let mut events = Vec::new();
    for f in &frames[..3] {
        events.extend(r.push(f));
    }
    events.extend(r.push(&frames[0]));
    assert_eq!(
        aborts(&events),
        vec![FileAbort::Superseded {
            received: 2 * CAPTURED_CHUNK_BYTES,
            declared_total: 2_000
        }]
    );
    assert_eq!(r.progress().received, 0, "the new transfer starts empty");
}

#[test]
fn progress_tracks_genuinely_delivered_bytes_only() {
    let (_, frames) = transfer(2_000, 0x02);
    let mut r = FileReassembler::new();
    assert_eq!(r.progress(), TransferProgress::default());
    r.push(&frames[0]);
    assert_eq!(
        r.progress(),
        TransferProgress {
            received: 0,
            declared_total: 2_000,
            file_type: 0x02,
            first_gap: Some(0)
        }
    );
    // Skip the first chunk, deliver the second: 496 bytes present, but the file now spans
    // 992 bytes of buffer. Progress must report the former.
    r.push(&frames[2]);
    let p = r.progress();
    assert_eq!((p.received, p.first_gap), (CAPTURED_CHUNK_BYTES, Some(0)));
    assert!(p.is_active());
    r.reset();
    assert_eq!(r.progress(), TransferProgress::default());
}

/// The interval set the completeness check rests on.
#[test]
fn received_ranges_merge_overlaps_and_find_the_first_hole() {
    let mut s = ReceivedRanges::default();
    assert!(s.insert(10, 20));
    assert!(s.insert(0, 5));
    assert_eq!(s.covered(), 15);
    assert_eq!(s.first_gap(30), Some(5));
    assert!(s.insert(5, 10)); // abuts both neighbours — must fuse into one span
    assert_eq!(s.spans, vec![(0, 20)]);
    assert_eq!(s.covered(), 20);
    assert_eq!(s.first_gap(20), None);
    assert_eq!(s.first_gap(30), Some(20));
    assert!(s.insert(15, 18)); // wholly contained — no change
    assert_eq!(s.spans, vec![(0, 20)]);
    assert!(s.insert(7, 7)); // empty — ignored
    assert_eq!(s.spans, vec![(0, 20)]);
    assert!(s.insert(25, 30));
    assert!(s.insert(18, 27)); // bridges the two, absorbing both
    assert_eq!(s.spans, vec![(0, 30)]);
    assert_eq!(ReceivedRanges::default().first_gap(0), None);
}

/// The span count is driven straight off the wire, so it is capped. A stream that delivers
/// every other chunk makes one span per chunk; past the cap the transfer is abandoned
/// rather than tracked, and a span that FUSES with a neighbour never counts against it.
#[test]
fn the_received_span_count_is_capped() {
    let mut s = ReceivedRanges::default();
    for i in 0..MAX_RECEIVED_SPANS {
        assert!(
            s.insert(i * 4, i * 4 + 2),
            "span {i} is still inside the cap"
        );
    }
    assert_eq!(s.spans.len(), MAX_RECEIVED_SPANS);
    // A new hole is refused...
    assert!(!s.insert(MAX_RECEIVED_SPANS * 4, MAX_RECEIVED_SPANS * 4 + 2));
    assert_eq!(
        s.spans.len(),
        MAX_RECEIVED_SPANS,
        "and nothing was recorded"
    );
}

/// End to end: the cap ends the transfer with the outcome the `0x99` would have reported,
/// instead of letting a fragmented stream grow the span list without bound.
#[test]
fn a_pathologically_fragmented_transfer_is_abandoned() {
    let total = (MAX_RECEIVED_SPANS + 2) * 4;
    let mut r = FileReassembler::default();
    let mut info = (total as u32).to_be_bytes().to_vec();
    info.push(0x02);
    r.push(&encode_file_frame(FileOpcode::Info.code(), &info));

    let mut abort = None;
    for i in 0..=MAX_RECEIVED_SPANS {
        // Two bytes every four: every chunk opens a new hole and never fuses.
        let mut payload = ((i * 4) as u32).to_be_bytes().to_vec();
        payload.extend_from_slice(&[0xAA, 0xBB]);
        let events = r.push(&encode_file_frame(FileOpcode::Data.code(), &payload));
        if let Some(a) = aborts(&events).first() {
            abort = Some(*a);
            break;
        }
    }
    assert!(
        matches!(
            abort,
            Some(FileAbort::Incomplete { declared_total, first_gap: Some(2), .. })
                if declared_total == total
        ),
        "{abort:?}"
    );
    // The transfer is closed, so nothing is still being tracked.
    assert!(!r.progress().is_active());
}

/// The type byte is carried raw and the named values state their own evidence, so a caller
/// branching on a thumbnail type can see it is branching on something no device has sent.
#[test]
fn only_the_hd_image_type_is_capture_backed() {
    assert_eq!(FileKind::HdImage.evidence(), Evidence::Capture);
    assert_eq!(FileKind::ImageThumb.evidence(), Evidence::ClientOnly);
    assert_eq!(FileKind::VideoThumb.evidence(), Evidence::ClientOnly);
    assert_eq!(FileKind::from_code(0x02), Some(FileKind::HdImage));
    assert_eq!(FileKind::from_code(0x00), None);
    for (h, _, kind, _) in GOLDEN_INFO {
        assert_eq!(FileKind::from_code(*kind), Some(FileKind::HdImage), "{h}");
    }
}

/// The cmd bytes are shared with the voice channel and only the envelope tells them apart.
/// Stated as a test so that a future router keyed on the byte alone fails here.
#[test]
fn the_file_opcodes_collide_with_the_voice_opcodes_by_value() {
    assert_eq!(
        FileOpcode::Info.code(),
        DeviceUpload::VoiceUploadStart.code()
    );
    assert_eq!(FileOpcode::End.code(), DeviceUpload::VoiceUploadEnd.code());
    assert_eq!(FileOpcode::from_code(0x98), Some(FileOpcode::Data));
    assert_eq!(
        FileOpcode::from_code(0x46),
        None,
        "voice PCM is not a file frame"
    );
    // The envelopes do not accept each other's bytes.
    let file = hex(GOLDEN_END);
    assert_eq!(
        decode_device(&file),
        Err(DecodeError::BadHeader)
    );
    assert_eq!(
        decode_file_frame(&hex("ac55002a464b4105")),
        Err(FileFrameError::BadHeader)
    );
}

#[test]
fn short_input_is_too_short_rather_than_a_header_or_checksum_error() {
    assert_eq!(decode_file_frame(&[]), Err(FileFrameError::TooShort));
    assert_eq!(
        decode_file_frame(&[0x52, 0x58, 0x00, 0x03]),
        Err(FileFrameError::TooShort)
    );
    // Header and length present, body short: waiting can fix this.
    assert_eq!(
        decode_file_frame(&hex("5258000797000029")),
        Err(FileFrameError::Truncated)
    );
}

/// Arbitrary payload sizes round-trip. Not a substitute for the golden vectors — a
/// self-consistent codec can round-trip perfectly and still be wrong on the wire.
#[test]
fn reassembly_encode_decode_round_trips_across_payload_sizes() {
    for n in 0..=CAPTURED_CHUNK_BYTES + 8 {
        let data: Vec<u8> = (0..n).map(|i| (i as u8).wrapping_mul(37)).collect();
        let bytes = encode_file_frame(0x98, &data);
        assert_eq!(bytes.len(), FILE_FRAME_OVERHEAD + 1 + n + 1);
        assert_eq!(decode_file_frame(&bytes), Ok(Frame::new(0x98, data)));
    }
}

#[test]
fn draining_file_frames_in_two_pieces_is_draining_them_joined() {
    let stream = [
        vec![0x00, 0x01],
        encode_file_frame(0x97, &[0, 0, 0, 4, 0x02]),
        encode_file_frame(0x98, &[0, 0, 0, 0, 1, 2, 3, 4]),
        vec![0x52],
    ]
    .concat();
    let mut whole = stream.clone();
    let (joined, dropped) = drain_file_frames(&mut whole);
    assert_eq!((joined.len(), dropped, whole.as_slice()), (2, 2, &[0x52][..]));
    for cut in 0..=stream.len() {
        let mut rest = stream[..cut].to_vec();
        let (mut frames, first) = drain_file_frames(&mut rest);
        rest.extend_from_slice(&stream[cut..]);
        let (more, second) = drain_file_frames(&mut rest);
        frames.extend(more);
        assert_eq!(frames, joined, "cut at {cut}");
        assert_eq!(first + second, dropped, "cut at {cut}");
        assert_eq!(rest, whole, "cut at {cut}");
    }
}

#[test]
fn a_decoded_file_frame_encodes_to_the_bytes_it_came_from() {
    let bytes = hex(GOLDEN_END);
    let f = decode_file_frame(&bytes).unwrap();
    assert_eq!(encode_file_frame(f.cmd, &f.data), bytes);
    assert_eq!(decode_file_frame(&[&bytes[..], &[0x00]].concat()), Ok(f));
}

#[test]
fn chunks_of_uneven_sizes_in_any_order_give_the_file() {
    let body: Vec<u8> = (0..10u8).collect();
    let chunk = |from: usize, to: usize| {
        let mut p = (from as u32).to_be_bytes().to_vec();
        p.extend_from_slice(&body[from..to]);
        encode_file_frame(FileOpcode::Data.code(), &p)
    };
    let mut r = FileReassembler::new();
    r.push(&encode_file_frame(FileOpcode::Info.code(), &[0, 0, 0, 10, 0x01]));
    for (from, to) in [(7, 10), (0, 3), (2, 8), (0, 3)] {
        assert!(r.push(&chunk(from, to)).is_empty());
    }
    assert_eq!(
        r.push(&encode_file_frame(FileOpcode::End.code(), &[0x00])),
        vec![FileEvent::Completed(ReassembledFile { file_type: 0x01, data: body.clone() })]
    );
}

#[test]
fn an_incomplete_transfer_always_names_a_gap() {
    let mut r = FileReassembler::new();
    r.push(&encode_file_frame(FileOpcode::Info.code(), &[0, 0, 0, 10, 0x02]));
    r.push(&encode_file_frame(FileOpcode::Data.code(), &[0, 0, 0, 0, 1, 2, 3]));
    assert_eq!(
        aborts(&r.push(&encode_file_frame(FileOpcode::End.code(), &[0x00]))),
        vec![FileAbort::Incomplete { received: 3, declared_total: 10, first_gap: Some(3) }]
    );
}

#[test]
fn handling_a_frame_is_pushing_its_bytes() {
    let info = Frame::new(0x97, vec![0, 0, 0, 4, 0x02]);
    let mut a = FileReassembler::new();
    let mut b = FileReassembler::new();
    assert_eq!(a.handle_frame(&info), b.push(&encode_file_frame(info.cmd, &info.data)));
    assert_eq!(a.progress(), b.progress());
}

#[test]
fn each_way_a_file_frame_fails_to_decode_has_its_own_error() {
    let good = encode_file_frame(0x99, &[0x00]);
    assert_eq!(decode_file_frame(&good[..7]), Err(FileFrameError::TooShort));
    let mut f = good.clone();
    f[0] = 0x00;
    assert_eq!(decode_file_frame(&f), Err(FileFrameError::BadHeader));
    let mut f = good.clone();
    f[3] = 0x01;
    assert_eq!(decode_file_frame(&f), Err(FileFrameError::BadLength));
    let mut f = good.clone();
    f[3] = 0x04;
    assert_eq!(decode_file_frame(&f), Err(FileFrameError::Truncated));
    let mut f = good.clone();
    f[8] = 0x00;
    assert_eq!(decode_file_frame(&f), Err(FileFrameError::BadTrailer));
    let mut f = good.clone();
    f[6] ^= 0x01;
    assert_eq!(decode_file_frame(&f), Err(FileFrameError::ChecksumMismatch));
}

#[test]
fn a_new_span_at_the_cap_that_fuses_is_recorded() {
    let mut s = ReceivedRanges::default();
    for i in 0..MAX_RECEIVED_SPANS {
        assert!(s.insert(i * 4, i * 4 + 2));
    }
    assert!(s.insert(1, 4), "bridges the first two spans");
    assert_eq!(s.spans.len(), MAX_RECEIVED_SPANS - 1);
    assert_eq!(s.covered(), 2 * MAX_RECEIVED_SPANS + 2);
}

#[test]
fn a_header_supersedes_a_transfer_that_has_received_nothing() {
    let mut r = FileReassembler::new();
    assert_eq!(
        r.handle_frame(&Frame::new(0x97, vec![0, 0, 0, 10, 0x02])),
        vec![FileEvent::Started { declared_total: 10, file_type: 2 }]
    );
    assert_eq!(
        r.handle_frame(&Frame::new(0x97, vec![0, 0, 0, 4, 0x02])),
        vec![
            FileEvent::Aborted(FileAbort::Superseded { received: 0, declared_total: 10 }),
            FileEvent::Started { declared_total: 4, file_type: 2 },
        ]
    );
}

#[test]
fn as_many_scattered_pieces_as_there_may_be_runs_give_the_file() {
    let file: Vec<u8> = (0..MAX_RECEIVED_SPANS).map(|i| i as u8).collect();
    let mut total = (file.len() as u32).to_be_bytes().to_vec();
    total.push(0x02);
    let mut r = FileReassembler::new();
    r.handle_frame(&Frame::new(0x97, total));
    for start in [1, 0] {
        for at in (start..file.len()).step_by(2) {
            let mut data = (at as u32).to_be_bytes().to_vec();
            data.push(file[at]);
            assert!(r.handle_frame(&Frame::new(0x98, data)).is_empty());
            let p = r.progress();
            assert!(p.received <= p.declared_total);
        }
    }
    assert_eq!(
        r.handle_frame(&Frame::new(0x99, vec![0])),
        vec![FileEvent::Completed(ReassembledFile { file_type: 0x02, data: file })]
    );
}

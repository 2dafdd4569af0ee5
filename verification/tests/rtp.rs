//! RTP packets and the sequence tracker.

use luma_core::rtp::{HEADER_BYTES, RtpError, SequenceReport, SequenceTracker, WINDOW, parse};

/// One whole datagram from a live session: the STAP-A that opens every keyframe. 33 bytes,
/// which is the 12-byte header plus a 21-byte payload.
const LIVE_STAP_A: [u8; 33] = [
    0x80, 0x60, 0x81, 0x80, 0x00, 0x1A, 0x9E, 0x50, 0x7B, 0x7A, 0x79, 0x78, // header
    0x78, 0x00, 0x0C, 0x67, 0x4D, 0x00, 0x34, 0x96, 0x54, 0x03, 0x20, 0x12, 0xF4, 0x88, 0x08,
    0x00, 0x04, 0x68, 0xEE, 0x38, 0x80,
];

/// The packet after it — the first fragment of the IDR, same timestamp. Truncated here to
/// its first eight payload bytes; the full datagram was 1442 bytes.
const LIVE_FU_A_START: [u8; 22] = [
    0x80, 0x60, 0x81, 0x81, 0x00, 0x1A, 0x9E, 0x50, 0x7B, 0x7A, 0x79, 0x78, // header
    0x7C, 0x85, 0xB8, 0x04, 0x00, 0xFF, 0xFD, 0xE6, 0x0D, 0x27,
];

/// The last fragment of that same IDR — note `0xE0`: the marker bit is set here and on no
/// other packet of the frame. Truncated the same way.
const LIVE_FU_A_END: [u8; 22] = [
    0x80, 0xE0, 0x81, 0xAC, 0x00, 0x1A, 0x9E, 0x50, 0x7B, 0x7A, 0x79, 0x78, // header
    0x7C, 0x45, 0xF5, 0x35, 0xE9, 0xA3, 0xC4, 0xB4, 0x57, 0x6F,
];

/// The share of what should have arrived that did not.
fn loss_fraction(t: &SequenceTracker) -> f64 {
    let expected = t.received() + t.lost_estimate();
    if expected == 0 { 0.0 } else { t.lost_estimate() as f64 / expected as f64 }
}

#[test]
fn a_real_video_packet_parses_into_the_fields_the_depacketiser_needs() {
    let p = parse(&LIVE_STAP_A).expect("an RTP packet");
    assert_eq!(p.header.version, 2);
    assert!(!p.header.padding);
    assert!(!p.header.extension);
    assert_eq!(p.header.csrc_count, 0);
    assert!(!p.header.marker);
    assert_eq!(p.header.payload_type, 96);
    assert_eq!(p.header.sequence, 33_152);
    assert_eq!(p.header.timestamp, 1_744_464);
    assert_eq!(p.header.ssrc, 0x7B7A7978);
    assert_eq!(p.header.payload_offset, HEADER_BYTES);
    assert_eq!(p.payload.len(), 21);
    assert_eq!(p.payload[0], 0x78, "a STAP-A");
}

#[test]
fn the_marker_bit_is_set_on_the_last_packet_of_a_frame_and_not_before_it() {
    let start = parse(&LIVE_FU_A_START).unwrap();
    let end = parse(&LIVE_FU_A_END).unwrap();
    assert!(!start.header.marker);
    assert!(end.header.marker);
    // Same frame: same timestamp, same SSRC, consecutive-ish sequence.
    assert_eq!(start.header.timestamp, end.header.timestamp);
    assert_eq!(start.header.ssrc, end.header.ssrc);
    assert_eq!(end.header.sequence - start.header.sequence, 43);
}

#[test]
fn a_datagram_from_something_else_on_the_port_is_rejected_by_version() {
    assert_eq!(parse(&[0u8; 4]), Err(RtpError::TooShort { len: 4 }));
    let mut bad = LIVE_STAP_A;
    bad[0] = 0x40; // version 1
    assert_eq!(parse(&bad), Err(RtpError::BadVersion { version: 1 }));
}

#[test]
fn a_csrc_list_and_an_extension_are_both_skipped_to_find_the_payload() {
    // Synthetic — this server sends neither — built to the RFC so the offsets are pinned.
    let mut pkt = vec![0x82, 0x60, 0x00, 0x01, 0, 0, 0, 0, 0, 0, 0, 0]; // CC=2
    pkt.extend_from_slice(&[0xAA; 8]); // two CSRC entries
    pkt.extend_from_slice(b"payload");
    let p = parse(&pkt).unwrap();
    assert_eq!(p.header.csrc_count, 2);
    assert_eq!(p.payload, b"payload");

    let mut ext = vec![0x90, 0x60, 0x00, 0x01, 0, 0, 0, 0, 0, 0, 0, 0]; // X=1
    ext.extend_from_slice(&[0xBE, 0xDE, 0x00, 0x01, 1, 2, 3, 4]); // one 32-bit word
    ext.extend_from_slice(b"payload");
    let p = parse(&ext).unwrap();
    assert!(p.header.extension);
    assert_eq!(p.payload, b"payload");
    assert_eq!(parse(&ext[..14]), Err(RtpError::TruncatedExtension));
}

#[test]
fn padding_is_trimmed_and_a_lying_padding_length_is_refused() {
    let mut pkt = vec![0xA0, 0x60, 0x00, 0x01, 0, 0, 0, 0, 0, 0, 0, 0]; // P=1
    pkt.extend_from_slice(b"abc");
    pkt.extend_from_slice(&[0, 0, 3]); // three bytes of padding, count last
    let p = parse(&pkt).unwrap();
    assert_eq!(p.payload, b"abc");
    assert_eq!(p.header.padding_bytes, 3);

    let mut lying = pkt.clone();
    *lying.last_mut().unwrap() = 99;
    assert!(matches!(parse(&lying), Err(RtpError::BadPadding { .. })));
}

#[test]
fn a_clean_run_of_sequence_numbers_reports_no_loss() {
    let mut t = SequenceTracker::new();
    assert_eq!(t.observe(33_152), SequenceReport::First);
    for seq in 33_153..33_200 {
        assert_eq!(t.observe(seq), SequenceReport::InOrder);
    }
    assert_eq!(t.received(), 48);
    assert_eq!(t.lost_estimate(), 0);
    assert_eq!(loss_fraction(&t), 0.0);
    assert_eq!(t.highest(), Some(33_199));
}

#[test]
fn a_gap_is_counted_when_it_opens_and_retired_when_the_late_packet_lands() {
    let mut t = SequenceTracker::new();
    t.observe(10);
    assert_eq!(t.observe(13), SequenceReport::Lost { missing: 2 });
    assert_eq!(t.lost_estimate(), 2);
    assert_eq!(t.observe(11), SequenceReport::Reordered { behind: 2 });
    assert_eq!(t.observe(12), SequenceReport::Reordered { behind: 1 });
    assert_eq!(t.lost_estimate(), 0, "both gaps filled");
    assert_eq!(t.reordered(), 2);
    assert_eq!(t.observe(12), SequenceReport::Duplicate);
    assert_eq!(t.duplicates(), 1);
}

/// At 25 fps and a handful of packets per frame this wrap happens every few minutes. A
/// tracker that reads it as a forward jump reports 65,000 lost packets each time.
#[test]
fn the_sequence_number_wrapping_past_65535_is_not_loss() {
    let mut t = SequenceTracker::new();
    t.observe(65_534);
    assert_eq!(t.observe(65_535), SequenceReport::InOrder);
    assert_eq!(t.observe(0), SequenceReport::InOrder);
    assert_eq!(t.observe(1), SequenceReport::InOrder);
    assert_eq!(t.lost_estimate(), 0);
    assert_eq!(t.highest(), Some(1));
    // A number already seen across the wrap is a duplicate, not a 65,000-packet leap.
    assert_eq!(t.observe(65_535), SequenceReport::Duplicate);

    // And a genuinely late packet across the wrap is a reorder that retires its own gap.
    let mut t = SequenceTracker::new();
    t.observe(65_534);
    assert_eq!(t.observe(0), SequenceReport::Lost { missing: 1 });
    assert_eq!(t.observe(65_535), SequenceReport::Reordered { behind: 1 });
    assert_eq!(t.lost_estimate(), 0);
}

#[test]
fn loss_fraction_is_the_share_of_what_should_have_arrived() {
    let mut t = SequenceTracker::new();
    t.observe(0);
    t.observe(2); // one lost
    assert_eq!(t.received(), 2);
    assert_eq!(t.lost_estimate(), 1);
    assert!((loss_fraction(&t) - 1.0 / 3.0).abs() < 1e-9);
    t.reset();
    assert_eq!(loss_fraction(&t), 0.0);
    assert_eq!(t.highest(), None);
}

#[test]
fn a_number_at_the_edge_of_the_window_is_remembered() {
    let mut t = SequenceTracker::new();
    t.observe(100);
    t.observe(100 + WINDOW);
    assert_eq!(t.observe(100), SequenceReport::Duplicate);
    let mut t = SequenceTracker::new();
    t.observe(100);
    assert_eq!(t.observe(100), SequenceReport::Duplicate);
    assert_eq!(t.duplicates(), 1);
    assert_eq!(t.received(), 1);
}

#[test]
fn what_is_received_and_what_is_lost_make_up_the_span() {
    let mut t = SequenceTracker::default();
    for sequence in [10u16, 11, 15, 13, 12, 20] {
        t.observe(sequence);
    }
    assert_eq!(t.received() + t.lost_estimate(), 11, "10 to 20");
    assert_eq!(t.lost_estimate(), 5);
    assert_eq!(t.reordered(), 2);
    assert_eq!(t.highest(), Some(20));
}

#[test]
fn each_way_a_packet_is_refused_has_its_own_error_and_its_own_words() {
    let mut csrc = [0u8; 12];
    csrc[0] = 0x81;
    assert_eq!(parse(&csrc), Err(RtpError::TruncatedCsrc));
    let mut padded = [0u8; 12];
    padded[0] = 0xA0;
    assert_eq!(parse(&padded), Err(RtpError::BadPadding { stated: 0, available: 0 }));
    assert_eq!(RtpError::TooShort { len: 4 }.to_string(), "4 bytes, need 12");
    assert_eq!(RtpError::BadVersion { version: 1 }.to_string(), "RTP version 1, expected 2");
    assert_eq!(RtpError::TruncatedCsrc.to_string(), "CSRC list runs past the packet");
    assert_eq!(
        RtpError::TruncatedExtension.to_string(),
        "extension header runs past the packet"
    );
    assert_eq!(
        RtpError::BadPadding { stated: 9, available: 3 }.to_string(),
        "padding of 9 in 3 bytes"
    );
}

#[test]
fn a_number_from_before_the_first_retires_no_gap() {
    let mut t = SequenceTracker::new();
    assert_eq!(t.observe(10), SequenceReport::First);
    assert_eq!(t.observe(9), SequenceReport::Reordered { behind: 1 });
    assert_eq!(t.observe(12), SequenceReport::Lost { missing: 1 });
    assert_eq!(t.lost_estimate(), 1);
    assert_eq!(t.observe(8), SequenceReport::Reordered { behind: 4 });
    assert_eq!(t.lost_estimate(), 1);
    assert_eq!(t.observe(11), SequenceReport::Reordered { behind: 1 });
    assert_eq!(t.lost_estimate(), 0);
    assert_eq!(t.received(), 5);
}

#[test]
fn the_estimate_stays_at_zero() {
    let mut t = SequenceTracker::new();
    t.observe(100);
    for sequence in 101..=300u16 {
        assert_eq!(t.observe(sequence), SequenceReport::InOrder);
    }
    assert_eq!(t.observe(150), SequenceReport::Reordered { behind: 150 });
    assert_eq!(t.lost_estimate(), 0);
    assert_eq!(t.observe(302), SequenceReport::Lost { missing: 1 });
    assert_eq!(t.lost_estimate(), 1);
}

#[test]
fn a_step_back_of_half_the_number_space_fills_a_gap_once_the_stream_is_that_long() {
    let mut t = SequenceTracker::new();
    t.observe(0);
    t.observe(0x7FFF);
    t.observe(0x8001);
    assert_eq!(t.lost_estimate(), 0x7FFE + 1);
    assert_eq!(t.observe(1), SequenceReport::Reordered { behind: 0x8000 });
    assert_eq!(t.lost_estimate(), 0x7FFE);
}

//! The video depacketiser.

use luma_core::h264::{
    Depacketizer, DepacketizerStats, NAL_IDR, NAL_NON_IDR, NAL_PPS, NAL_SEI, NAL_SPS, PACKET_FU_A,
    PACKET_STAP_A, PAYLOAD_TYPE, START_CODE, is_keyframe_nal, is_parameter_set, nal_ref_idc,
    nal_type,
};

/// The STAP-A that opens a keyframe, cut whole from a live session. SPS (12 bytes) and PPS
/// (4 bytes) in one 33-byte datagram.
const LIVE_STAP_A: [u8; 33] = [
    0x80, 0x60, 0x81, 0x80, 0x00, 0x1A, 0x9E, 0x50, 0x7B, 0x7A, 0x79, 0x78, 0x78, 0x00, 0x0C,
    0x67, 0x4D, 0x00, 0x34, 0x96, 0x54, 0x03, 0x20, 0x12, 0xF4, 0x88, 0x08, 0x00, 0x04, 0x68,
    0xEE, 0x38, 0x80,
];

/// The three FU-A packets that carried the IDR after it, headers cut from the same session.
/// The fragment BODIES are truncated to eight bytes each so the vectors stay readable —
/// the real datagrams were 1442, 1442 and 1313 bytes. Every header byte is verbatim: the
/// sequence numbers, the shared 90 kHz timestamp, the S/E bits and the marker.
const LIVE_FU_START: [u8; 22] = [
    0x80, 0x60, 0x81, 0x81, 0x00, 0x1A, 0x9E, 0x50, 0x7B, 0x7A, 0x79, 0x78, 0x7C, 0x85, 0xB8,
    0x04, 0x00, 0xFF, 0xFD, 0xE6, 0x0D, 0x27,
];
const LIVE_FU_MIDDLE: [u8; 22] = [
    0x80, 0x60, 0x81, 0x82, 0x00, 0x1A, 0x9E, 0x50, 0x7B, 0x7A, 0x79, 0x78, 0x7C, 0x05, 0xC1,
    0x80, 0xDB, 0xD9, 0x6F, 0xC8, 0xD5, 0xCF,
];
const LIVE_FU_END: [u8; 22] = [
    0x80, 0xE0, 0x81, 0xAC, 0x00, 0x1A, 0x9E, 0x50, 0x7B, 0x7A, 0x79, 0x78, 0x7C, 0x45, 0xF5,
    0x35, 0xE9, 0xA3, 0xC4, 0xB4, 0x57, 0x6F,
];

#[test]
fn a_real_keyframe_arrives_as_one_access_unit_of_sps_pps_and_idr() {
    let mut d = Depacketizer::new();
    assert!(d.push(&LIVE_STAP_A).is_empty(), "no marker yet");
    assert!(d.push(&LIVE_FU_START).is_empty());
    assert!(d.push(&LIVE_FU_MIDDLE).is_empty());
    let units = d.push(&LIVE_FU_END);

    assert_eq!(units.len(), 1, "the marker bit closed exactly one picture");
    let au = &units[0];
    assert_eq!(au.timestamp, 1_744_464);
    assert_eq!(au.nal_types, vec![NAL_SPS, NAL_PPS, NAL_IDR]);
    assert!(au.is_keyframe());
    assert!(au.has_parameter_sets());
    assert!(au.is_decodable_start());
    assert!(au.closed_by_marker);
    assert!(d.keyframe_seen());

    // Annex B, four-byte start codes, SPS first.
    assert_eq!(&au.data[..4], &START_CODE);
    assert_eq!(au.data[4], 0x67);
    assert_eq!(&au.data[4..16], &LIVE_STAP_A[15..27], "the SPS, verbatim");
    assert_eq!(&au.data[16..20], &START_CODE);
    assert_eq!(&au.data[20..24], &[0x68, 0xEE, 0x38, 0x80], "the PPS");
    assert_eq!(&au.data[24..28], &START_CODE);
    assert_eq!(
        au.data[28], 0x65,
        "IDR, nal_ref_idc 3 — rebuilt from the FU bytes"
    );
    assert_eq!(nal_type(au.data[28]), NAL_IDR);
    assert_eq!(nal_ref_idc(au.data[28]), 3);

    // 8 body bytes from the start, 8 from the middle, 8 from the end, plus the header.
    let idr_len = au.data.len() - 28;
    assert_eq!(idr_len, 1 + 8 + 8 + 8);

    let s = d.stats();
    assert_eq!(s.access_units, 1);
    assert_eq!(s.keyframes, 1);
    assert_eq!(s.nal_units, 3);
    assert_eq!(s.dropped_fragments, 0);
    assert_eq!(s.unsupported_packets, 0);
}

#[test]
fn the_parameter_sets_are_kept_for_a_writer_that_joined_late() {
    let mut d = Depacketizer::new();
    d.push(&LIVE_STAP_A);
    let (sps, pps) = d.parameter_sets();
    assert_eq!(sps.unwrap()[0], 0x67);
    assert_eq!(pps.unwrap(), &[0x68, 0xEE, 0x38, 0x80]);
    assert_eq!(d.parameter_sets_annex_b().len(), 4 + 12 + 4 + 4);
}

#[test]
fn a_fragment_whose_start_was_lost_is_dropped_rather_than_emitted_headless() {
    let mut d = Depacketizer::new();
    d.push(&LIVE_STAP_A);
    // The S-bit packet never arrives.
    assert!(d.push(&LIVE_FU_MIDDLE).is_empty());
    let units = d.push(&LIVE_FU_END);
    assert_eq!(units.len(), 1);
    assert_eq!(
        units[0].nal_types,
        vec![NAL_SPS, NAL_PPS],
        "the slice is gone; the parameter sets are not"
    );
    assert!(!units[0].is_keyframe());
    assert!(!d.keyframe_seen(), "a writer must not start here");
    assert_eq!(d.stats().dropped_fragments, 2, "the middle and the end");
}

#[test]
fn a_single_nal_packet_becomes_one_annex_b_nal() {
    // Synthetic, built to RFC 6184: a 6-byte SEI as its own packet, marker set.
    let mut pkt = vec![0x80, 0xE0, 0x00, 0x01, 0x00, 0x00, 0x10, 0x00, 1, 2, 3, 4];
    pkt.extend_from_slice(&[0x06, 0x05, 0x01, 0xAA, 0x80]);
    let mut d = Depacketizer::new();
    let units = d.push(&pkt);
    assert_eq!(units.len(), 1);
    assert_eq!(units[0].nal_types, vec![NAL_SEI]);
    assert_eq!(
        units[0].data,
        [&START_CODE[..], &[0x06, 0x05, 0x01, 0xAA, 0x80]].concat()
    );
}

#[test]
fn a_lost_marker_still_closes_the_picture_when_the_timestamp_moves_on() {
    let mut d = Depacketizer::new();
    d.push(&LIVE_STAP_A);
    d.push(&LIVE_FU_START);
    // The E-bit/marker packet is lost, and the next picture starts.
    let mut next = LIVE_STAP_A;
    next[4..8].copy_from_slice(&1_748_064u32.to_be_bytes());
    let units = d.push(&next);
    assert_eq!(units.len(), 1);
    assert_eq!(units[0].timestamp, 1_744_464);
    assert!(!units[0].closed_by_marker);
    assert_eq!(d.stats().units_closed_without_marker, 1);
    assert_eq!(d.stats().dropped_fragments, 1, "the unfinished slice");
}

#[test]
fn a_packet_type_this_stream_never_sends_is_counted_and_not_decoded() {
    let mut d = Depacketizer::new();
    // FU-B (29) and a truncated STAP-A.
    let header = [0x80u8, 0x60, 0x00, 0x01, 0, 0, 0, 0, 0, 0, 0, 0];
    let mut fu_b = header.to_vec();
    fu_b.extend_from_slice(&[0x7D, 0x85, 0x00, 0x00, 0xAA]);
    assert!(d.push(&fu_b).is_empty());

    let mut short_stap = header.to_vec();
    short_stap.extend_from_slice(&[0x78, 0x00, 0xFF, 0x01]); // declares 255, has 1
    assert!(d.push(&short_stap).is_empty());

    assert!(d.push(b"hello").is_empty());
    assert_eq!(d.stats().unsupported_packets, 3);
    assert_eq!(d.stats().nal_units, 0);
}

#[test]
fn flush_hands_over_a_picture_whose_marker_never_came() {
    let mut d = Depacketizer::new();
    d.push(&LIVE_STAP_A);
    let au = d
        .flush()
        .expect("the parameter sets are still worth having");
    assert_eq!(au.nal_types, vec![NAL_SPS, NAL_PPS]);
    assert!(!au.closed_by_marker);
    assert!(d.flush().is_none(), "nothing left");
}

#[test]
fn the_nal_helpers_agree_with_the_constants() {
    assert_eq!(nal_type(0x67), NAL_SPS);
    assert_eq!(nal_type(0x68), NAL_PPS);
    assert_eq!(nal_type(0x65), NAL_IDR);
    assert_eq!(nal_type(0x41), NAL_NON_IDR);
    assert!(is_parameter_set(NAL_SPS) && is_parameter_set(NAL_PPS));
    assert!(!is_parameter_set(NAL_IDR));
    assert!(is_keyframe_nal(NAL_IDR) && !is_keyframe_nal(NAL_NON_IDR));
    assert_eq!(nal_ref_idc(0x67), 3);
    assert_eq!(nal_ref_idc(0x01), 0);
}

fn packet(sequence: u16, timestamp: u32, marker: bool, payload: &[u8]) -> Vec<u8> {
    let mut p = vec![0x80, PAYLOAD_TYPE | if marker { 0x80 } else { 0x00 }];
    p.extend_from_slice(&sequence.to_be_bytes());
    p.extend_from_slice(&timestamp.to_be_bytes());
    p.extend_from_slice(&[1, 2, 3, 4]);
    p.extend_from_slice(payload);
    p
}

#[test]
fn a_nal_cut_into_fragments_comes_back_whole() {
    let nal = [0x41u8, 10, 11, 12, 13, 14];
    let mut d = Depacketizer::new();
    let (indicator, kind) = (0x40 | PACKET_FU_A, NAL_NON_IDR);
    assert!(d.push(&packet(1, 9, false, &[indicator, 0x80 | kind, 10, 11])).is_empty());
    assert!(d.push(&packet(2, 9, false, &[indicator, kind, 12])).is_empty());
    let units = d.push(&packet(3, 9, true, &[indicator, 0x40 | kind, 13, 14]));
    assert_eq!(units.len(), 1);
    assert_eq!(units[0].data, [&START_CODE[..], &nal[..]].concat());
    assert_eq!(units[0].nal_types, vec![NAL_NON_IDR]);
    assert_eq!(units[0].len(), 10);
    assert!(!units[0].is_empty());
}

#[test]
fn aggregated_nals_come_back_one_by_one() {
    let payload = [PACKET_STAP_A, 0, 2, 0x67, 0xAA, 0, 1, 0x68, 0, 3, 0x65, 1, 2];
    let mut d = Depacketizer::new();
    let units = d.push(&packet(1, 9, true, &payload));
    assert_eq!(units.len(), 1);
    assert_eq!(units[0].nal_types, vec![NAL_SPS, NAL_PPS, NAL_IDR]);
    assert!(units[0].is_decodable_start());
    assert_eq!(d.stats().keyframes, 1);
    assert_eq!(d.stats().nal_units, 3);
}

#[test]
fn pictures_of_two_timestamps_do_not_mix() {
    let mut d = Depacketizer::new();
    assert!(d.push(&packet(1, 100, false, &[0x06, 1])).is_empty());
    let units = d.push(&packet(2, 200, true, &[0x06, 2]));
    assert_eq!(units.len(), 2);
    assert_eq!((units[0].timestamp, units[0].closed_by_marker), (100, false));
    assert_eq!(units[0].data, [&START_CODE[..], &[0x06, 1]].concat());
    assert_eq!((units[1].timestamp, units[1].closed_by_marker), (200, true));
    assert_eq!(units[1].data, [&START_CODE[..], &[0x06, 2]].concat());
    assert_eq!(d.stats().access_units, 2);
}

#[test]
fn another_payload_type_is_counted_and_not_decoded() {
    let mut d = Depacketizer::new();
    let mut p = packet(1, 9, true, &[0x06, 1]);
    p[1] = 0x80 | 97;
    assert!(d.push(&p).is_empty());
    assert_eq!(d.stats().unsupported_packets, 1);
}

#[test]
fn one_parameter_set_alone_is_no_start_for_a_writer() {
    let mut d = Depacketizer::new();
    d.push(&packet(1, 9, true, &[0x67, 1]));
    assert!(d.parameter_sets_annex_b().is_empty());
    d.push(&packet(2, 10, true, &[0x68, 2]));
    assert_eq!(
        d.parameter_sets_annex_b(),
        [&START_CODE[..], &[0x67, 1], &START_CODE[..], &[0x68, 2]].concat()
    );
}

#[test]
fn a_reset_drops_the_partial_picture_and_keeps_the_statistics() {
    let mut d = Depacketizer::default();
    assert_eq!(d.stats(), DepacketizerStats::default());
    d.push(&packet(1, 9, true, &[0x06, 1]));
    d.push(&packet(2, 10, false, &[0x06, 2]));
    d.reset();
    assert_eq!(d.flush(), None);
    assert_eq!(d.stats().access_units, 1);
}

#[test]
fn fragments_and_the_whole_nal_leave_the_same_state() {
    let nal = [0x67u8, 10, 11, 12, 13, 14];
    let (indicator, kind) = (0x60 | PACKET_FU_A, NAL_SPS);
    let mut cut = Depacketizer::new();
    let mut whole = Depacketizer::new();
    for d in [&mut cut, &mut whole] {
        assert!(d.push(&packet(1, 8, false, &[0x06, 1])).is_empty());
    }
    let mut units = cut.push(&packet(2, 9, false, &[indicator, 0x80 | kind, 10, 11]));
    assert_eq!(units.len(), 1, "the earlier picture");
    assert!(cut.push(&packet(3, 9, false, &[indicator, kind, 12])).is_empty());
    units.extend(cut.push(&packet(4, 9, true, &[indicator, 0x40 | kind, 13, 14])));
    assert_eq!(units, whole.push(&packet(2, 9, true, &nal)));
    assert_eq!(cut.stats(), whole.stats());
    cut.push(&packet(5, 10, true, &[0x68, 2]));
    whole.push(&packet(3, 10, true, &[0x68, 2]));
    assert_eq!(cut.parameter_sets_annex_b(), whole.parameter_sets_annex_b());
    assert_eq!(cut.flush(), None);
}

#[test]
fn one_packet_hands_over_at_most_two_pictures_made_of_nals() {
    let mut d = Depacketizer::new();
    let stap = [PACKET_STAP_A, 0, 1, 0x67, 0, 1, 0x68, 0, 0];
    for (i, marker) in [false, true, true, false, true].iter().enumerate() {
        let timestamp = (i as u32 + 1) / 2;
        let units = d.push(&packet(i as u16, timestamp, *marker, &stap));
        assert!(units.len() <= 2);
        for (k, unit) in units.iter().enumerate() {
            assert!(!unit.nal_types.is_empty());
            assert_eq!(unit.closed_by_marker, unit.timestamp == timestamp);
            assert!(!unit.closed_by_marker || (k + 1 == units.len() && *marker));
        }
        if *marker {
            assert_eq!(d.flush(), None);
        }
    }
}

#[test]
fn the_statistics_count_what_every_kind_of_call_hands_over() {
    let mut d = Depacketizer::new();
    let mut pushed = d.push(&packet(1, 1, false, &[0x67, 1]));
    pushed.extend(d.push(&packet(2, 1, false, &[0x68, 2])));
    let stap = [PACKET_STAP_A, 0, 2, 0x65, 9];
    pushed.extend(d.push(&packet(3, 1, true, &stap)));
    pushed.extend(d.push(&packet(4, 2, false, &[0x65, 3])));
    let next = packet(5, 3, false, &[0x41, 4]);
    let parsed = luma_core::rtp::parse(&next).unwrap();
    pushed.extend(d.push_payload(&parsed.header, &[0x41, 4]));
    let flushed = d.flush().unwrap();
    d.push(&packet(6, 4, false, &[0x41, 5]));
    d.reset();
    assert_eq!(d.flush(), None);
    let stats = d.stats();
    assert_eq!(pushed.len(), 2);
    assert_eq!(stats.access_units, 3);
    assert_eq!(stats.bytes as usize, pushed[0].len() + pushed[1].len() + flushed.len());
    assert_eq!(stats.keyframes, 2);
    assert_eq!(stats.units_closed_without_marker, 1, "the flushed picture is not among them");
    assert!(!flushed.closed_by_marker);
    assert!(d.keyframe_seen());
}

//! Decoded voice and its file forms.

use luma_core::client::opus::{
    MAX_SAMPLES_PER_PACKET, MAX_WAV_DATA_BYTES, OpusError, SAMPLES_PER_FRAME, WAV_HEADER_BYTES,
    join_decoded, packet_dump, wav_bytes,
};
use luma_core::voice::{REQUESTED_SAMPLE_RATE_HZ, VoicePacket};

/// The WAV header is arithmetic and is checkable with no audio at all.
#[test]
fn the_wav_header_describes_sixteen_bit_mono_at_sixteen_kilohertz() {
    let pcm: Vec<i16> = (0..1600).map(|i| (i % 32767) as i16).collect();
    let w = wav_bytes(&pcm, REQUESTED_SAMPLE_RATE_HZ).unwrap();
    assert_eq!(&w[0..4], b"RIFF");
    assert_eq!(&w[8..12], b"WAVE");
    assert_eq!(&w[12..16], b"fmt ");
    assert_eq!(u32::from_le_bytes(w[16..20].try_into().unwrap()), 16);
    assert_eq!(u16::from_le_bytes(w[20..22].try_into().unwrap()), 1, "PCM");
    assert_eq!(u16::from_le_bytes(w[22..24].try_into().unwrap()), 1, "mono");
    assert_eq!(u32::from_le_bytes(w[24..28].try_into().unwrap()), 16_000);
    assert_eq!(u32::from_le_bytes(w[28..32].try_into().unwrap()), 32_000);
    assert_eq!(u16::from_le_bytes(w[32..34].try_into().unwrap()), 2);
    assert_eq!(u16::from_le_bytes(w[34..36].try_into().unwrap()), 16);
    assert_eq!(&w[36..40], b"data");
    assert_eq!(u32::from_le_bytes(w[40..44].try_into().unwrap()), 3200);
    assert_eq!(w.len(), 44 + 3200);
    assert_eq!(
        u32::from_le_bytes(w[4..8].try_into().unwrap()) as usize,
        w.len() - 8
    );
}

#[test]
fn one_second_of_audio_is_fifty_packets_of_three_hundred_and_twenty_samples() {
    assert_eq!(SAMPLES_PER_FRAME, 320);
    assert_eq!(SAMPLES_PER_FRAME * 50, REQUESTED_SAMPLE_RATE_HZ as usize);
    assert_eq!(MAX_SAMPLES_PER_PACKET, 1920, "120 ms, the Opus maximum");
}

#[test]
fn a_refused_packet_costs_itself_and_not_the_capture() {
    let outcomes = vec![Some(vec![1i16, -2]), None, Some(vec![3])];
    assert_eq!(join_decoded(&outcomes), (vec![1, -2, 3], 1));
    assert_eq!(join_decoded(&vec![]), (vec![], 0));
}

#[test]
fn a_wav_gives_its_samples_back() {
    let samples = [0i16, 1, -1, i16::MAX, i16::MIN];
    let w = wav_bytes(&samples, 8_000).unwrap();
    assert_eq!(w.len(), WAV_HEADER_BYTES + 2 * samples.len());
    let read: Vec<i16> =
        w[44..].chunks(2).map(|c| i16::from_le_bytes([c[0], c[1]])).collect();
    assert_eq!(read, samples);
    assert_eq!(MAX_WAV_DATA_BYTES, u32::MAX as usize - 36);
}

#[test]
fn a_dump_has_one_line_for_each_packet() {
    let packet = |payload: Vec<u8>| VoicePacket { payload, toc: None, index: 0 };
    let packets = [packet(vec![0x4B, 0x0A, 0xFF]), packet(vec![]), packet(vec![0x00; 10])];
    assert_eq!(packet_dump(&packets), "3 4b0aff\n0 \n10 00000000000000000000\n");
}

#[test]
fn each_codec_error_has_its_own_words() {
    assert_eq!(OpusError::Codec { detail: "bad".into() }.to_string(), "opus: bad");
    assert_eq!(OpusError::Io { detail: "full".into() }.to_string(), "wav: full");
    assert_eq!(
        OpusError::TooLong { samples: 7 }.to_string(),
        "7 samples will not fit a WAV"
    );
}

//! The audio depacketiser.

use luma_core::aac::{
    ADTS_HEADER_BYTES, AacError, AuHeader, AuHeaderConfig, AudioSpecificConfig, CONFIG_1408,
    Depacketizer, MAX_ADTS_FRAME_BYTES, SAMPLES_PER_FRAME, SAMPLE_RATES, adts_frame,
    adts_frame_length, adts_header, depacketize, parse_audio_specific_config, parse_config_hex,
};
use luma_core::sdp::Fmtp;

/// The `config=` value from the live SDP. Everything else about this track follows from it.
#[test]
fn config_1408_is_aac_lc_sixteen_kilohertz_mono() {
    let c = parse_config_hex("1408").expect("a config");
    assert_eq!(c.object_type, 2, "AAC-LC");
    assert_eq!(c.sampling_frequency_index, 8);
    assert_eq!(c.sample_rate_hz, 16_000);
    assert_eq!(c.channel_configuration, 1, "mono");
    assert_eq!(c, AudioSpecificConfig::glasses());
    assert_eq!(u16::from_be_bytes([0x14, 0x08]), CONFIG_1408);
    let frame_duration_secs = SAMPLES_PER_FRAME as f64 / c.sample_rate_hz as f64;
    assert!((frame_duration_secs - 0.064).abs() < 1e-9);
}

#[test]
fn the_header_widths_come_out_of_the_live_fmtp_line_despite_its_lower_case_keys() {
    let fmtp = Fmtp::parse(
        "profile-level-id=1; mode=AAC-hbr; config=1408; sizeLength=13; indexlength=3; indexdeltalength=3",
    );
    assert_eq!(
        AuHeaderConfig::from_fmtp(&fmtp),
        Some(AuHeaderConfig::glasses())
    );
    assert_eq!(AuHeaderConfig::glasses().first_header_bits(), 16);
    assert_eq!(AuHeaderConfig::glasses().later_header_bits(), 16);
    assert_eq!(AuHeaderConfig::default(), AuHeaderConfig::glasses());
}

fn rtp_audio(frames: &[&[u8]]) -> Vec<u8> {
    let cfg = AuHeaderConfig::glasses();
    let mut payload = Vec::new();
    let bits = (frames.len() as u32) * cfg.first_header_bits();
    payload.extend_from_slice(&(bits as u16).to_be_bytes());
    for (i, f) in frames.iter().enumerate() {
        // 13 bits of size then 3 bits of index/delta, big-endian, packing to 16 bits.
        let word = ((f.len() as u16) << 3) | if i == 0 { 0 } else { 1 };
        payload.extend_from_slice(&word.to_be_bytes());
    }
    for f in frames {
        payload.extend_from_slice(f);
    }
    let mut pkt = vec![
        0x80, 0xE1, 0x00, 0x0A, 0x00, 0x00, 0x04, 0x00, 0x11, 0x22, 0x33, 0x44,
    ];
    pkt.extend_from_slice(&payload);
    pkt
}

#[test]
fn one_access_unit_in_a_packet_comes_back_as_one_frame() {
    let frame = [0x21u8, 0x1A, 0x8F, 0x40, 0x00, 0x7C];
    let pkt = rtp_audio(&[&frame]);
    let p = luma_core::rtp::parse(&pkt).unwrap();
    assert_eq!(p.header.payload_type, 97);
    assert_eq!(
        &p.payload[..2],
        &[0x00, 0x10],
        "16 BITS of AU header, not 16 bytes"
    );

    let (headers, frames) = depacketize(p.payload, &AuHeaderConfig::glasses()).unwrap();
    assert_eq!(headers, vec![AuHeader { size: 6, index: 0 }]);
    assert_eq!(frames, vec![&frame[..]]);
}

#[test]
fn several_access_units_in_one_packet_split_at_the_declared_sizes() {
    let a = [0x01u8, 0x02, 0x03];
    let b = [0x04u8; 5];
    let c = [0x05u8; 2];
    let pkt = rtp_audio(&[&a, &b, &c]);
    let mut d = Depacketizer::new();
    let frames = d.push(&pkt);
    assert_eq!(frames, vec![a.to_vec(), b.to_vec(), c.to_vec()]);
    assert_eq!(d.frames(), 3);
    assert_eq!(d.bytes(), 10);
    assert_eq!(d.errors(), 0);
}

/// The bits/bytes confusion, stated as a test: a client that writes the field in BYTES
/// produces a payload this parser refuses rather than one it mis-frames.
#[test]
fn a_headers_length_written_in_bytes_instead_of_bits_is_refused() {
    let frame = [0xAAu8; 6];
    let mut pkt = rtp_audio(&[&frame]);
    assert_eq!(
        &pkt[12..14],
        &[0x00, 0x10],
        "16 bits is what a correct writer sends"
    );
    pkt[12] = 0x00;
    pkt[13] = 0x02; // "two bytes", which reads as two BITS
    assert!(matches!(
        depacketize(&pkt[12..], &AuHeaderConfig::glasses()),
        Err(AacError::BadAuHeadersLength { bits: 2, .. })
    ));
}

#[test]
fn a_payload_that_promises_more_data_than_it_carries_is_an_error() {
    let cfg = AuHeaderConfig::glasses();
    // One header declaring 4096 bytes, four bytes present.
    let payload = [0x00, 0x10, 0x80, 0x00, 1, 2, 3, 4];
    assert_eq!(
        depacketize(&payload, &cfg),
        Err(AacError::TruncatedAu {
            declared: 4096,
            available: 4
        })
    );
    assert_eq!(depacketize(&[0x00], &cfg), Err(AacError::PayloadTooShort));
    assert!(matches!(
        depacketize(&[0xFF, 0xFF, 0x00], &cfg),
        Err(AacError::BadAuHeadersLength { .. })
    ));
    assert_eq!(
        depacketize(
            &payload,
            &AuHeaderConfig {
                size_length: 0,
                ..cfg
            }
        ),
        Err(AacError::ZeroSizeLength)
    );
}

#[test]
fn a_stray_datagram_on_the_audio_port_is_counted_and_not_decoded() {
    let mut d = Depacketizer::new();
    assert!(d.push(b"not rtp").is_empty());
    assert_eq!(d.errors(), 1);
    assert_eq!(d.frames(), 0);
}

/// The header that makes a raw frame into a file a player will open.
#[test]
fn the_adts_header_describes_the_frame_plus_itself() {
    let frame = [0u8; 100];
    let h = adts_header(&AudioSpecificConfig::glasses(), frame.len()).unwrap();
    assert_eq!(h[0], 0xFF);
    assert_eq!(h[1], 0xF1, "MPEG-4, layer 0, no CRC");
    // profile 1 (AAC-LC), freq index 8, channel 1.
    assert_eq!(h[2] >> 6, 1);
    assert_eq!((h[2] >> 2) & 0x0F, 8);
    assert_eq!(((h[2] & 0x01) << 2) | (h[3] >> 6), 1);
    assert_eq!(adts_frame_length(&h), Some(107), "100 + 7");
    let framed = adts_frame(&AudioSpecificConfig::glasses(), &frame).unwrap();
    assert_eq!(framed.len(), 107);
    assert_eq!(&framed[..7], &h);
}

#[test]
fn a_frame_too_long_for_the_thirteen_bit_length_field_is_refused() {
    assert_eq!(
        adts_header(&AudioSpecificConfig::glasses(), MAX_ADTS_FRAME_BYTES),
        Err(AacError::FrameTooLarge {
            len: MAX_ADTS_FRAME_BYTES
        })
    );
    assert!(adts_header(&AudioSpecificConfig::glasses(), MAX_ADTS_FRAME_BYTES - 7).is_ok());
}

#[test]
fn a_config_this_crate_will_not_guess_at_is_refused() {
    assert_eq!(parse_config_hex("14"), Err(AacError::UnsupportedConfig));
    assert_eq!(parse_config_hex("zzzz"), Err(AacError::UnsupportedConfig));
    // Frequency index 15 is the "explicit rate follows" escape.
    assert_eq!(
        parse_audio_specific_config(&[0x17, 0x88]),
        Err(AacError::UnsupportedConfig)
    );
}

#[test]
fn the_length_of_every_framed_size_reads_back() {
    for len in [0usize, 1, 100, 1024, MAX_ADTS_FRAME_BYTES - ADTS_HEADER_BYTES] {
        let h = adts_header(&AudioSpecificConfig::glasses(), len).unwrap();
        assert_eq!(adts_frame_length(&h), Some(len + ADTS_HEADER_BYTES));
    }
    assert_eq!(adts_frame_length(&[0xFF, 0xF1]), None);
    assert_eq!(adts_frame_length(&[0u8; 7]), None);
}

#[test]
fn frames_of_any_sizes_come_back() {
    let frames: [&[u8]; 4] = [&[], &[1], &[2; 300], &[3; 7]];
    let mut d = Depacketizer::with_config(AuHeaderConfig::glasses());
    let got = d.push(&rtp_audio(&frames));
    assert_eq!(got, frames.iter().map(|f| f.to_vec()).collect::<Vec<_>>());
    assert_eq!(d.config(), AuHeaderConfig::default());
}

#[test]
fn each_error_has_its_own_words() {
    assert_eq!(
        AacError::PayloadTooShort.to_string(),
        "payload shorter than the AU-headers-length"
    );
    assert_eq!(
        AacError::BadAuHeadersLength { bits: 2, payload_len: 10 }.to_string(),
        "AU-headers-length 2 bits does not fit 10 bytes"
    );
    assert_eq!(
        AacError::TruncatedAu { declared: 4096, available: 4 }.to_string(),
        "AU headers declare 4096 bytes, 4 present"
    );
    assert_eq!(
        AacError::FrameTooLarge { len: 8191 }.to_string(),
        "8191 bytes will not fit an ADTS frame"
    );
    assert_eq!(AacError::UnsupportedConfig.to_string(), "unsupported AudioSpecificConfig");
    assert_eq!(AacError::ZeroSizeLength.to_string(), "sizeLength is zero");
}

#[test]
fn a_config_that_is_not_hexadecimal_text_is_refused() {
    assert_eq!(parse_config_hex("1é8"), Err(AacError::UnsupportedConfig));
    assert_eq!(parse_config_hex("14-8"), Err(AacError::UnsupportedConfig));
    assert_eq!(parse_config_hex("14+8"), parse_config_hex("1408"));
    assert!(parse_config_hex("14+8").is_ok());
    assert_eq!(parse_config_hex(""), Err(AacError::UnsupportedConfig));
    assert_eq!(parse_config_hex("1210").map(|c| c.sample_rate_hz), Ok(SAMPLE_RATES[4]));
}

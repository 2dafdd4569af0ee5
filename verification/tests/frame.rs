//! The control framing, on captured bytes.

use luma_core::frame::{
    APP_HEADER, DEVICE_HEADER, DecodeError, Deframer, FRAME_OVERHEAD, Frame, MAX_LENGTH_FIELD,
    Residual, checksum, decode_app, decode_device, drain, encode, encode_command, encode_device,
    is_partial_frame_prefix,
};
use luma_core::opcodes::{AppCommand, DeviceUpload, GestureSlot};

fn hex(s: &str) -> Vec<u8> {
    assert!(
        s.len() % 2 == 0,
        "hex literal must be byte-aligned"
    );
    (0..s.len() / 2)
        .map(|i| u8::from_str_radix(&s[i * 2..i * 2 + 2], 16).expect("valid hex"))
        .collect()
}

const DEFAULT_ATT_WRITE_PAYLOAD: usize = 20; // MTU 23 − 3 bytes of ATT header

const GOLDEN_DEVICE: &[(&str, u8, &[u8], &str)] = &[
    (
        "ac550006950000040ba4",
        0x95,
        &[0x00, 0x00, 0x04, 0x0B],
        "capability push, unsolicited ~30ms after link-up; identical on 6 units",
    ),
    (
        "ac550009550104080103010269",
        0x55,
        &[0x01, 0x04, 0x08, 0x01, 0x03, 0x01, 0x02],
        "versions: bt V1.4.8 / isp V1.3.1 / hw V2",
    ),
    (
        "ac55000a645431000030333033af",
        0x64,
        &[0x54, 0x31, 0x00, 0x00, 0x30, 0x33, 0x30, 0x33],
        "project name \"T1\" + customer \"0303\", 4 ASCII bytes each",
    ),
    (
        "ac55000f2544482d5477492d34363431453467",
        0x25,
        b"DH-TwI-4641E4",
        "SoftAP SSID, ~2.5s after 0x39/0x67",
    ),
    (
        "ac55000c450000000000000000000045",
        0x45,
        &[0; 10],
        "action sync, ten bytes",
    ),
    (
        "ac550005173a300182",
        0x17,
        &[0x3A, 0x30, 0x01],
        "battery 100%: ASCII digits overflow '9'+1 = 0x3A, charging",
    ),
    (
        "ac5500051734390185",
        0x17,
        &[0x34, 0x39, 0x01],
        "battery 49% — the same field, in range",
    ),
    (
        "ac55000453013185",
        0x53,
        &[0x01, 0x31],
        "battery push: charging + RAW 49, not ASCII like 0x17",
    ),
    (
        "ac55000402003c3e",
        0x02,
        &[0x00, 0x3C],
        "record duration 60s — 2-byte BE, the one non-ASCII burst value",
    ),
    (
        "ac550005690607067c",
        0x69,
        &[0x06, 0x07, 0x06],
        "volumes [system, media, call] after three 0x70 writes of 06/07/06",
    ),
    ("ac550003970198", 0x97, &[0x01], "wake-word capture started"),
    (
        "ac550003670168",
        0x67,
        &[0x01],
        "openWiFi-live ack — note the echo is 01, NOT the 0x30 we sent",
    ),
    (
        "ac55000442000f51",
        0x42,
        &[0x00, 0x0F],
        "thumbnail count 15, 2-byte BE",
    ),
];

/// The `0x48` switch-state burst as captured, in order — ten frames, no `0x48` among
/// them. Kept separate from `GOLDEN_DEVICE` because its value is the SEQUENCE.
const GOLDEN_BURST: &[(&str, u8, &[u8])] = &[
    ("ac550003013132", 0x01, b"1"),
    ("ac55000402003c3e", 0x02, &[0x00, 0x3C]),
    ("ac550003043135", 0x04, b"1"),
    ("ac550003063137", 0x06, b"1"),
    ("ac550003073037", 0x07, b"0"),
    ("ac550003083139", 0x08, b"1"),
    ("ac55000309323b", 0x09, b"2"),
    ("ac550003103444", 0x10, b"4"),
    ("ac550003113344", 0x11, b"3"),
    ("ac550003613091", 0x61, b"0"),
];

/// Real outbound frames from the same captures.
const GOLDEN_APP: &[(&str, u8, &[u8], &str)] = &[
    (
        "ab550008591a071b122812e1",
        0x59,
        &[0x1A, 0x07, 0x1B, 0x12, 0x28, 0x12],
        "phone time 2026-07-27 18:40:18 — plain hex, NOT BCD",
    ),
    (
        "ab550003640064",
        0x64,
        &[0x00],
        "project-name read, 0x00 filler",
    ),
    ("ab550003170017", 0x17, &[0x00], "battery read, 0x00 filler"),
    (
        "ab550003673097",
        0x67,
        &[0x30],
        "openWiFi LIVE, AP mode (GlassX)",
    ),
    ("ab550003393069", 0x39, &[0x30], "openWiFi FILES, AP mode"),
    (
        "ab55000470010778",
        0x70,
        &[0x01, 0x07],
        "set media volume to 7",
    ),
    (
        "ab55000444300175",
        0x44,
        &[0x30, 0x01],
        "ISP off without clearing the count",
    ),
    (
        "ab5500040200b4b6",
        0x02,
        &[0x00, 0xB4],
        "record duration 180s",
    ),
];

/// The load-bearing test: every golden capture frame decodes to the stated cmd/data AND
/// re-encodes to the original bytes. Round-tripping in both directions is what pins the
/// length and checksum BOUNDARIES — a decoder that includes the header in the checksum,
/// or counts the header in `len`, passes a decode-only test on `00`-payload frames and
/// fails here on the first multi-byte one.
#[test]
fn every_captured_device_frame_decodes_and_re_encodes_byte_for_byte() {
    for (h, cmd, data, why) in GOLDEN_DEVICE {
        let bytes = hex(h);
        let got = decode_device(&bytes).unwrap_or_else(|e| panic!("{h} ({why}): {e:?}"));
        assert_eq!(got.cmd, *cmd, "{why}");
        assert_eq!(got.data, *data, "{why}");
        assert_eq!(encode_device(got.cmd, &got.data), bytes, "{why}");
    }
}

#[test]
fn every_captured_app_frame_decodes_and_re_encodes_byte_for_byte() {
    for (h, cmd, data, why) in GOLDEN_APP {
        let bytes = hex(h);
        let got = decode_app(&bytes).unwrap_or_else(|e| panic!("{h} ({why}): {e:?}"));
        assert_eq!(got.cmd, *cmd, "{why}");
        assert_eq!(got.data, *data, "{why}");
        assert_eq!(encode(got.cmd, &got.data), bytes, "{why}");
    }
}

#[test]
fn the_captured_switch_state_burst_carries_all_five_gesture_slots() {
    let mut deframer = Deframer::device();
    let mut all = Vec::new();
    for (h, cmd, data) in GOLDEN_BURST {
        let bytes = hex(h);
        let f = decode_device(&bytes).expect("burst frame decodes");
        assert_eq!((f.cmd, f.data.as_slice()), (*cmd, *data), "{h}");
        all.extend_from_slice(&bytes);
    }
    // …and the whole burst, concatenated as one blob, demuxes back into ten frames.
    let frames = deframer.push(&all);
    assert_eq!(frames.len(), 10);
    assert!(deframer.buffered().is_empty());

    let slots: Vec<u8> = frames
        .iter()
        .filter(|f| GestureSlot::from_code(f.cmd).is_some())
        .map(|f| f.data[0])
        .collect();
    assert_eq!(
        slots,
        GestureSlot::CAPTURED_DEFAULTS,
        "the '0 1 2 4 3' default"
    );
    // No frame in the burst is keyed 0x48 — the request opcode never comes back.
    assert!(!frames.iter().any(|f| f.cmd == 0x48));
}

/// A real 0x46 voice frame: `len = 0x2A` = 42 = 1 cmd + 40 data + 1 checksum, arriving as
/// a 46-byte notification. the captures hold 15,085 of these, and they are the reason the
/// hot path must not allocate per byte.
#[test]
fn a_captured_voice_frame_has_forty_payload_bytes() {
    let bytes = hex(
        "ac55002a464b411e07c972430d80b6000000000000000000000000000000000000\
         000000000000000000000000b8",
    );
    assert_eq!(bytes.len(), FRAME_OVERHEAD + 0x2A);
    let f = decode_device(&bytes).expect("voice frame decodes");
    assert_eq!(f.cmd, DeviceUpload::VoiceData.code());
    assert_eq!(f.data.len(), 40);
    assert_eq!(encode_device(f.cmd, &f.data), bytes);
}

/// `len` excludes the header; the checksum excludes the header AND the length. Asserted
/// on a capture frame with a multi-byte payload, where both boundaries are visible.
#[test]
fn frame_length_and_checksum_boundaries_are_where_the_captures_put_them() {
    let bytes = hex("ac55000a645431000030333033af");
    let len = ((bytes[2] as usize) << 8) | bytes[3] as usize;
    assert_eq!(len, 10, "cmd + 8 data + checksum");
    assert_eq!(
        bytes.len(),
        FRAME_OVERHEAD + len,
        "header is NOT counted in len"
    );
    // Checksum covers cmd + data only.
    assert_eq!(checksum(0x64, &bytes[5..13]), 0xAF);
    assert_eq!(*bytes.last().unwrap(), 0xAF);
    // Including the header would give a different byte — proof the boundary matters.
    assert_ne!(checksum(0xAC, &bytes[1..13]), 0xAF);
}

#[test]
fn an_empty_payload_becomes_the_protocol_mandated_filler_byte() {
    assert_eq!(encode(0x17, &[]), hex("ab550003170017"));
    assert_eq!(encode(0x17, &[0x00]), hex("ab550003170017"));
    assert_eq!(
        encode_command(AppCommand::GetBattery, &[]),
        hex("ab550003170017")
    );
    // The filler is a real data byte, so it survives the round trip.
    assert_eq!(decode_app(&encode(0x17, &[])).unwrap().data, vec![0x00]);
}

#[test]
fn frames_survive_being_coalesced_and_split_arbitrarily() {
    let a = hex("ac550003970198");
    let b = hex("ac550006950000040ba4");
    let c = hex("ac55000442000f51");
    let stream: Vec<u8> = [a.clone(), b.clone(), c.clone()].concat();

    // All three in one notification.
    let mut d = Deframer::device();
    let frames = d.push(&stream);
    assert_eq!(frames.len(), 3);
    assert_eq!(frames[0].cmd, 0x97);
    assert_eq!(frames[2].data, vec![0x00, 0x0F]);

    // The same stream split at every possible boundary yields the same three frames.
    for cut in 1..stream.len() {
        let mut d = Deframer::device();
        let mut got = d.push(&stream[..cut]);
        got.extend(d.push(&stream[cut..]));
        assert_eq!(got.len(), 3, "split at {cut}");
        assert_eq!(got[1].data, vec![0x00, 0x00, 0x04, 0x0B], "split at {cut}");
        assert!(d.buffered().is_empty(), "split at {cut}");
    }
}

#[test]
fn an_oversized_length_releases_the_buffer_instead_of_waiting_forever() {
    let mut stream = vec![0xAC, 0x55, 0xFF, 0xFF]; // len = 65535 > MAX_LENGTH_FIELD
    stream.extend_from_slice(&hex("ac550003970198"));

    let mut d = Deframer::device();
    let (frames, residual) = d.push_detailed(&stream);
    assert!(frames.is_empty());
    // The magic is gone, so the remainder can no longer masquerade as a partial frame —
    // it comes back as foreign bytes the caller disposes of, and the buffer is empty.
    assert!(
        matches!(&residual, Residual::Foreign(b) if b.starts_with(&[0xFF, 0xFF])),
        "{residual:?}"
    );
    assert!(
        d.buffered().is_empty(),
        "an unsatisfiable length must not stay buffered"
    );
    // The next notification starts clean, so one bad length costs one resync, not a link.
    let frames = d.push(&hex("ac550006950000040ba4"));
    assert_eq!(frames.len(), 1);
    assert_eq!(frames[0].cmd, 0x95);

    assert_eq!(
        decode_device(&[0xAC, 0x55, 0xFF, 0xFF, 0, 0]),
        Err(DecodeError::BadLength)
    );
}

/// `len < 2` cannot describe even a cmd and a checksum. Same resync, different cause.
#[test]
fn an_impossibly_small_length_also_resyncs() {
    let mut d = Deframer::device();
    let (frames, residual) = d.push_detailed(&[0xAC, 0x55, 0x00, 0x01, 0x00]);
    assert!(frames.is_empty());
    assert!(matches!(residual, Residual::Foreign(_)), "{residual:?}");
    assert!(d.buffered().is_empty());
    assert_eq!(
        decode_device(&[0xAC, 0x55, 0x00, 0x01, 0x00, 0x00]),
        Err(DecodeError::BadLength)
    );
}

/// A bad checksum consumes the frame rather than resyncing past it. The length field
/// already located the end; resyncing would land in the middle of the NEXT frame and turn
/// one corrupt packet into a cascade.
#[test]
fn a_checksum_failure_drops_one_frame_and_keeps_the_stream_aligned() {
    let mut bad = hex("ac550003970198");
    *bad.last_mut().unwrap() = 0x00;
    let mut stream = bad.clone();
    stream.extend_from_slice(&hex("ac550006950000040ba4"));

    assert_eq!(decode_device(&bad), Err(DecodeError::ChecksumMismatch));

    let mut d = Deframer::device();
    let frames = d.push(&stream);
    assert_eq!(frames.len(), 1, "only the good frame survives");
    assert_eq!(frames[0].cmd, 0x95);
    assert!(d.buffered().is_empty());
}

/// The `AA15` demux contract. That characteristic interleaves `52 58` file frames with
/// `AC 55` control frames, so leftover bytes must come BACK to the caller. Dropping them
/// loses image data; feeding a partial control-frame prefix into the file reassembler
/// corrupts the JPEG and the split frame both.
#[test]
fn foreign_trailing_bytes_are_handed_back_and_partial_prefixes_are_kept() {
    let mut d = Deframer::device();
    let mut stream = hex("ac550003970198");
    stream.extend_from_slice(&[0x52, 0x58, 0x00, 0x07]); // start of a file frame

    let (frames, residual) = d.push_detailed(&stream);
    assert_eq!(frames.len(), 1);
    assert_eq!(residual, Residual::Foreign(vec![0x52, 0x58, 0x00, 0x07]));
    assert!(
        d.buffered().is_empty(),
        "foreign bytes must not stay buffered"
    );

    // A genuine partial control frame is kept instead.
    let (frames, residual) = d.push_detailed(&[0xAC, 0x55, 0x00]);
    assert!(frames.is_empty());
    assert_eq!(residual, Residual::PartialFrame(3));
    assert_eq!(d.buffered(), &[0xAC, 0x55, 0x00]);

    // `AC` alone is ambiguous — it could still become `AC 55`.
    assert!(is_partial_frame_prefix(DEVICE_HEADER, &[0xAC]));
    assert!(is_partial_frame_prefix(DEVICE_HEADER, &[0xAC, 0x55]));
    assert!(!is_partial_frame_prefix(DEVICE_HEADER, &[0xAC, 0x56]));
    assert!(!is_partial_frame_prefix(DEVICE_HEADER, &[0x52, 0x58]));
    assert!(!is_partial_frame_prefix(DEVICE_HEADER, &[]));
}

#[test]
fn a_maximum_length_frame_still_arriving_is_not_an_overflow() {
    // Claims len = 0x1000 (4096, exactly the cap, so the length itself is legal) and then
    // falls three bytes short of the 4100 the frame needs.
    let mut stream = vec![0xAC, 0x55, 0x10, 0x00];
    stream.extend(vec![0u8; MAX_LENGTH_FIELD - 1]);
    assert_eq!(stream.len(), FRAME_OVERHEAD + MAX_LENGTH_FIELD - 1);

    let mut d = Deframer::device();
    let (frames, residual) = d.push_detailed(&stream);
    assert!(frames.is_empty(), "the frame is genuinely incomplete");
    assert_eq!(
        residual,
        Residual::PartialFrame(FRAME_OVERHEAD + MAX_LENGTH_FIELD - 1),
        "the largest legal in-flight prefix is a wait, never an overflow"
    );
    assert_eq!(d.buffered().len(), FRAME_OVERHEAD + MAX_LENGTH_FIELD - 1);

    // And well inside it, likewise.
    let mut d = Deframer::device();
    let (_, residual) = d.push_detailed(&stream[..MAX_LENGTH_FIELD]);
    assert_eq!(residual, Residual::PartialFrame(MAX_LENGTH_FIELD));
}

/// The bug the boundary above protects, end to end: a maximum-length frame delivered in
/// two notifications must reassemble into one frame with its payload intact.
#[test]
fn a_maximum_length_frame_split_across_notifications_reassembles() {
    let payload = vec![0x5A; MAX_LENGTH_FIELD - 2]; // cmd + data + crc == MAX_LENGTH_FIELD
    let bytes = encode_device(0x95, &payload);
    assert_eq!(bytes.len(), FRAME_OVERHEAD + MAX_LENGTH_FIELD);
    assert_eq!(
        ((bytes[2] as usize) << 8) | bytes[3] as usize,
        MAX_LENGTH_FIELD,
        "the length field is at its legal maximum"
    );

    let mut d = Deframer::device();
    let split = FRAME_OVERHEAD + MAX_LENGTH_FIELD - 1;
    let (frames, residual) = d.push_detailed(&bytes[..split]);
    assert!(frames.is_empty());
    assert_eq!(residual, Residual::PartialFrame(split));

    let (frames, residual) = d.push_detailed(&bytes[split..]);
    assert_eq!(residual, Residual::Empty);
    assert_eq!(frames.len(), 1, "{frames:?}");
    assert_eq!(frames[0].cmd, 0x95);
    assert_eq!(frames[0].data, payload);
}

/// A corrupt length is still resynced past rather than waited on — the other way the
/// channel could stall. `Overflowed` is now only a backstop behind this: once `drain`
/// rejects an illegal length locally, a buffered partial can never exceed
/// `FRAME_OVERHEAD + MAX_LENGTH_FIELD - 1`, which is what the two tests above pin.
#[test]
fn an_illegal_length_resyncs_rather_than_waiting() {
    let mut d = Deframer::device();
    // len = 0xFFFF, far past MAX_LENGTH_FIELD: dropping the magic is the resync.
    let (frames, residual) = d.push_detailed(&[0xAC, 0x55, 0xFF, 0xFF, 0x01]);
    assert!(frames.is_empty());
    assert_eq!(residual, Residual::Foreign(vec![0xFF, 0xFF, 0x01]));
}

/// The two directions must not accept each other's magic. `AB 55` arriving on a notify
/// characteristic is not a frame we sent coming home — it is something else entirely, and
/// decoding it would attribute a device state to our own request.
#[test]
fn the_two_headers_are_not_interchangeable() {
    let device = hex("ac550003970198");
    assert_eq!(decode_app(&device), Err(DecodeError::BadHeader));
    let app = hex("ab550003170017");
    assert_eq!(decode_device(&app), Err(DecodeError::BadHeader));
    // And a deframer for one channel leaves the other's bytes alone rather than
    // consuming them.
    let mut d = Deframer::device();
    let (frames, residual) = d.push_detailed(&app);
    assert!(frames.is_empty());
    assert_eq!(residual, Residual::Foreign(app));
}

#[test]
fn short_input_is_too_short_not_a_header_or_checksum_error() {
    assert_eq!(decode_device(&[]), Err(DecodeError::TooShort));
    assert_eq!(
        decode_device(&[0xAC, 0x55, 0x00]),
        Err(DecodeError::TooShort)
    );
    assert_eq!(
        decode_device(&[0xAC, 0x55, 0x00, 0x06, 0x95]),
        Err(DecodeError::TooShort)
    );
    // Header + length present, body short: waiting can fix this, so it is Truncated.
    assert_eq!(
        decode_device(&hex("ac5500069500")),
        Err(DecodeError::Truncated)
    );
}

/// The checksum wraps rather than saturating. A payload that sums past 0xFF is common —
/// the captured SSID frame alone sums to 0x567 — so a saturating fold would reject
/// almost every real frame.
#[test]
fn the_checksum_wraps_at_eight_bits() {
    assert_eq!(checksum(0xFF, &[0x01]), 0x00);
    assert_eq!(checksum(0x25, b"DH-TwI-4641E4"), 0x67);
    assert_eq!(checksum(0x00, &[]), 0x00);
}

/// Arbitrary payload lengths round-trip. Not a substitute for the golden vectors — a
/// self-consistent codec can round-trip perfectly while being wrong on the wire — but it
/// covers the sizes no capture happens to contain.
#[test]
fn frame_encode_decode_round_trips_across_payload_sizes() {
    for n in 1..=64usize {
        let data: Vec<u8> = (0..n).map(|i| (i as u8).wrapping_mul(37)).collect();
        let bytes = encode(0x22, &data);
        assert_eq!(bytes.len(), FRAME_OVERHEAD + 1 + n + 1);
        let f = decode_app(&bytes).expect("round trip");
        assert_eq!(f, Frame::new(0x22, data));
    }
}

/// Every command a client can build fits one ATT write, even at the 23-byte default MTU.
/// This is why there is no `chunks()` in this module, stated as an assertion so that a
/// future command with a long payload fails here rather than silently truncating.
#[test]
fn no_command_needs_chunking_at_the_default_att_mtu() {
    for (h, ..) in GOLDEN_APP {
        assert!(hex(h).len() <= DEFAULT_ATT_WRITE_PAYLOAD, "{h}");
    }
    // The longest command any client builds is the six-field time push.
    assert_eq!(encode_command(AppCommand::SendPhoneTime, &[0; 6]).len(), 12);
}

#[test]
fn any_chunking_gives_the_same_frames() {
    let mut stream = encode_device(0x97, &[0x01]);
    stream.extend(encode_device(0x53, &[0x01, 0x31]));
    stream.extend(encode_device(0x42, &[0x00, 0x0F]));
    for size in 1..stream.len() {
        let mut d = Deframer::device();
        let mut frames = Vec::new();
        for chunk in stream.chunks(size) {
            frames.extend(d.push(chunk));
        }
        assert_eq!(
            frames,
            vec![
                Frame::new(0x97, vec![0x01]),
                Frame::new(0x53, vec![0x01, 0x31]),
                Frame::new(0x42, vec![0x00, 0x0F]),
            ],
            "chunks of {size}"
        );
        assert!(d.buffered().is_empty(), "chunks of {size}");
    }
}

#[test]
fn a_decoded_frame_encodes_to_the_bytes_it_came_from() {
    let mut bytes = encode(0x70, &[0x01, 0x07]);
    bytes.extend_from_slice(&[0xDE, 0xAD]);
    let f = decode_app(&bytes).unwrap();
    assert_eq!(encode(f.cmd, &f.data), bytes[..8].to_vec());
}

#[test]
fn draining_two_pieces_is_draining_them_joined() {
    let stream = [encode(0x17, &[]), encode(0x55, &[]), vec![0xAB]].concat();
    let mut whole = stream.clone();
    let joined = drain(APP_HEADER, &mut whole);
    assert_eq!(whole, vec![0xAB]);
    for cut in 0..=stream.len() {
        let mut rest = stream[..cut].to_vec();
        let mut frames = drain(APP_HEADER, &mut rest);
        rest.extend_from_slice(&stream[cut..]);
        frames.extend(drain(APP_HEADER, &mut rest));
        assert_eq!((frames, rest), (joined.clone(), whole.clone()), "cut at {cut}");
    }
}

#[test]
fn a_wrong_checksum_between_two_frames_costs_itself_only() {
    let mut bad = encode_device(0x53, &[0x01, 0x31]);
    let last = bad.len() - 1;
    bad[last] ^= 0x55;
    let stream = [encode_device(0x97, &[0x01]), bad, encode_device(0x42, &[0x00, 0x0F])].concat();
    let mut d = Deframer::device();
    let frames = d.push(&stream);
    assert_eq!(
        frames,
        vec![Frame::new(0x97, vec![0x01]), Frame::new(0x42, vec![0x00, 0x0F])]
    );
}

#[test]
fn each_way_a_frame_fails_to_decode_has_its_own_error() {
    assert_eq!(decode_app(&[0xAB, 0x55, 0x00, 0x02, 0x17]), Err(DecodeError::TooShort));
    assert_eq!(
        decode_app(&[0xAC, 0x55, 0x00, 0x02, 0x17, 0x17]),
        Err(DecodeError::BadHeader)
    );
    assert_eq!(
        decode_app(&[0xAB, 0x55, 0x10, 0x01, 0x17, 0x17]),
        Err(DecodeError::BadLength)
    );
    assert_eq!(
        decode_app(&[0xAB, 0x55, 0x00, 0x03, 0x17, 0x00]),
        Err(DecodeError::Truncated)
    );
    assert_eq!(
        decode_app(&[0xAB, 0x55, 0x00, 0x02, 0x17, 0x18]),
        Err(DecodeError::ChecksumMismatch)
    );
    assert_eq!(
        decode_app(&[0xAB, 0x55, 0x00, 0x02, 0x17, 0x17]),
        Ok(Frame::new(0x17, vec![]))
    );
}

#[test]
fn an_app_deframer_takes_its_own_direction() {
    let mut d = Deframer::app();
    assert_eq!(d.push(&encode(0x17, &[])), vec![Frame::new(0x17, vec![0x00])]);
    d.push(&[0xAB, 0x55]);
    assert_eq!(d.buffered(), &[0xAB, 0x55]);
    d.reset();
    assert!(d.buffered().is_empty());
}

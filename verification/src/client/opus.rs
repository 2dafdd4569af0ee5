//! The audio framing round the codec: what decoded packets join to, a WAV file to put the samples
//! in, and a dump of the packets themselves.
//!
//! The glasses stream the microphone as one complete Opus packet per `0x46` frame: one 20 ms frame,
//! mono, about fifty a second. Ask the decoder for 16 kHz, not for the packet's own rate.
use crate::text;
use crate::voice::VoicePacket;
use vstd::prelude::*;

verus! {

/// Samples in one 20 ms frame at 16 kHz.
pub const SAMPLES_PER_FRAME: usize = 320;

/// The largest number of samples one packet can decode to at 16 kHz: Opus allows up to 120 ms per
/// packet. A decode into a short buffer is an error, not a truncation.
pub const MAX_SAMPLES_PER_PACKET: usize = 1920;

/// Bytes in a WAV header.
pub const WAV_HEADER_BYTES: usize = 44;

/// The most bytes of samples that a WAV's 32-bit size fields can describe.
pub const MAX_WAV_DATA_BYTES: usize = 0xFFFF_FFDB;

/// Anything that went wrong turning packets into audio.
#[derive(Debug, PartialEq, Eq)]
pub enum OpusError {
    /// The codec refused. Carries its own message.
    Codec { detail: String },
    /// A local filesystem failure while writing a WAV.
    Io { detail: String },
    /// More samples than a WAV's 32-bit size fields can describe.
    TooLong { samples: usize },
}

impl OpusError {
    /// The error in words.
    pub open spec fn words(self) -> Seq<char> {
        match self {
            OpusError::Codec { detail } => "opus: "@ + detail@,
            OpusError::Io { detail } => "wav: "@ + detail@,
            OpusError::TooLong { samples } => text::decimal_text(samples as int)
                + " samples will not fit a WAV"@,
        }
    }

    pub fn to_string(&self) -> (s: String)
        ensures
            s@ == self.words(),
    {
        match self {
            OpusError::Codec { detail } => {
                let mut out = String::from_str("opus: ");
                out.append(detail.as_str());
                out
            },
            OpusError::Io { detail } => {
                let mut out = String::from_str("wav: ");
                out.append(detail.as_str());
                out
            },
            OpusError::TooLong { samples } => {
                let mut out: String = String::new();
                text::push_decimal(&mut out, *samples as u64);
                assert(out@ =~= text::decimal_text(*samples as int));
                out.append(" samples will not fit a WAV");
                out
            },
        }
    }
}

// ---- decoded packets ------------------------------------------------------------------

/// The samples of the packets that decoded, in order.
pub open spec fn joined(outcomes: Seq<Option<Vec<i16>>>) -> Seq<i16>
    decreases outcomes.len(),
{
    if outcomes.len() == 0 {
        Seq::empty()
    } else {
        joined(outcomes.drop_last()) + match outcomes.last() {
            Some(pcm) => pcm@,
            None => Seq::empty(),
        }
    }
}

/// How many packets were refused.
pub open spec fn refused(outcomes: Seq<Option<Vec<i16>>>) -> nat
    decreases outcomes.len(),
{
    if outcomes.len() == 0 {
        0
    } else {
        refused(outcomes.drop_last()) + if outcomes.last() is None {
            1nat
        } else {
            0
        }
    }
}

/// A whole capture in one buffer, given what the codec made of each packet, and how many packets it
/// refused.
///
/// A packet that is refused is skipped and the rest of the capture kept: one corrupt frame is 20 ms,
/// and losing the other twenty seconds with it is the wrong trade.
pub fn join_decoded(outcomes: &Vec<Option<Vec<i16>>>) -> (r: (Vec<i16>, usize))
    ensures
        r.0@ == joined(outcomes@),
        r.1 == refused(outcomes@),
{
    let mut out: Vec<i16> = Vec::new();
    let mut skipped: usize = 0;
    assert(outcomes@.take(0) =~= Seq::empty());
    for i in 0..outcomes.len()
        invariant
            out@ == joined(outcomes@.take(i as int)),
            skipped == refused(outcomes@.take(i as int)),
            skipped <= i,
    {
        assert(outcomes@.take(i + 1).drop_last() =~= outcomes@.take(i as int));
        let ghost before = out@;
        match &outcomes[i] {
            Some(pcm) => {
                out.extend_from_slice(pcm.as_slice());
                assert(out@ =~= before + pcm@);
            },
            None => {
                skipped = skipped + 1;
                assert(before + Seq::<i16>::empty() =~= before);
            },
        }
    }
    assert(outcomes@.take(outcomes@.len() as int) =~= outcomes@);
    (out, skipped)
}

// ---- WAV ------------------------------------------------------------------------------

/// A 16-bit number, little-endian.
pub open spec fn le16(v: int) -> Seq<u8> {
    seq![(v % 256) as u8, (v / 256 % 256) as u8]
}

/// A 32-bit number, little-endian.
pub open spec fn le32(v: int) -> Seq<u8> {
    le16(v % 65536) + le16(v / 65536)
}

/// A sample as the 16-bit number that stands for it.
pub open spec fn sample_word(s: i16) -> int {
    if s < 0 {
        0x1_0000 + s
    } else {
        s as int
    }
}

/// Samples, little-endian.
pub open spec fn sample_bytes(samples: Seq<i16>) -> Seq<u8>
    decreases samples.len(),
{
    if samples.len() == 0 {
        Seq::empty()
    } else {
        sample_bytes(samples.drop_last()) + le16(sample_word(samples.last()))
    }
}

/// The header of a 16-bit mono WAV file: `RIFF` / `WAVE` / `fmt ` (PCM, 16-bit) / `data`.
pub open spec fn wav_header(rate: int, data_len: int) -> Seq<u8> {
    seq![0x52u8, 0x49, 0x46, 0x46] + le32(36 + data_len) + seq![
        0x57u8,
        0x41,
        0x56,
        0x45,
        0x66,
        0x6D,
        0x74,
        0x20,
    ] + le32(16) + le16(1) + le16(1) + le32(rate) + le32(2 * rate) + le16(2) + le16(16) + seq![
        0x64u8,
        0x61,
        0x74,
        0x61,
    ] + le32(data_len)
}

fn push_le16(out: &mut Vec<u8>, v: u16)
    ensures
        final(out)@ == old(out)@ + le16(v as int),
{
    out.push((v % 256) as u8);
    out.push((v / 256) as u8);
    assert(out@ =~= old(out)@ + le16(v as int));
}

fn push_le32(out: &mut Vec<u8>, v: u32)
    ensures
        final(out)@ == old(out)@ + le32(v as int),
{
    push_le16(out, (v % 65536) as u16);
    push_le16(out, (v / 65536) as u16);
    assert(out@ =~= old(out)@ + le32(v as int));
}

fn push_tag(out: &mut Vec<u8>, a: u8, b: u8, c: u8, d: u8)
    ensures
        final(out)@ == old(out)@ + seq![a, b, c, d],
{
    out.push(a);
    out.push(b);
    out.push(c);
    out.push(d);
    assert(out@ =~= old(out)@ + seq![a, b, c, d]);
}

/// A 16-bit mono PCM WAV file, in bytes: a canonical 44-byte header and the samples.
#[verifier::spinoff_prover]
#[verifier::rlimit(60)]
pub fn wav_bytes(samples: &[i16], sample_rate_hz: u32) -> (r: Result<Vec<u8>, OpusError>)
    requires
        2 * sample_rate_hz <= u32::MAX,
    ensures
        match r {
            Ok(bytes) => 2 * samples@.len() <= MAX_WAV_DATA_BYTES && bytes@ == wav_header(
                sample_rate_hz as int,
                2 * samples@.len() as int,
            ) + sample_bytes(samples@),
            Err(e) => 2 * samples@.len() > MAX_WAV_DATA_BYTES && e == (OpusError::TooLong {
                samples: samples@.len() as usize,
            }),
        },
{
    if samples.len() > MAX_WAV_DATA_BYTES / 2 {
        return Err(OpusError::TooLong { samples: samples.len() });
    }
    let data_len: u32 = 2 * samples.len() as u32;
    let mut out: Vec<u8> = Vec::new();
    push_tag(&mut out, 0x52, 0x49, 0x46, 0x46);
    push_le32(&mut out, 36 + data_len);
    push_tag(&mut out, 0x57, 0x41, 0x56, 0x45);
    push_tag(&mut out, 0x66, 0x6D, 0x74, 0x20);
    push_le32(&mut out, 16);
    push_le16(&mut out, 1);
    push_le16(&mut out, 1);
    push_le32(&mut out, sample_rate_hz);
    push_le32(&mut out, 2 * sample_rate_hz);
    push_le16(&mut out, 2);
    push_le16(&mut out, 16);
    push_tag(&mut out, 0x64, 0x61, 0x74, 0x61);
    push_le32(&mut out, data_len);
    let ghost header = wav_header(sample_rate_hz as int, data_len as int);
    assert(out@ =~= header);
    assert(samples@.take(0) =~= Seq::empty());
    assert(header + sample_bytes(samples@.take(0)) =~= header);
    for i in 0..samples.len()
        invariant
            out@ == header + sample_bytes(samples@.take(i as int)),
    {
        assert(samples@.take(i + 1).drop_last() =~= samples@.take(i as int));
        let s: i16 = samples[i];
        let word: u16 = if s < 0 {
            (0x1_0000 + s as i32) as u16
        } else {
            s as u16
        };
        push_le16(&mut out, word);
        assert(out@ =~= header + sample_bytes(samples@.take(i + 1)));
    }
    assert(samples@.take(samples@.len() as int) =~= samples@);
    Ok(out)
}

// ---- packet dump ----------------------------------------------------------------------

/// A hexadecimal digit.
pub open spec fn hex_char(d: int) -> char {
    if d < 10 {
        (0x30 + d) as char
    } else {
        (0x57 + d) as char
    }
}

/// Bytes in hexadecimal, two digits each.
pub open spec fn hex_text(bytes: Seq<u8>) -> Seq<char>
    decreases bytes.len(),
{
    if bytes.len() == 0 {
        Seq::empty()
    } else {
        hex_text(bytes.drop_last()) + seq![
            hex_char(bytes.last() as int / 16),
            hex_char(bytes.last() as int % 16),
        ]
    }
}

/// One packet as a line of text: `<length> <hex>`.
pub open spec fn dump_line(payload: Seq<u8>) -> Seq<char> {
    text::decimal_text(payload.len() as int) + " "@ + hex_text(payload) + "\n"@
}

/// The packets of a capture, one per line.
pub open spec fn dump_text(packets: Seq<VoicePacket>) -> Seq<char>
    decreases packets.len(),
{
    if packets.len() == 0 {
        Seq::empty()
    } else {
        dump_text(packets.drop_last()) + dump_line(packets.last().payload@)
    }
}

fn hex_digit(d: u8) -> (c: char)
    requires
        d < 16,
    ensures
        c == hex_char(d as int),
{
    if d < 10 {
        (0x30 + d) as char
    } else {
        (0x57 + d) as char
    }
}

fn push_hex(out: &mut String, bytes: &[u8])
    ensures
        final(out)@ == old(out)@ + hex_text(bytes@),
{
    let ghost before = out@;
    assert(bytes@.take(0) =~= Seq::empty());
    assert(before + hex_text(bytes@.take(0)) =~= before);
    for i in 0..bytes.len()
        invariant
            out@ == before + hex_text(bytes@.take(i as int)),
    {
        assert(bytes@.take(i + 1).drop_last() =~= bytes@.take(i as int));
        out.push(hex_digit(bytes[i] / 16));
        out.push(hex_digit(bytes[i] % 16));
        assert(out@ =~= before + hex_text(bytes@.take(i + 1)));
    }
    assert(bytes@.take(bytes@.len() as int) =~= bytes@);
}

/// The raw packets, one per line, as `<length> <hex>`. A capture kept this way can be decoded again
/// later, which matters because the decode is the lossy step and the packets are the evidence.
pub fn packet_dump(packets: &[VoicePacket]) -> (dump: String)
    ensures
        dump@ == dump_text(packets@),
{
    let mut out: String = String::new();
    assert(packets@.take(0) =~= Seq::empty());
    assert(out@ =~= Seq::empty());
    for i in 0..packets.len()
        invariant
            out@ == dump_text(packets@.take(i as int)),
    {
        assert(packets@.take(i + 1).drop_last() =~= packets@.take(i as int));
        let payload = packets[i].payload.as_slice();
        let ghost before = out@;
        text::push_decimal(&mut out, payload.len() as u64);
        out.append(" ");
        push_hex(&mut out, payload);
        out.append("\n");
        assert(out@ =~= before + dump_line(payload@));
    }
    assert(packets@.take(packets@.len() as int) =~= packets@);
    out
}

// ---- laws -----------------------------------------------------------------------------

/// The sample that two bytes stand for.
pub open spec fn sample_at(bytes: Seq<u8>, at: int) -> int {
    let word = bytes[at] + 256 * bytes[at + 1];
    if word >= 0x8000 {
        word - 0x1_0000
    } else {
        word
    }
}

/// A WAV file holds its samples: reading the two bytes at each place past the header gives them
/// back, and the size fields count the bytes that follow them.
pub proof fn lemma_a_wav_holds_its_samples(samples: Seq<i16>, rate: int, i: int)
    requires
        2 * samples.len() <= MAX_WAV_DATA_BYTES,
        0 <= i < samples.len(),
    ensures
        ({
            let bytes = wav_header(rate, 2 * samples.len() as int) + sample_bytes(samples);
            &&& bytes.len() == WAV_HEADER_BYTES + 2 * samples.len()
            &&& sample_at(bytes, WAV_HEADER_BYTES + 2 * i) == samples[i]
            &&& bytes.subrange(4, 8) == le32(bytes.len() - 8)
            &&& bytes.subrange(40, 44) == le32(bytes.len() - WAV_HEADER_BYTES)
        }),
{
    let header = wav_header(rate, 2 * samples.len() as int);
    let bytes = header + sample_bytes(samples);
    lemma_sample_bytes(samples, i);
    assert(header.len() == WAV_HEADER_BYTES);
    assert(bytes.subrange(4, 8) =~= le32(bytes.len() - 8));
    assert(bytes.subrange(40, 44) =~= le32(bytes.len() - WAV_HEADER_BYTES));
}

proof fn lemma_sample_bytes(samples: Seq<i16>, i: int)
    requires
        0 <= i < samples.len(),
    ensures
        sample_bytes(samples).len() == 2 * samples.len(),
        sample_at(sample_bytes(samples), 2 * i) == samples[i],
    decreases samples.len(),
{
    let before = samples.drop_last();
    lemma_sample_bytes_len(before);
    if i < samples.len() - 1 {
        lemma_sample_bytes(before, i);
    }
}

proof fn lemma_sample_bytes_len(samples: Seq<i16>)
    ensures
        sample_bytes(samples).len() == 2 * samples.len(),
    decreases samples.len(),
{
    if samples.len() > 0 {
        lemma_sample_bytes_len(samples.drop_last());
    }
}

/// The sound of a capture is that of its packets, one after the other; a packet that was refused
/// adds nothing but to the count of such.
pub proof fn lemma_what_joining_gives(outcomes: Seq<Option<Vec<i16>>>, outcome: Option<Vec<i16>>)
    ensures
        joined(Seq::empty()) == Seq::<i16>::empty(),
        refused(Seq::empty()) == 0,
        outcome matches Some(pcm) ==> joined(outcomes.push(outcome)) == joined(outcomes) + pcm@,
        outcome is Some ==> refused(outcomes.push(outcome)) == refused(outcomes),
        outcome is None ==> joined(outcomes.push(outcome)) == joined(outcomes),
        outcome is None ==> refused(outcomes.push(outcome)) == refused(outcomes) + 1,
{
    assert(outcomes.push(outcome).drop_last() =~= outcomes);
    assert(joined(outcomes) + Seq::<i16>::empty() =~= joined(outcomes));
}

/// The number that four bytes are, least significant first.
pub open spec fn word_at(bytes: Seq<u8>, at: int) -> int {
    bytes[at] + 0x100 * bytes[at + 1] + 0x1_0000 * bytes[at + 2] + 0x100_0000 * bytes[at + 3]
}

/// What stands where in the header of a WAV: `RIFF`, the bytes that follow, `WAVEfmt `, sixteen
/// bytes of format, which are uncompressed samples, one channel, the rate, the bytes per second, two
/// bytes and sixteen bits per sample, then `data` and its length.
#[verifier::spinoff_prover]
#[verifier::rlimit(60)]
pub proof fn lemma_what_stands_where_in_a_wav(rate: int, data_len: int)
    requires
        0 <= rate,
        2 * rate <= u32::MAX,
        0 <= data_len,
        36 + data_len <= u32::MAX,
    ensures
        ({
            let h = wav_header(rate, data_len);
            &&& h.len() == 44
            &&& h.subrange(0, 4) == seq![0x52u8, 0x49, 0x46, 0x46]
            &&& word_at(h, 4) == 36 + data_len
            &&& h.subrange(8, 16) == seq![0x57u8, 0x41, 0x56, 0x45, 0x66, 0x6D, 0x74, 0x20]
            &&& word_at(h, 16) == 16
            &&& h[20] + 0x100 * h[21] == 1
            &&& h[22] + 0x100 * h[23] == 1
            &&& word_at(h, 24) == rate
            &&& word_at(h, 28) == 2 * rate
            &&& h[32] + 0x100 * h[33] == 2
            &&& h[34] + 0x100 * h[35] == 16
            &&& h.subrange(36, 40) == seq![0x64u8, 0x61, 0x74, 0x61]
            &&& word_at(h, 40) == data_len
        }),
{
    let h = wav_header(rate, data_len);
    lemma_le32_is_a_word(36 + data_len);
    lemma_le32_is_a_word(16);
    lemma_le32_is_a_word(rate);
    lemma_le32_is_a_word(2 * rate);
    lemma_le32_is_a_word(data_len);
    assert(h.subrange(0, 4) =~= seq![0x52u8, 0x49, 0x46, 0x46]);
    assert(h.subrange(8, 16) =~= seq![0x57u8, 0x41, 0x56, 0x45, 0x66, 0x6D, 0x74, 0x20]);
    assert(h.subrange(36, 40) =~= seq![0x64u8, 0x61, 0x74, 0x61]);
    assert(h.subrange(4, 8) =~= le32(36 + data_len));
    assert(h.subrange(16, 20) =~= le32(16));
    assert(h.subrange(24, 28) =~= le32(rate));
    assert(h.subrange(28, 32) =~= le32(2 * rate));
    assert(h.subrange(40, 44) =~= le32(data_len));
    assert(h.subrange(20, 24) =~= seq![1u8, 0, 1, 0]);
    assert(h.subrange(32, 36) =~= seq![2u8, 0, 16, 0]);
    lemma_word_of_part(h, 4, le32(36 + data_len));
    lemma_word_of_part(h, 16, le32(16));
    lemma_word_of_part(h, 24, le32(rate));
    lemma_word_of_part(h, 28, le32(2 * rate));
    lemma_word_of_part(h, 40, le32(data_len));
    assert(h[20] == h.subrange(20, 24)[0]);
    assert(h[21] == h.subrange(20, 24)[1]);
    assert(h[22] == h.subrange(20, 24)[2]);
    assert(h[23] == h.subrange(20, 24)[3]);
    assert(h[32] == h.subrange(32, 36)[0]);
    assert(h[33] == h.subrange(32, 36)[1]);
    assert(h[34] == h.subrange(32, 36)[2]);
    assert(h[35] == h.subrange(32, 36)[3]);
}

proof fn lemma_word_of_part(h: Seq<u8>, at: int, part: Seq<u8>)
    requires
        0 <= at,
        at + 4 <= h.len(),
        h.subrange(at, at + 4) == part,
    ensures
        word_at(h, at) == word_at(part, 0),
{
    assert(part[0] == h[at]);
    assert(part[1] == h[at + 1]);
    assert(part[2] == h[at + 2]);
    assert(part[3] == h[at + 3]);
}

proof fn lemma_le32_is_a_word(v: int)
    requires
        0 <= v <= u32::MAX,
    ensures
        le32(v).len() == 4,
        word_at(le32(v), 0) == v,
{
    let low = v % 65536;
    let high = v / 65536;
    assert(v == low + 65536 * high);
    assert(low == low % 256 + 256 * (low / 256));
    assert(high == high % 256 + 256 * (high / 256));
}

/// The digit of a number below sixteen, in lower case.
pub open spec fn is_hex_digit_of(c: char, n: int) -> bool {
    ||| 0 <= n < 10 && c as u32 == 0x30 + n
    ||| 10 <= n < 16 && c as u32 == 0x61 + (n - 10)
}

/// A dump writes each packet on a line of its own: how many bytes it has, a blank, and two
/// hexadecimal digits for each byte.
pub proof fn lemma_what_a_dump_says(
    packets: Seq<VoicePacket>,
    packet: VoicePacket,
    bytes: Seq<u8>,
    i: int,
)
    requires
        0 <= i < bytes.len(),
    ensures
        dump_text(Seq::empty()) == Seq::<char>::empty(),
        dump_text(packets.push(packet)) == dump_text(packets) + text::decimal_text(
            packet.payload@.len() as int,
        ) + " "@ + hex_text(packet.payload@) + "\n"@,
        hex_text(bytes).len() == 2 * bytes.len(),
        is_hex_digit_of(hex_text(bytes)[2 * i], bytes[i] as int / 16),
        is_hex_digit_of(hex_text(bytes)[2 * i + 1], bytes[i] as int % 16),
{
    assert(packets.push(packet).drop_last() =~= packets);
    let line = dump_line(packet.payload@);
    assert(dump_text(packets) + line =~= dump_text(packets) + text::decimal_text(
        packet.payload@.len() as int,
    ) + " "@ + hex_text(packet.payload@) + "\n"@);
    lemma_hex_digits(bytes, i);
}

proof fn lemma_hex_digits(bytes: Seq<u8>, i: int)
    requires
        0 <= i < bytes.len(),
    ensures
        hex_text(bytes).len() == 2 * bytes.len(),
        is_hex_digit_of(hex_text(bytes)[2 * i], bytes[i] as int / 16),
        is_hex_digit_of(hex_text(bytes)[2 * i + 1], bytes[i] as int % 16),
    decreases bytes.len(),
{
    let before = bytes.drop_last();
    if i < before.len() {
        lemma_hex_digits(before, i);
    } else if before.len() > 0 {
        lemma_hex_digits(before, 0);
    } else {
        assert(hex_text(before).len() == 0);
    }
}

/// A WAV that is given is 44 bytes of header and two bytes a sample, and one that would not fit its
/// own length fields is refused with how many samples it has.
pub proof fn lemma_which_wav_is_given(
    samples: &[i16],
    rate: u32,
    r: Result<Vec<u8>, OpusError>,
    i: int,
)
    requires
        2 * rate <= u32::MAX,
        samples@.len() <= usize::MAX,
    ensures
        call_ensures(wav_bytes, (samples, rate), r) ==> {
            &&& r is Ok <==> 2 * samples@.len() + 36 <= u32::MAX
            &&& r matches Ok(bytes) ==> bytes@.len() == 44 + 2 * samples@.len()
            &&& r matches Ok(bytes) ==> (0 <= i < samples@.len() ==> sample_at(
                bytes@,
                44 + 2 * i,
            ) == samples@[i])
            &&& r matches Err(e) ==> (e matches OpusError::TooLong { samples: n } && n
                == samples@.len())
        },
{
    if call_ensures(wav_bytes, (samples, rate), r) {
        if let Ok(bytes) = r {
            if samples@.len() > 0 {
                lemma_a_wav_holds_its_samples(samples@, rate as int, 0);
            } else {
                assert(wav_header(rate as int, 0).len() == 44);
            }
            if 0 <= i < samples@.len() {
                lemma_a_wav_holds_its_samples(samples@, rate as int, i);
            }
        }
    }
}

/// What a failure reads as.
pub proof fn lemma_what_a_failure_reads_as(e: OpusError, s: String, detail: String, n: usize)
    ensures
        call_ensures(OpusError::to_string, (&e,), s) ==> {
            &&& e == (OpusError::Codec { detail }) ==> s@ == "opus: "@ + detail@
            &&& e == (OpusError::Io { detail }) ==> s@ == "wav: "@ + detail@
            &&& e == (OpusError::TooLong { samples: n }) ==> s@ == text::decimal_text(n as int)
                + " samples will not fit a WAV"@
        },
{
}

} // verus!

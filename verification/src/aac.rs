//! AAC over RTP (RFC 3640, mode `AAC-hbr`) to raw AAC frames, and an ADTS header to wrap them.
//!
//! The glasses advertise a second track beside the video: `mpeg4-generic/16000/1`, dynamic payload
//! type 97, `config=1408`. That config is a two-byte MPEG-4 AudioSpecificConfig and it decodes to
//! AAC-LC, 16 kHz, mono; see [`parse_config_hex`].
//!
//! ```text
//! +---------------+----------------------+-------------------+
//! | AU-headers-   |  AU-header (1..n)    |   AU data (1..n)  |
//! | length (16 b) |  13 b size + 3 b idx |                   |
//! +---------------+----------------------+-------------------+
//! ```
//!
//! `AU-headers-length` is in bits, not bytes. The header block is padded to a byte boundary before
//! the AU data starts.
//!
//! Raw AAC frames are not a file. [`adts_header`] builds the seven-byte ADTS header that turns each
//! one into a self-describing unit.
use crate::rtp;
use crate::sdp;
use crate::sdp::Fmtp;
use crate::text;
use crate::wire;
use crate::wire::be16;
use vstd::arithmetic::power2::*;
use vstd::prelude::*;
use vstd::slice::slice_subrange;
use vstd::slice::slice_to_vec;

verus! {

/// The sampling frequency index table of ISO/IEC 14496-3. Index 8 is this stream's 16 kHz.
pub const SAMPLE_RATES: [u32; 13] = [
    96_000,
    88_200,
    64_000,
    48_000,
    44_100,
    32_000,
    24_000,
    22_050,
    16_000,
    12_000,
    11_025,
    8_000,
    7_350,
];

/// The `config` value this firmware advertises, as an integer.
pub const CONFIG_1408: u16 = 0x1408;

/// The sample rate the glasses' audio track runs at.
pub const SAMPLE_RATE_HZ: u32 = 16_000;

/// Channels on the glasses' audio track.
pub const CHANNELS: u8 = 1;

/// Samples in one AAC-LC frame. Fixed by the codec, not by this stream.
pub const SAMPLES_PER_FRAME: u32 = 1024;

/// Bytes in an ADTS header without the optional CRC. This builder never writes the CRC.
pub const ADTS_HEADER_BYTES: usize = 7;

/// The largest frame an ADTS header can describe: the length field is 13 bits and covers the
/// header too.
pub const MAX_ADTS_FRAME_BYTES: usize = 8191;

/// The widest field that a bit reader reads at once.
pub const MAX_FIELD_BITS: u8 = 32;

/// A decoded MPEG-4 AudioSpecificConfig: the `config=` parameter, unpacked.
#[derive(Debug, Clone, Copy, PartialEq, Eq, Structural)]
pub struct AudioSpecificConfig {
    /// `2` is AAC-LC. The ADTS `profile` field is this minus one.
    pub object_type: u8,
    /// Index into [`SAMPLE_RATES`].
    pub sampling_frequency_index: u8,
    /// 1 is mono, 2 is stereo.
    pub channel_configuration: u8,
    /// Resolved from the index, for convenience.
    pub sample_rate_hz: u32,
}

impl AudioSpecificConfig {
    pub open spec fn spec_glasses() -> AudioSpecificConfig {
        AudioSpecificConfig {
            object_type: 2,
            sampling_frequency_index: 8,
            channel_configuration: 1,
            sample_rate_hz: SAMPLE_RATE_HZ,
        }
    }

    /// The config the glasses advertise: AAC-LC, 16 kHz, mono.
    #[verifier::when_used_as_spec(spec_glasses)]
    pub fn glasses() -> (c: AudioSpecificConfig)
        ensures
            c == AudioSpecificConfig::glasses(),
    {
        AudioSpecificConfig {
            object_type: 2,
            sampling_frequency_index: 8,
            channel_configuration: 1,
            sample_rate_hz: SAMPLE_RATE_HZ,
        }
    }
}

/// The three `fmtp` widths that decide how AU headers are laid out.
#[derive(Debug, Clone, Copy, PartialEq, Eq, Structural)]
pub struct AuHeaderConfig {
    /// Bits of AU size per header. 13 here.
    pub size_length: u8,
    /// Bits of AU index in the first header. 3 here.
    pub index_length: u8,
    /// Bits of index delta in every header after the first. 3 here.
    pub index_delta_length: u8,
}

impl Default for AuHeaderConfig {
    /// The glasses' values, so a client that never reads the session description still frames
    /// correctly.
    fn default() -> (c: Self)
        ensures
            c == AuHeaderConfig::glasses(),
    {
        AuHeaderConfig::glasses()
    }
}

impl AuHeaderConfig {
    pub open spec fn spec_glasses() -> AuHeaderConfig {
        AuHeaderConfig { size_length: 13, index_length: 3, index_delta_length: 3 }
    }

    /// `sizeLength=13; indexLength=3; indexDeltaLength=3`.
    #[verifier::when_used_as_spec(spec_glasses)]
    pub fn glasses() -> (c: AuHeaderConfig)
        ensures
            c == AuHeaderConfig::glasses(),
    {
        AuHeaderConfig { size_length: 13, index_length: 3, index_delta_length: 3 }
    }

    /// Read the widths out of a parsed `a=fmtp:` line.
    ///
    /// The keys are found whatever the case of their letters: the server spells two of the three
    /// in lower case.
    pub fn from_fmtp(fmtp: &Fmtp) -> (r: Option<AuHeaderConfig>)
        ensures
            r == (match sdp::width_of(fmtp@, "sizeLength"@) {
                None => None,
                Some(size) => Some(
                    AuHeaderConfig {
                        size_length: (size % 256) as u8,
                        index_length: or_zero(sdp::width_of(fmtp@, "indexLength"@)),
                        index_delta_length: or_zero(sdp::width_of(fmtp@, "indexDeltaLength"@)),
                    },
                ),
            }),
    {
        match fmtp.size_length() {
            None => None,
            Some(size) => Some(
                AuHeaderConfig {
                    size_length: (size % 256) as u8,
                    index_length: low_byte(fmtp.index_length()),
                    index_delta_length: low_byte(fmtp.index_delta_length()),
                },
            ),
        }
    }

    pub open spec fn spec_first_header_bits(&self) -> u32 {
        (self.size_length + self.index_length) as u32
    }

    pub open spec fn spec_later_header_bits(&self) -> u32 {
        (self.size_length + self.index_delta_length) as u32
    }

    /// Bits in the first AU header.
    #[verifier::when_used_as_spec(spec_first_header_bits)]
    pub fn first_header_bits(&self) -> (bits: u32)
        ensures
            bits == self.first_header_bits(),
    {
        self.size_length as u32 + self.index_length as u32
    }

    /// Bits in every subsequent AU header.
    #[verifier::when_used_as_spec(spec_later_header_bits)]
    pub fn later_header_bits(&self) -> (bits: u32)
        ensures
            bits == self.later_header_bits(),
    {
        self.size_length as u32 + self.index_delta_length as u32
    }
}

/// The low byte of a width that may be missing.
pub open spec fn or_zero(width: Option<u32>) -> u8 {
    match width {
        Some(n) => (n % 256) as u8,
        None => 0,
    }
}

fn low_byte(width: Option<u32>) -> (b: u8)
    ensures
        b == or_zero(width),
{
    match width {
        Some(n) => (n % 256) as u8,
        None => 0,
    }
}

/// One AU header: how big the access unit is and where it sits in the series.
#[derive(Debug, Clone, Copy, PartialEq, Eq, Structural)]
pub struct AuHeader {
    /// Bytes of AU data this header describes.
    pub size: usize,
    /// The AU index, or the delta for headers after the first.
    pub index: u32,
}

/// Why an audio payload could not be unpacked.
#[derive(Debug, Clone, Copy, PartialEq, Eq, Structural)]
pub enum AacError {
    /// Shorter than the two-byte AU-headers-length field, or a header field too wide to read.
    PayloadTooShort,
    /// The declared AU-headers-length does not fit the payload, or is not a whole number of
    /// headers. Usually the bits/bytes confusion.
    BadAuHeadersLength { bits: u32, payload_len: usize },
    /// The AU sizes add up to more data than the payload contains.
    TruncatedAu { declared: usize, available: usize },
    /// A frame too long for an ADTS length field.
    FrameTooLarge { len: usize },
    /// A `config=` value this crate will not guess at.
    UnsupportedConfig,
    /// A header configuration with a zero size field: every AU would be zero bytes.
    ZeroSizeLength,
}

impl AacError {
    /// The error in words.
    pub open spec fn words(self) -> Seq<char> {
        match self {
            AacError::PayloadTooShort => "payload shorter than the AU-headers-length"@,
            AacError::BadAuHeadersLength { bits, payload_len } => "AU-headers-length "@
                + text::decimal_text(bits as int) + " bits does not fit "@ + text::decimal_text(
                payload_len as int,
            ) + " bytes"@,
            AacError::TruncatedAu { declared, available } => "AU headers declare "@
                + text::decimal_text(declared as int) + " bytes, "@ + text::decimal_text(
                available as int,
            ) + " present"@,
            AacError::FrameTooLarge { len } => text::decimal_text(len as int)
                + " bytes will not fit an ADTS frame"@,
            AacError::UnsupportedConfig => "unsupported AudioSpecificConfig"@,
            AacError::ZeroSizeLength => "sizeLength is zero"@,
        }
    }

    pub fn to_string(&self) -> (s: String)
        ensures
            s@ == self.words(),
    {
        match self {
            AacError::PayloadTooShort => String::from_str(
                "payload shorter than the AU-headers-length",
            ),
            AacError::BadAuHeadersLength { bits, payload_len } => {
                let mut out = String::from_str("AU-headers-length ");
                text::push_decimal(&mut out, *bits as u64);
                out.append(" bits does not fit ");
                text::push_decimal(&mut out, *payload_len as u64);
                out.append(" bytes");
                out
            },
            AacError::TruncatedAu { declared, available } => {
                let mut out = String::from_str("AU headers declare ");
                text::push_decimal(&mut out, *declared as u64);
                out.append(" bytes, ");
                text::push_decimal(&mut out, *available as u64);
                out.append(" present");
                out
            },
            AacError::FrameTooLarge { len } => {
                let mut out: String = String::new();
                text::push_decimal(&mut out, *len as u64);
                assert(out@ =~= text::decimal_text(*len as int));
                out.append(" bytes will not fit an ADTS frame");
                out
            },
            AacError::UnsupportedConfig => String::from_str("unsupported AudioSpecificConfig"),
            AacError::ZeroSizeLength => String::from_str("sizeLength is zero"),
        }
    }
}

// ---- configuration --------------------------------------------------------------------

/// What two bytes say as an AudioSpecificConfig: 5 bits object type, 4 bits sampling frequency
/// index, 4 bits channel configuration.
pub open spec fn config_of(b: Seq<u8>) -> Result<AudioSpecificConfig, AacError> {
    let word = wire::be16_at(b, 0);
    let object_type = word / 2048;
    let index = word / 128 % 16;
    if b.len() < 2 || object_type == 0 || object_type == 31 || index >= 13 {
        Err(AacError::UnsupportedConfig)
    } else {
        Ok(
            AudioSpecificConfig {
                object_type: object_type as u8,
                sampling_frequency_index: index as u8,
                channel_configuration: (word / 8 % 16) as u8,
                sample_rate_hz: SAMPLE_RATES@[index],
            },
        )
    }
}

/// Parse a two-byte AudioSpecificConfig.
///
/// The escape value 15 for the frequency index (a 24-bit explicit rate follows) is refused rather
/// than guessed.
pub fn parse_audio_specific_config(bytes: &[u8]) -> (r: Result<AudioSpecificConfig, AacError>)
    ensures
        r == config_of(bytes@),
{
    if bytes.len() < 2 {
        return Err(AacError::UnsupportedConfig);
    }
    let word: u16 = be16(bytes, 0);
    let object_type: u8 = (word / 2048) as u8;
    let sampling_frequency_index: u8 = (word / 128 % 16) as u8;
    let channel_configuration: u8 = (word / 8 % 16) as u8;
    if object_type == 0 || object_type == 31 || sampling_frequency_index >= 13 {
        return Err(AacError::UnsupportedConfig);
    }
    let rates = SAMPLE_RATES;
    Ok(
        AudioSpecificConfig {
            object_type,
            sampling_frequency_index,
            channel_configuration,
            sample_rate_hz: rates[sampling_frequency_index as usize],
        },
    )
}

/// The value of a hexadecimal digit.
pub open spec fn hex_value(c: char) -> Option<int> {
    if '0' <= c <= '9' {
        Some(c as u32 - 0x30)
    } else if 'a' <= c <= 'f' {
        Some(c as u32 - 0x57)
    } else if 'A' <= c <= 'F' {
        Some(c as u32 - 0x37)
    } else {
        None
    }
}

/// The value of two characters as a hexadecimal number, which may begin with a plus sign.
pub open spec fn hex_pair(high: char, low: char) -> Option<int> {
    match (hex_value(high), hex_value(low)) {
        (Some(h), Some(l)) => Some(16 * h + l),
        (None, Some(l)) => if high == '+' {
            Some(l)
        } else {
            None
        },
        _ => None,
    }
}

/// The bytes that a hexadecimal text stands for, two characters each.
pub open spec fn hex_bytes(s: Seq<char>) -> Option<Seq<u8>> {
    if s.len() % 2 == 0 && forall|i: int|
        0 <= i < s.len() / 2 ==> #[trigger] hex_pair(s[2 * i], s[2 * i + 1]) is Some {
        Some(Seq::new(s.len() / 2, |i: int| hex_pair(s[2 * i], s[2 * i + 1])->Some_0 as u8))
    } else {
        None
    }
}

fn hex_digit(c: char) -> (r: Option<u8>)
    ensures
        match r {
            Some(v) => hex_value(c) == Some(v as int) && v < 16,
            None => hex_value(c) is None,
        },
{
    let n: u32 = c as u32;
    if 0x30 <= n && n <= 0x39 {
        Some((n - 0x30) as u8)
    } else if 0x61 <= n && n <= 0x66 {
        Some((n - 0x57) as u8)
    } else if 0x41 <= n && n <= 0x46 {
        Some((n - 0x37) as u8)
    } else {
        None
    }
}

fn hex_byte(high: char, low: char) -> (r: Option<u8>)
    ensures
        match r {
            Some(v) => hex_pair(high, low) == Some(v as int),
            None => hex_pair(high, low) is None,
        },
{
    match (hex_digit(high), hex_digit(low)) {
        (Some(h), Some(l)) => Some(16 * h + l),
        (None, Some(l)) => if high == '+' {
            Some(l)
        } else {
            None
        },
        _ => None,
    }
}

/// Parse the `config=` parameter, which is hex text (`"1408"`).
pub fn parse_config_hex(hex: &str) -> (r: Result<AudioSpecificConfig, AacError>)
    ensures
        r == (match hex_bytes(text::trimmed(hex@)) {
            Some(bytes) => config_of(bytes),
            None => Err(AacError::UnsupportedConfig),
        }),
{
    let digits = text::trim(hex);
    let n: usize = digits.unicode_len();
    if n % 2 != 0 {
        return Err(AacError::UnsupportedConfig);
    }
    let mut bytes: Vec<u8> = Vec::new();
    let mut i: usize = 0;
    while i < n / 2
        invariant
            digits@ == text::trimmed(hex@),
            n == digits@.len(),
            n % 2 == 0,
            i <= n / 2,
            bytes@.len() == i,
            forall|k: int|
                0 <= k < i ==> #[trigger] hex_pair(digits@[2 * k], digits@[2 * k + 1]) == Some(
                    bytes@[k] as int,
                ),
        decreases n / 2 - i,
    {
        match hex_byte(digits.get_char(2 * i), digits.get_char(2 * i + 1)) {
            Some(b) => {
                bytes.push(b);
            },
            None => {
                assert(hex_pair(digits@[2 * i as int], digits@[2 * i + 1]) is None);
                assert(hex_bytes(digits@) is None);
                return Err(AacError::UnsupportedConfig);
            },
        }
        i = i + 1;
    }
    assert(hex_bytes(digits@) is Some);
    assert(bytes@ =~= hex_bytes(digits@)->Some_0);
    parse_audio_specific_config(bytes.as_slice())
}

// ---- AU headers -----------------------------------------------------------------------

/// Bit `i` of a block, most significant first.
pub open spec fn bit_at(block: Seq<u8>, i: int) -> nat {
    ((block[i / 8] >> ((7 - i % 8) as u8)) & 1) as nat
}

/// The number that `n` bits from bit `at` on stand for, most significant first.
pub open spec fn field(block: Seq<u8>, at: int, n: nat) -> nat
    decreases n,
{
    if n == 0 {
        0
    } else {
        2 * field(block, at, (n - 1) as nat) + bit_at(block, at + n - 1)
    }
}

/// A bit is a bit.
proof fn lemma_bit_at(block: Seq<u8>, i: int)
    ensures
        bit_at(block, i) <= 1,
{
    let b = block[i / 8];
    let k = (7 - i % 8) as u8;
    assert((b >> k) & 1 <= 1) by (bit_vector);
}

/// A field of `n` bits is below 2^n.
proof fn lemma_field_bound(block: Seq<u8>, at: int, n: nat)
    ensures
        field(block, at, n) < pow2(n),
    decreases n,
{
    if n == 0 {
        lemma2_to64();
    } else {
        lemma_field_bound(block, at, (n - 1) as nat);
        lemma_bit_at(block, at + n - 1);
        lemma_pow2_unfold(n);
    }
}

/// Fields of up to 32 bits fit a 32-bit number, and shorter ones half of that.
proof fn lemma_field_fits(block: Seq<u8>, at: int, n: nat)
    requires
        n <= 32,
    ensures
        field(block, at, n) <= u32::MAX,
        n < 32 ==> field(block, at, n) < 0x8000_0000,
{
    lemma_field_bound(block, at, n);
    lemma2_to64();
    if n < 32 {
        if n < 31 {
            lemma_pow2_strictly_increases(n, 31);
        }
    }
}

/// Reads `count` bits from bit `at` on.
fn read_bits(block: &[u8], at: usize, count: u32) -> (v: u32)
    requires
        count <= 32,
        at + count <= 8 * block@.len(),
        8 * block@.len() <= usize::MAX,
    ensures
        v == field(block@, at as int, count as nat),
{
    let mut out: u32 = 0;
    for k in 0..count
        invariant
            count <= 32,
            at + count <= 8 * block@.len(),
            8 * block@.len() <= usize::MAX,
            out == field(block@, at as int, k as nat),
    {
        let i: usize = at + k as usize;
        let byte: u8 = block[i / 8];
        let shift: u8 = 7 - (i % 8) as u8;
        let bit: u32 = ((byte >> shift) & 1) as u32;
        proof {
            lemma_field_fits(block@, at as int, k as nat);
            lemma_bit_at(block@, i as int);
            assert(bit == bit_at(block@, at + k));
            assert((out << 1) | bit == 2 * out + bit) by (bit_vector)
                requires
                    out < 0x8000_0000,
                    bit <= 1,
            ;
        }
        out = (out << 1) | bit;
    }
    out
}

/// Where header `i` begins in the header block.
pub open spec fn header_at(cfg: AuHeaderConfig, i: int) -> int {
    if i <= 0 {
        0
    } else {
        cfg.first_header_bits() + (i - 1) * cfg.later_header_bits()
    }
}

/// How wide the index of header `i` is.
pub open spec fn index_bits(cfg: AuHeaderConfig, i: int) -> u8 {
    if i == 0 {
        cfg.index_length
    } else {
        cfg.index_delta_length
    }
}

/// Header `i` of a header block.
pub open spec fn header_in(block: Seq<u8>, cfg: AuHeaderConfig, i: int) -> AuHeader {
    let at = header_at(cfg, i);
    AuHeader {
        size: field(block, at, cfg.size_length as nat) as usize,
        index: field(block, at + cfg.size_length, index_bits(cfg, i) as nat) as u32,
    }
}

/// How many headers fill this many bits.
pub open spec fn header_count(bits: int, cfg: AuHeaderConfig) -> int {
    if bits == 0 {
        0
    } else {
        1 + (bits - cfg.first_header_bits()) / cfg.later_header_bits() as int
    }
}

/// Whether these many bits are a whole number of headers.
pub open spec fn whole_headers(bits: int, cfg: AuHeaderConfig) -> bool {
    bits == 0 || (bits >= cfg.first_header_bits() && (bits - cfg.first_header_bits())
        % cfg.later_header_bits() as int == 0)
}

/// Whether a header that fits these many bits has a field too wide to read.
pub open spec fn unreadable(bits: int, cfg: AuHeaderConfig) -> bool {
    ||| bits > 0 && bits >= cfg.first_header_bits() && (cfg.size_length > MAX_FIELD_BITS
        || cfg.index_length > MAX_FIELD_BITS)
    ||| bits >= cfg.first_header_bits() + cfg.later_header_bits() && cfg.index_delta_length
        > MAX_FIELD_BITS
}

/// The bits of AU headers that a payload declares.
pub open spec fn declared_bits(payload: Seq<u8>) -> int {
    wire::be16_at(payload, 0)
}

/// Where the AU data begins: past the header block, which is padded to a byte boundary.
pub open spec fn data_at(payload: Seq<u8>) -> int {
    2 + (declared_bits(payload) + 7) / 8
}

/// The header block of a payload.
pub open spec fn header_block(payload: Seq<u8>) -> Seq<u8> {
    payload.subrange(2, data_at(payload))
}

/// The AU headers of a payload.
pub open spec fn headers_of(payload: Seq<u8>, cfg: AuHeaderConfig) -> Seq<AuHeader> {
    Seq::new(
        header_count(declared_bits(payload), cfg) as nat,
        |i: int| header_in(header_block(payload), cfg, i),
    )
}

/// The bytes that some headers declare.
pub open spec fn total_size(headers: Seq<AuHeader>) -> int
    decreases headers.len(),
{
    if headers.len() == 0 {
        0
    } else {
        total_size(headers.drop_last()) + headers.last().size
    }
}

/// A number as far as a `usize` can say it.
pub open spec fn at_most_usize(n: int) -> usize {
    if n > usize::MAX {
        usize::MAX
    } else {
        n as usize
    }
}

/// What is wrong with a payload, if anything.
pub open spec fn payload_fault(payload: Seq<u8>, cfg: AuHeaderConfig) -> Option<AacError> {
    let bits = declared_bits(payload);
    let bad_length = AacError::BadAuHeadersLength {
        bits: bits as u32,
        payload_len: payload.len() as usize,
    };
    if cfg.size_length == 0 {
        Some(AacError::ZeroSizeLength)
    } else if payload.len() < 2 {
        Some(AacError::PayloadTooShort)
    } else if data_at(payload) > payload.len() {
        Some(bad_length)
    } else if unreadable(bits, cfg) {
        Some(AacError::PayloadTooShort)
    } else if !whole_headers(bits, cfg) {
        Some(bad_length)
    } else if data_at(payload) + total_size(headers_of(payload, cfg)) > payload.len() {
        Some(
            AacError::TruncatedAu {
                declared: at_most_usize(total_size(headers_of(payload, cfg))),
                available: (payload.len() - data_at(payload)) as usize,
            },
        )
    } else {
        None
    }
}

/// Frame `i` of a payload: the bytes its header declares, behind those of the headers before it.
pub open spec fn frame_in(payload: Seq<u8>, cfg: AuHeaderConfig, i: int) -> Seq<u8> {
    let headers = headers_of(payload, cfg);
    let at = data_at(payload) + total_size(headers.take(i));
    payload.subrange(at, at + headers[i].size)
}

/// The frames of a payload.
pub open spec fn frames_of(payload: Seq<u8>, cfg: AuHeaderConfig) -> Seq<Seq<u8>> {
    Seq::new(headers_of(payload, cfg).len(), |i: int| frame_in(payload, cfg, i))
}

/// `m` headers and what is left of the bits after them.
proof fn lemma_header_steps(bits: int, cfg: AuHeaderConfig, m: int)
    requires
        cfg.size_length > 0,
        m >= 0,
        0 <= bits,
    ensures
        header_at(cfg, m) >= m,
        m >= 1 && header_at(cfg, m) == bits ==> whole_headers(bits, cfg) && header_count(bits, cfg)
            == m,
        m >= 1 && header_at(cfg, m) < bits < header_at(cfg, m + 1) ==> !whole_headers(bits, cfg),
        m >= 1 ==> header_at(cfg, m + 1) == header_at(cfg, m) + cfg.later_header_bits(),
        m >= 1 ==> header_at(cfg, m) >= cfg.first_header_bits(),
        header_at(cfg, 1) == cfg.first_header_bits(),
{
    let first = cfg.first_header_bits() as int;
    let later = cfg.later_header_bits() as int;
    assert(0 * later == 0);
    if m >= 1 {
        let k = m - 1;
        assert(k * later >= k) by (nonlinear_arith)
            requires
                k >= 0,
                later >= 1,
        ;
        assert((k + 1) * later == k * later + later) by (nonlinear_arith);
        if header_at(cfg, m) <= bits < header_at(cfg, m + 1) {
            let r = bits - header_at(cfg, m);
            assert(bits - first == later * k + r) by (nonlinear_arith)
                requires
                    bits == first + k * later + r,
            ;
            vstd::arithmetic::div_mod::lemma_fundamental_div_mod_converse(
                bits - first,
                later,
                k,
                r,
            );
        }
    }
}

/// The frames of a payload lie in it one behind the other.
proof fn lemma_total_size_prefix(headers: Seq<AuHeader>, i: int)
    requires
        0 <= i <= headers.len(),
    ensures
        0 <= total_size(headers.take(i)) <= total_size(headers),
        i < headers.len() ==> total_size(headers.take(i + 1)) == total_size(headers.take(i))
            + headers[i].size,
        i < headers.len() ==> total_size(headers.take(i + 1)) <= total_size(headers),
    decreases headers.len() - i,
{
    if i < headers.len() {
        assert(headers.take(i + 1).drop_last() =~= headers.take(i));
        lemma_total_size_prefix(headers, i + 1);
        lemma_total_size_nonnegative(headers.take(i));
    } else {
        assert(headers.take(i) =~= headers);
        lemma_total_size_nonnegative(headers);
    }
}

proof fn lemma_total_size_nonnegative(headers: Seq<AuHeader>)
    ensures
        total_size(headers) >= 0,
    decreases headers.len(),
{
    if headers.len() > 0 {
        lemma_total_size_nonnegative(headers.drop_last());
    }
}

/// Split one RTP audio payload into its AU headers and raw AAC frames.
///
/// Frames are borrowed from the payload. `headers[i]` describes `frames[i]`.
pub fn depacketize<'a>(payload: &'a [u8], cfg: &AuHeaderConfig) -> (r: Result<
    (Vec<AuHeader>, Vec<&'a [u8]>),
    AacError,
>)
    ensures
        r is Err <==> payload_fault(payload@, *cfg) is Some,
        r matches Err(e) ==> payload_fault(payload@, *cfg) == Some(e),
        r matches Ok((headers, frames)) ==> {
            &&& headers@ == headers_of(payload@, *cfg)
            &&& frames@.len() == headers@.len()
            &&& forall|i: int|
                0 <= i < frames@.len() ==> (#[trigger] frames@[i])@ == frame_in(payload@, *cfg, i)
        },
{
    if cfg.size_length == 0 {
        return Err(AacError::ZeroSizeLength);
    }
    if payload.len() < 2 {
        return Err(AacError::PayloadTooShort);
    }
    // Bits, not bytes.
    let bits: u32 = be16(payload, 0) as u32;
    let header_bytes: usize = ((bits + 7) / 8) as usize;
    if payload.len() - 2 < header_bytes {
        return Err(AacError::BadAuHeadersLength { bits, payload_len: payload.len() });
    }
    let block = slice_subrange(payload, 2, 2 + header_bytes);
    let headers: Vec<AuHeader> = match read_headers(block, bits, cfg, payload.len()) {
        Ok(headers) => headers,
        Err(e) => {
            return Err(e);
        },
    };
    let start: usize = 2 + header_bytes;
    proof {
        assert(start == data_at(payload@));
        assert(block@ == header_block(payload@));
        assert(headers@ =~= headers_of(payload@, *cfg));
    }
    let available: usize = payload.len() - start;
    let mut declared: usize = 0;
    assert(headers@.take(0) =~= Seq::empty());
    for i in 0..headers.len()
        invariant
            declared == at_most_usize(total_size(headers@.take(i as int))),
    {
        proof {
            lemma_total_size_prefix(headers@, i as int);
        }
        declared = declared.saturating_add(headers[i].size);
    }
    assert(headers@.take(headers@.len() as int) =~= headers@);
    proof {
        lemma_total_size_nonnegative(headers@);
    }
    if declared > available {
        return Err(AacError::TruncatedAu { declared, available });
    }
    let mut frames: Vec<&'a [u8]> = Vec::new();
    let mut at: usize = start;
    for i in 0..headers.len()
        invariant
            headers@ == headers_of(payload@, *cfg),
            start == data_at(payload@),
            start + total_size(headers@) <= payload@.len() <= usize::MAX,
            at == start + total_size(headers@.take(i as int)),
            frames@.len() == i,
            forall|k: int|
                0 <= k < i ==> (#[trigger] frames@[k])@ == frame_in(payload@, *cfg, k),
    {
        proof {
            lemma_total_size_prefix(headers@, i as int);
        }
        let size: usize = headers[i].size;
        let frame = slice_subrange(payload, at, at + size);
        frames.push(frame);
        at = at + size;
    }
    Ok((headers, frames))
}

/// Reads the AU headers that fill `bits` bits of the header block.
fn read_headers(block: &[u8], bits: u32, cfg: &AuHeaderConfig, payload_len: usize) -> (r: Result<
    Vec<AuHeader>,
    AacError,
>)
    requires
        cfg.size_length > 0,
        bits <= 0xFFFF,
        block@.len() == (bits + 7) / 8,
    ensures
        match r {
            Ok(headers) => {
                &&& !unreadable(bits as int, *cfg)
                &&& whole_headers(bits as int, *cfg)
                &&& headers@.len() == header_count(bits as int, *cfg)
                &&& forall|i: int|
                    0 <= i < headers@.len() ==> #[trigger] headers@[i] == header_in(block@, *cfg, i)
            },
            Err(e) => if unreadable(bits as int, *cfg) {
                e == AacError::PayloadTooShort
            } else {
                !whole_headers(bits as int, *cfg) && e == (AacError::BadAuHeadersLength {
                    bits,
                    payload_len,
                })
            },
        },
{
    let mut headers: Vec<AuHeader> = Vec::new();
    let mut consumed: u32 = 0;
    while consumed < bits
        invariant
            cfg.size_length > 0,
            bits <= 0xFFFF,
            block@.len() == (bits + 7) / 8,
            consumed == header_at(*cfg, headers@.len() as int),
            headers@.len() <= consumed <= bits,
            headers@.len() >= 1 ==> cfg.size_length <= MAX_FIELD_BITS && cfg.index_length
                <= MAX_FIELD_BITS,
            headers@.len() >= 2 ==> cfg.index_delta_length <= MAX_FIELD_BITS,
            forall|i: int|
                0 <= i < headers@.len() ==> #[trigger] headers@[i] == header_in(block@, *cfg, i),
        decreases bits - consumed,
    {
        let ghost m = headers@.len() as int;
        proof {
            lemma_header_steps(bits as int, *cfg, m);
            lemma_header_steps(bits as int, *cfg, m + 1);
        }
        let index_width: u8 = if headers.len() == 0 {
            cfg.index_length
        } else {
            cfg.index_delta_length
        };
        let width: u32 = cfg.size_length as u32 + index_width as u32;
        if consumed + width > bits {
            return Err(AacError::BadAuHeadersLength { bits, payload_len });
        }
        if cfg.size_length > MAX_FIELD_BITS || index_width > MAX_FIELD_BITS {
            return Err(AacError::PayloadTooShort);
        }
        let size: u32 = read_bits(block, consumed as usize, cfg.size_length as u32);
        let index: u32 = read_bits(
            block,
            consumed as usize + cfg.size_length as usize,
            index_width as u32,
        );
        headers.push(AuHeader { size: size as usize, index });
        consumed = consumed + width;
    }
    proof {
        lemma_header_steps(bits as int, *cfg, headers@.len() as int);
    }
    Ok(headers)
}

// ---- the depacketiser -----------------------------------------------------------------

/// The state of a [`Depacketizer`].
#[verifier::ext_equal]
pub struct AudioView {
    pub cfg: AuHeaderConfig,
    pub frames: int,
    pub bytes: int,
    pub errors: int,
}

/// A depacketiser that has seen nothing.
pub open spec fn unstarted(cfg: AuHeaderConfig) -> AudioView {
    AudioView { cfg, frames: 0, bytes: 0, errors: 0 }
}

/// One more payload that does not unpack.
pub open spec fn failed(v: AudioView) -> (AudioView, Seq<Seq<u8>>) {
    (AudioView { errors: v.errors + 1, ..v }, Seq::empty())
}

/// What one payload does, and its frames.
pub open spec fn after_payload(v: AudioView, payload: Seq<u8>) -> (AudioView, Seq<Seq<u8>>) {
    if payload_fault(payload, v.cfg) is Some {
        failed(v)
    } else {
        let headers = headers_of(payload, v.cfg);
        (
            AudioView {
                frames: v.frames + headers.len(),
                bytes: v.bytes + total_size(headers),
                ..v
            },
            frames_of(payload, v.cfg),
        )
    }
}

/// What one datagram does: one that is not RTP, or will not unpack, is counted and nothing else.
pub open spec fn after_datagram(v: AudioView, packet: Seq<u8>) -> (AudioView, Seq<Seq<u8>>) {
    if rtp::fault(packet) is Some {
        failed(v)
    } else {
        after_payload(v, rtp::payload_of(packet))
    }
}

/// What has been counted. Every counter stays below it.
pub open spec fn load(v: AudioView) -> int {
    v.frames + v.bytes + v.errors
}

/// The most that a packet of this many bytes adds to the load.
pub open spec fn cost(len: nat) -> nat {
    len + 0x1_0000
}

/// The contents of some byte vectors.
pub open spec fn byte_views(frames: Seq<Vec<u8>>) -> Seq<Seq<u8>> {
    frames.map_values(|frame: Vec<u8>| frame@)
}

/// RTP audio packets in, AAC frames out.
///
/// Stateless apart from the configuration and the counters: interleaving is not implemented,
/// because `mode=AAC-hbr` as this server sends it is by definition non-interleaved.
#[derive(Debug, Clone)]
pub struct Depacketizer {
    cfg: AuHeaderConfig,
    frames: u64,
    bytes: u64,
    errors: u64,
}

impl View for Depacketizer {
    type V = AudioView;

    closed spec fn view(&self) -> AudioView {
        AudioView {
            cfg: self.cfg,
            frames: self.frames as int,
            bytes: self.bytes as int,
            errors: self.errors as int,
        }
    }
}

impl Default for Depacketizer {
    fn default() -> (d: Self)
        ensures
            d@ == unstarted(AuHeaderConfig::glasses()),
    {
        Depacketizer::with_config(AuHeaderConfig::default())
    }
}

impl Depacketizer {
    /// With the glasses' header widths.
    pub fn new() -> (d: Self)
        ensures
            d@ == unstarted(AuHeaderConfig::glasses()),
    {
        Self::default()
    }

    /// With widths read from the session description.
    pub fn with_config(cfg: AuHeaderConfig) -> (d: Self)
        ensures
            d@ == unstarted(cfg),
    {
        Depacketizer { cfg, frames: 0, bytes: 0, errors: 0 }
    }

    pub fn config(&self) -> (cfg: AuHeaderConfig)
        ensures
            cfg == self@.cfg,
    {
        self.cfg
    }

    /// Feed one whole RTP datagram; get the AAC frames out of it.
    ///
    /// A datagram that is not RTP, or a payload that will not unpack, yields nothing and bumps
    /// [`Depacketizer::errors`]: a stray packet on the port must not kill the stream.
    pub fn push(&mut self, packet: &[u8]) -> (frames: Vec<Vec<u8>>)
        requires
            load(old(self)@) + cost(packet@.len()) <= u64::MAX,
        ensures
            (final(self)@, byte_views(frames@)) == after_datagram(old(self)@, packet@),
            load(final(self)@) <= load(old(self)@) + cost(packet@.len()),
    {
        match rtp::parse(packet) {
            Ok(p) => self.push_payload(p.payload),
            Err(_) => {
                self.errors = self.errors + 1;
                let none: Vec<Vec<u8>> = Vec::new();
                assert(byte_views(none@) =~= Seq::empty());
                none
            },
        }
    }

    /// Feed a payload whose RTP header a caller already stripped.
    pub fn push_payload(&mut self, payload: &[u8]) -> (frames: Vec<Vec<u8>>)
        requires
            load(old(self)@) + cost(payload@.len()) <= u64::MAX,
        ensures
            (final(self)@, byte_views(frames@)) == after_payload(old(self)@, payload@),
            load(final(self)@) <= load(old(self)@) + cost(payload@.len()),
    {
        let mut out: Vec<Vec<u8>> = Vec::new();
        assert(byte_views(out@) =~= Seq::empty());
        match depacketize(payload, &self.cfg) {
            Ok((headers, frames)) => {
                let ghost cfg = self.cfg;
                let mut total: u64 = 0;
                proof {
                    lemma_header_count(declared_bits(payload@), cfg);
                    assert(headers@.take(0) =~= Seq::empty());
                }
                for i in 0..frames.len()
                    invariant
                        headers@ == headers_of(payload@, cfg),
                        payload_fault(payload@, cfg) is None,
                        payload@.len() <= u64::MAX,
                        frames@.len() == headers@.len(),
                        forall|k: int|
                            0 <= k < frames@.len() ==> (#[trigger] frames@[k])@ == frame_in(
                                payload@,
                                cfg,
                                k,
                            ),
                        total == total_size(headers@.take(i as int)),
                        byte_views(out@) == frames_of(payload@, cfg).take(i as int),
                {
                    proof {
                        lemma_total_size_prefix(headers@, i as int);
                        lemma_frame_len(payload@, cfg, i as int);
                    }
                    let ghost before = byte_views(out@);
                    total = total + frames[i].len() as u64;
                    out.push(slice_to_vec(frames[i]));
                    assert(byte_views(out@) =~= before.push(frame_in(payload@, cfg, i as int)));
                    assert(byte_views(out@) =~= frames_of(payload@, cfg).take(i + 1));
                }
                proof {
                    let n = headers@.len() as int;
                    assert(headers@.take(n) =~= headers@);
                    assert(frames_of(payload@, cfg).take(n) =~= frames_of(payload@, cfg));
                }
                self.frames = self.frames + frames.len() as u64;
                self.bytes = self.bytes + total;
            },
            Err(_) => {
                self.errors = self.errors + 1;
            },
        }
        out
    }

    pub fn frames(&self) -> (n: u64)
        ensures
            n == self@.frames,
    {
        self.frames
    }

    pub fn bytes(&self) -> (n: u64)
        ensures
            n == self@.bytes,
    {
        self.bytes
    }

    pub fn errors(&self) -> (n: u64)
        ensures
            n == self@.errors,
    {
        self.errors
    }
}

/// There are no more headers than bits.
proof fn lemma_header_count(bits: int, cfg: AuHeaderConfig)
    requires
        cfg.size_length > 0,
        0 <= bits,
        whole_headers(bits, cfg),
    ensures
        0 <= header_count(bits, cfg) <= bits,
{
    let first = cfg.first_header_bits() as int;
    let later = cfg.later_header_bits() as int;
    if bits > 0 {
        let d = bits - first;
        assert(0 <= d / later <= d) by (nonlinear_arith)
            requires
                d >= 0,
                later >= 1,
        ;
    }
}

/// A frame has as many bytes as its header declares.
proof fn lemma_frame_len(payload: Seq<u8>, cfg: AuHeaderConfig, i: int)
    requires
        payload_fault(payload, cfg) is None,
        0 <= i < headers_of(payload, cfg).len(),
    ensures
        frame_in(payload, cfg, i).len() == headers_of(payload, cfg)[i].size,
{
    lemma_total_size_prefix(headers_of(payload, cfg), i);
}

// ---- ADTS -----------------------------------------------------------------------------

/// The ADTS header of a frame of `frame_len` bytes: the length counts the header itself.
pub open spec fn adts_bytes(config: AudioSpecificConfig, frame_len: int) -> Seq<u8> {
    let profile = (config.object_type - 1) % 4;
    let freq = config.sampling_frequency_index % 16;
    let chan = config.channel_configuration % 8;
    let len = frame_len + ADTS_HEADER_BYTES;
    seq![
        0xFF,
        0xF1,
        (profile * 64 + freq * 4 + chan / 4) as u8,
        ((chan % 4) * 64 + len / 2048) as u8,
        (len / 8 % 256) as u8,
        ((len % 8) * 32 + 31) as u8,
        0xFC,
    ]
}

/// What is wrong with a frame for ADTS, if anything.
pub open spec fn adts_fault(config: AudioSpecificConfig, frame_len: int) -> Option<AacError> {
    if frame_len + ADTS_HEADER_BYTES > MAX_ADTS_FRAME_BYTES {
        Some(AacError::FrameTooLarge { len: frame_len as usize })
    } else if config.object_type == 0 {
        Some(AacError::UnsupportedConfig)
    } else {
        None
    }
}

/// Build the seven-byte ADTS header for one frame of `frame_len` raw AAC bytes.
///
/// No CRC (`protection_absent = 1`), one AAC frame per ADTS frame, buffer fullness set to the
/// "variable rate" escape `0x7FF`.
pub fn adts_header(config: &AudioSpecificConfig, frame_len: usize) -> (r: Result<
    [u8; ADTS_HEADER_BYTES],
    AacError,
>)
    ensures
        r is Err <==> adts_fault(*config, frame_len as int) is Some,
        r matches Err(e) ==> adts_fault(*config, frame_len as int) == Some(e),
        r matches Ok(header) ==> header@ == adts_bytes(*config, frame_len as int),
{
    if frame_len > MAX_ADTS_FRAME_BYTES - ADTS_HEADER_BYTES {
        return Err(AacError::FrameTooLarge { len: frame_len });
    }
    if config.object_type == 0 {
        return Err(AacError::UnsupportedConfig);
    }
    let profile: u8 = (config.object_type - 1) % 4;
    let freq: u8 = config.sampling_frequency_index % 16;
    let chan: u8 = config.channel_configuration % 8;
    let len: u32 = (frame_len + ADTS_HEADER_BYTES) as u32;
    let header: [u8; ADTS_HEADER_BYTES] = [
        0xFF,
        0xF1,
        profile * 64 + freq * 4 + chan / 4,
        (chan % 4) * 64 + (len / 2048) as u8,
        (len / 8 % 256) as u8,
        (len % 8) as u8 * 32 + 31,
        0xFC,
    ];
    assert(header@ =~= adts_bytes(*config, frame_len as int));
    Ok(header)
}

/// One AAC frame wrapped as a standalone ADTS frame: header and payload, ready to write.
pub fn adts_frame(config: &AudioSpecificConfig, frame: &[u8]) -> (r: Result<Vec<u8>, AacError>)
    ensures
        r is Err <==> adts_fault(*config, frame@.len() as int) is Some,
        r matches Err(e) ==> adts_fault(*config, frame@.len() as int) == Some(e),
        r matches Ok(out) ==> out@ == adts_bytes(*config, frame@.len() as int) + frame@,
{
    match adts_header(config, frame.len()) {
        Ok(header) => {
            let mut out: Vec<u8> = Vec::new();
            out.extend_from_slice(header.as_slice());
            out.extend_from_slice(frame);
            assert(out@ =~= adts_bytes(*config, frame@.len() as int) + frame@);
            Ok(out)
        },
        Err(e) => Err(e),
    }
}

/// The frame length that an ADTS header states, header included.
pub open spec fn adts_length(header: Seq<u8>) -> Option<int> {
    if header.len() < ADTS_HEADER_BYTES || header[0] != 0xFF || header[1] / 16 != 15 {
        None
    } else {
        Some((header[3] % 4) * 2048 + header[4] * 8 + header[5] / 32)
    }
}

/// Read the frame length back out of an ADTS header, for a reader walking a `.aac` file.
pub fn adts_frame_length(header: &[u8]) -> (r: Option<usize>)
    ensures
        match r {
            Some(len) => adts_length(header@) == Some(len as int),
            None => adts_length(header@) is None,
        },
{
    if header.len() < ADTS_HEADER_BYTES || header[0] != 0xFF || header[1] / 16 != 15 {
        return None;
    }
    Some(
        (header[3] % 4) as usize * 2048 + header[4] as usize * 8 + (header[5] / 32) as usize,
    )
}

// ---- laws -----------------------------------------------------------------------------

/// The length read back from an ADTS header is that of the frame and the header together.
pub proof fn lemma_adts_length_round_trip(
    config: AudioSpecificConfig,
    frame_len: nat,
    tail: Seq<u8>,
)
    requires
        adts_fault(config, frame_len as int) is None,
    ensures
        adts_length(adts_bytes(config, frame_len as int) + tail) == Some(
            frame_len + ADTS_HEADER_BYTES,
        ),
{
}

/// The header words of a packet with the glasses' widths: 13 bits of size, 3 bits of index, which
/// is 0 for the first frame and 1 for each after it.
pub open spec fn header_words(frames: Seq<Seq<u8>>) -> Seq<u8>
    decreases frames.len(),
{
    if frames.len() == 0 {
        Seq::empty()
    } else {
        let word = frames.last().len() * 8 + if frames.len() == 1 {
            0nat
        } else {
            1
        };
        header_words(frames.drop_last()) + seq![(word / 256) as u8, (word % 256) as u8]
    }
}

/// The payload that carries these frames with the glasses' widths.
pub open spec fn packed(frames: Seq<Seq<u8>>) -> Seq<u8> {
    let bits = 16 * frames.len();
    seq![(bits / 256) as u8, (bits % 256) as u8] + header_words(frames) + frames.flatten()
}

/// The bits of one byte of a 16-bit header, read one by one.
proof fn lemma_byte_bits(block: Seq<u8>, at: int)
    requires
        0 <= at < block.len(),
    ensures
        forall|k: int| 0 <= k < 8 ==> #[trigger] bit_at(block, 8 * at + k) == ((block[at] >> ((7
            - k) as u8)) & 1) as nat,
{
    assert forall|k: int| 0 <= k < 8 implies #[trigger] bit_at(block, 8 * at + k) == ((block[at]
        >> ((7 - k) as u8)) & 1) as nat by {
        assert((8 * at + k) / 8 == at);
        assert((8 * at + k) % 8 == k);
    }
}

/// The upper 13 bits of a 16-bit header.
#[verifier::spinoff_prover]
proof fn lemma_upper_field(block: Seq<u8>, i: int)
    requires
        0 <= i,
        2 * i + 1 < block.len(),
    ensures
        field(block, 16 * i, 13) == wire::be16_at(block, 2 * i) / 8,
{
    let at = 16 * i;
    let a = block[2 * i];
    let b = block[2 * i + 1];
    lemma_byte_bits(block, 2 * i);
    lemma_byte_bits(block, 2 * i + 1);
    assert(field(block, at, 8) == 128 * bit_at(block, at) + 64 * bit_at(block, at + 1) + 32
        * bit_at(block, at + 2) + 16 * bit_at(block, at + 3) + 8 * bit_at(block, at + 4) + 4
        * bit_at(block, at + 5) + 2 * bit_at(block, at + 6) + bit_at(block, at + 7)) by {
        reveal_with_fuel(field, 9);
    }
    assert(field(block, at, 13) == 32 * field(block, at, 8) + 16 * bit_at(block, at + 8) + 8
        * bit_at(block, at + 9) + 4 * bit_at(block, at + 10) + 2 * bit_at(block, at + 11)
        + bit_at(block, at + 12)) by {
        reveal_with_fuel(field, 6);
    }
    assert(field(block, at, 8) == a) by {
        assert(((a >> 7) & 1) * 128 + ((a >> 6) & 1) * 64 + ((a >> 5) & 1) * 32 + ((a >> 4) & 1)
            * 16 + ((a >> 3) & 1) * 8 + ((a >> 2) & 1) * 4 + ((a >> 1) & 1) * 2 + ((a >> 0) & 1)
            == a) by (bit_vector);
        assert(bit_at(block, 8 * (2 * i) + 0) == ((a >> 7u8) & 1) as nat);
        assert(bit_at(block, 8 * (2 * i) + 1) == ((a >> 6u8) & 1) as nat);
        assert(bit_at(block, 8 * (2 * i) + 2) == ((a >> 5u8) & 1) as nat);
        assert(bit_at(block, 8 * (2 * i) + 3) == ((a >> 4u8) & 1) as nat);
        assert(bit_at(block, 8 * (2 * i) + 4) == ((a >> 3u8) & 1) as nat);
        assert(bit_at(block, 8 * (2 * i) + 5) == ((a >> 2u8) & 1) as nat);
        assert(bit_at(block, 8 * (2 * i) + 6) == ((a >> 1u8) & 1) as nat);
        assert(bit_at(block, 8 * (2 * i) + 7) == ((a >> 0u8) & 1) as nat);
    }
    assert(16 * bit_at(block, at + 8) + 8 * bit_at(block, at + 9) + 4 * bit_at(block, at + 10) + 2
        * bit_at(block, at + 11) + bit_at(block, at + 12) == b / 8) by {
        assert(((b >> 7) & 1) * 16 + ((b >> 6) & 1) * 8 + ((b >> 5) & 1) * 4 + ((b >> 4) & 1) * 2 + ((b
            >> 3) & 1) == b / 8) by (bit_vector);
        assert(bit_at(block, 8 * (2 * i + 1) + 0) == ((b >> 7u8) & 1) as nat);
        assert(bit_at(block, 8 * (2 * i + 1) + 1) == ((b >> 6u8) & 1) as nat);
        assert(bit_at(block, 8 * (2 * i + 1) + 2) == ((b >> 5u8) & 1) as nat);
        assert(bit_at(block, 8 * (2 * i + 1) + 3) == ((b >> 4u8) & 1) as nat);
        assert(bit_at(block, 8 * (2 * i + 1) + 4) == ((b >> 3u8) & 1) as nat);
    }
}

/// The header words, one by one.
proof fn lemma_header_words(frames: Seq<Seq<u8>>, i: int)
    requires
        forall|k: int| 0 <= k < frames.len() ==> (#[trigger] frames[k]).len() < 8192,
        0 <= i < frames.len(),
    ensures
        header_words(frames).len() == 2 * frames.len(),
        wire::be16_at(header_words(frames), 2 * i) / 8 == frames[i].len(),
    decreases frames.len(),
{
    let before = frames.drop_last();
    lemma_header_words_len(before);
    if i < frames.len() - 1 {
        lemma_header_words(before, i);
    } else {
        assert(frames[i].len() < 8192);
    }
}

proof fn lemma_header_words_len(frames: Seq<Seq<u8>>)
    ensures
        header_words(frames).len() == 2 * frames.len(),
    decreases frames.len(),
{
    if frames.len() > 0 {
        lemma_header_words_len(frames.drop_last());
    }
}

/// Where frame `n` begins among joined frames.
proof fn lemma_flatten_prefix(frames: Seq<Seq<u8>>, headers: Seq<AuHeader>, n: int)
    requires
        0 <= n <= frames.len(),
        frames.len() == headers.len(),
        forall|k: int| 0 <= k < frames.len() ==> (#[trigger] headers[k]).size == frames[k].len(),
    ensures
        frames.take(n).flatten().len() == total_size(headers.take(n)),
        frames.flatten().take(frames.take(n).flatten().len() as int) == frames.take(n).flatten(),
        frames.take(n).flatten().len() <= frames.flatten().len(),
    decreases frames.len() - n,
{
    if n < frames.len() {
        lemma_flatten_prefix(frames, headers, n + 1);
        let next = frames.take(n + 1);
        assert(next.drop_last() =~= frames.take(n));
        assert(headers.take(n + 1).drop_last() =~= headers.take(n));
        next.lemma_flatten_and_flatten_alt_are_equivalent();
        frames.take(n).lemma_flatten_and_flatten_alt_are_equivalent();
        assert(next.flatten() == frames.take(n).flatten() + frames[n]);
        let len = frames.take(n).flatten().len() as int;
        assert(frames.flatten().take(len) =~= next.flatten().take(len));
        assert(next.flatten().take(len) =~= frames.take(n).flatten());
    } else {
        assert(frames.take(n) =~= frames);
        assert(headers.take(n) =~= headers);
        assert(frames.flatten().take(frames.flatten().len() as int) =~= frames.flatten());
        lemma_flatten_len(frames, headers);
    }
}

proof fn lemma_flatten_len(frames: Seq<Seq<u8>>, headers: Seq<AuHeader>)
    requires
        frames.len() == headers.len(),
        forall|k: int| 0 <= k < frames.len() ==> (#[trigger] headers[k]).size == frames[k].len(),
    ensures
        frames.flatten().len() == total_size(headers),
    decreases frames.len(),
{
    frames.lemma_flatten_and_flatten_alt_are_equivalent();
    if frames.len() > 0 {
        frames.drop_last().lemma_flatten_and_flatten_alt_are_equivalent();
        lemma_flatten_len(frames.drop_last(), headers.drop_last());
        assert(headers.last().size == frames.last().len());
    }
}

/// Frames packed into one payload with the glasses' widths come back as they were, whatever their
/// number and sizes, as far as the length fields reach.
pub proof fn lemma_frames_come_back(frames: Seq<Seq<u8>>)
    requires
        frames.len() < 4096,
        forall|k: int| 0 <= k < frames.len() ==> (#[trigger] frames[k]).len() < 8192,
    ensures
        payload_fault(packed(frames), AuHeaderConfig::glasses()) is None,
        frames_of(packed(frames), AuHeaderConfig::glasses()) == frames,
{
    let cfg = AuHeaderConfig::glasses();
    let payload = packed(frames);
    let n = frames.len() as int;
    let words = header_words(frames);
    lemma_header_words_len(frames);
    assert(declared_bits(payload) == 16 * n);
    assert(data_at(payload) == 2 + 2 * n);
    assert(header_block(payload) =~= words);
    let headers = headers_of(payload, cfg);
    assert(header_count(16 * n, cfg) == n);
    assert(whole_headers(16 * n, cfg));
    assert forall|k: int| 0 <= k < n implies (#[trigger] headers[k]).size == frames[k].len() by {
        lemma_upper_field(words, k);
        lemma_header_words(frames, k);
        assert(header_at(cfg, k) == 16 * k);
    }
    lemma_flatten_len(frames, headers);
    assert(payload.len() == data_at(payload) + frames.flatten().len());
    let data = payload.skip(data_at(payload));
    assert(data =~= frames.flatten());
    assert forall|k: int| 0 <= k < n implies frame_in(payload, cfg, k) == #[trigger] frames[k] by {
        lemma_flatten_prefix(frames, headers, k);
        lemma_flatten_prefix(frames, headers, k + 1);
        let next = frames.take(k + 1);
        assert(next.drop_last() =~= frames.take(k));
        next.lemma_flatten_and_flatten_alt_are_equivalent();
        frames.take(k).lemma_flatten_and_flatten_alt_are_equivalent();
        assert(next.flatten() == frames.take(k).flatten() + frames[k]);
        let at = total_size(headers.take(k));
        assert(frame_in(payload, cfg, k) =~= data.subrange(at, at + frames[k].len()));
        assert(data.subrange(at, at + frames[k].len()) =~= next.flatten().skip(at));
        assert(next.flatten().skip(at) =~= frames[k]);
    }
    assert(frames_of(payload, cfg) =~= frames);
}

// ---- what the bytes of a header mean -------------------------------------------------------

/// Read field by field, the header of any frame says what the frame is: the twelve set bits that it
/// begins with, no checksum, the object type less one, the rate and the channels, the length of
/// header and frame together, the highest buffer fullness, and one frame behind it.
#[verifier::spinoff_prover]
#[verifier::rlimit(60)]
pub proof fn lemma_what_an_adts_header_says(config: AudioSpecificConfig, frame_len: int)
    requires
        0 <= frame_len,
        frame_len + 7 <= 8191,
        1 <= config.object_type <= 4,
        config.sampling_frequency_index < 16,
        config.channel_configuration < 8,
    ensures
        ({
            let h = adts_bytes(config, frame_len);
            &&& adts_fault(config, frame_len) is None
            &&& h.len() == 7
            &&& h[0] * 16 + h[1] / 16 == 0xFFF
            &&& h[1] / 8 % 2 == 0
            &&& h[1] / 2 % 4 == 0
            &&& h[1] % 2 == 1
            &&& h[2] / 64 == config.object_type - 1
            &&& h[2] / 4 % 16 == config.sampling_frequency_index
            &&& h[2] / 2 % 2 == 0
            &&& h[2] % 2 * 4 + h[3] / 64 == config.channel_configuration
            &&& h[3] / 4 % 16 == 0
            &&& h[3] % 4 * 2048 + h[4] * 8 + h[5] / 32 == frame_len + 7
            &&& h[5] % 32 * 64 + h[6] / 4 == 0x7FF
            &&& h[6] % 4 == 0
        }),
{
}

/// A wider object type, rate or channel number keeps only the bits that its field has, and leaves
/// every other field alone.
#[verifier::spinoff_prover]
#[verifier::rlimit(60)]
pub proof fn lemma_an_adts_field_keeps_to_its_bits(config: AudioSpecificConfig, frame_len: int)
    requires
        0 <= frame_len,
        frame_len + 7 <= 8191,
        1 <= config.object_type,
    ensures
        adts_bytes(config, frame_len) == adts_bytes(
            AudioSpecificConfig {
                object_type: (1 + (config.object_type - 1) % 4) as u8,
                sampling_frequency_index: config.sampling_frequency_index % 16,
                channel_configuration: config.channel_configuration % 8,
                sample_rate_hz: 0,
            },
            frame_len,
        ),
{
    assert(adts_bytes(config, frame_len) =~= adts_bytes(
        AudioSpecificConfig {
            object_type: (1 + (config.object_type - 1) % 4) as u8,
            sampling_frequency_index: config.sampling_frequency_index % 16,
            channel_configuration: config.channel_configuration % 8,
            sample_rate_hz: 0,
        },
        frame_len,
    ));
}

/// The only frames without a header: those of more than 8184 bytes, and those without an object
/// type.
pub proof fn lemma_what_has_no_adts_header(config: AudioSpecificConfig, frame_len: int)
    requires
        0 <= frame_len <= usize::MAX,
    ensures
        frame_len > 8184 ==> adts_fault(config, frame_len) == Some(
            AacError::FrameTooLarge { len: frame_len as usize },
        ),
        frame_len <= 8184 && config.object_type == 0 ==> adts_fault(config, frame_len) == Some(
            AacError::UnsupportedConfig,
        ),
        frame_len <= 8184 && config.object_type > 0 ==> adts_fault(config, frame_len) is None,
{
}

/// What the length of a header is read from, and what is no header.
pub proof fn lemma_what_an_adts_length_is(h: Seq<u8>)
    ensures
        h.len() < 7 || h[0] != 0xFF || h[1] < 0xF0 ==> adts_length(h) is None,
        h.len() >= 7 && h[0] == 0xFF && h[1] >= 0xF0 ==> adts_length(h) == Some(
            h[3] % 4 * 2048 + h[4] * 8 + h[5] / 32,
        ),
{
}

/// A configuration reads back as it was put together: five bits of object type, four of rate, four
/// of channels, whatever follows. Object types 0 and 31, and rates without a number in the table,
/// are not supported, and neither are fewer than two bytes.
pub proof fn lemma_a_config_reads_back(
    object_type: u8,
    index: u8,
    channels: u8,
    low: u8,
    tail: Seq<u8>,
)
    requires
        object_type < 32,
        index < 16,
        channels < 16,
        low < 8,
    ensures
        ({
            let b = seq![
                (object_type * 8 + index / 2) as u8,
                (index % 2 * 128 + channels * 8 + low) as u8,
            ] + tail;
            config_of(b) == if object_type == 0 || object_type == 31 || index > 12 {
                Err(AacError::UnsupportedConfig)
            } else {
                Ok(
                    AudioSpecificConfig {
                        object_type,
                        sampling_frequency_index: index,
                        channel_configuration: channels,
                        sample_rate_hz: SAMPLE_RATES@[index as int],
                    },
                )
            }
        }),
        config_of(seq![low]) == Err::<AudioSpecificConfig, _>(AacError::UnsupportedConfig),
        config_of(Seq::empty()) == Err::<AudioSpecificConfig, _>(AacError::UnsupportedConfig),
{
    let b = seq![
        (object_type * 8 + index / 2) as u8,
        (index % 2 * 128 + channels * 8 + low) as u8,
    ] + tail;
    assert(b[0] == object_type * 8 + index / 2);
    assert(b[1] == index % 2 * 128 + channels * 8 + low);
    lemma_config_fields(
        object_type as int,
        index as int,
        channels as int,
        low as int,
        wire::be16_at(b, 0),
    );
    assert(seq![low].len() == 1);
}

proof fn lemma_config_fields(object_type: int, index: int, channels: int, low: int, word: int)
    requires
        0 <= object_type < 32,
        0 <= index < 16,
        0 <= channels < 16,
        0 <= low < 8,
        word == (object_type * 8 + index / 2) * 256 + (index % 2 * 128 + channels * 8 + low),
    ensures
        word / 2048 == object_type,
        word / 128 % 16 == index,
        word / 8 % 16 == channels,
{
    let rest = 8 * channels + low;
    assert(word == 128 * (16 * object_type + index) + rest) by {
        assert(index == 2 * (index / 2) + index % 2);
    }
    assert(0 <= rest < 128);
    vstd::arithmetic::div_mod::lemma_fundamental_div_mod_converse(
        word,
        128,
        16 * object_type + index,
        rest,
    );
    vstd::arithmetic::div_mod::lemma_fundamental_div_mod_converse(
        word,
        2048,
        object_type,
        128 * index + rest,
    );
    vstd::arithmetic::div_mod::lemma_fundamental_div_mod_converse(
        word,
        8,
        256 * object_type + 16 * index + channels,
        low,
    );
}

/// The rates that the first thirteen indices stand for.
pub proof fn lemma_the_sample_rates()
    ensures
        SAMPLE_RATES@ == seq![
            96_000u32,
            88_200,
            64_000,
            48_000,
            44_100,
            32_000,
            24_000,
            22_050,
            16_000,
            12_000,
            11_025,
            8_000,
            7_350,
        ],
{
    assert(SAMPLE_RATES@ =~= seq![
        96_000u32,
        88_200,
        64_000,
        48_000,
        44_100,
        32_000,
        24_000,
        22_050,
        16_000,
        12_000,
        11_025,
        8_000,
        7_350,
    ]);
}

/// A hexadecimal digit: `0` to `9`, `a` to `f` and `A` to `F`, and nothing else.
pub proof fn lemma_what_a_hexadecimal_digit_is(c: char, n: int)
    requires
        0 <= n < 16,
    ensures
        hex_value(c) == Some(n) <==> {
            ||| n < 10 && c as u32 == 0x30 + n
            ||| n >= 10 && c as u32 == 0x41 + (n - 10)
            ||| n >= 10 && c as u32 == 0x61 + (n - 10)
        },
{
}

/// Hexadecimal text is its bytes, two digits each, most significant digit first.
pub proof fn lemma_hexadecimal_text_is_its_bytes(s: Seq<char>, bytes: Seq<u8>)
    requires
        s.len() == 2 * bytes.len(),
        forall|i: int|
            0 <= i < bytes.len() ==> hex_value(s[2 * i]) == Some((#[trigger] bytes[i] / 16) as int)
                && hex_value(s[2 * i + 1]) == Some((bytes[i] % 16) as int),
    ensures
        hex_bytes(s) == Some(bytes),
{
    assert forall|i: int| 0 <= i < s.len() / 2 implies #[trigger] hex_pair(s[2 * i], s[2 * i + 1])
        == Some(bytes[i] as int) by {
        assert(hex_value(s[2 * i]) == Some((bytes[i] / 16) as int));
    }
    assert(hex_bytes(s) is Some);
    assert(hex_bytes(s)->Some_0 =~= bytes);
}

/// An odd number of characters, or one that is no digit where none may stand, is no hexadecimal
/// text.
pub proof fn lemma_what_is_no_hexadecimal_text(s: Seq<char>, i: int)
    requires
        s.len() % 2 == 1 || (0 <= i < s.len() && hex_value(s[i]) is None && (i % 2 == 1 || s[i]
            != '+')),
    ensures
        hex_bytes(s) is None,
{
    if s.len() % 2 == 0 {
        let k = i / 2;
        assert(hex_pair(s[2 * k], s[2 * k + 1]) is None);
    }
}

/// A field of bits reads like a number: one bit is its place in its byte, and a field is its upper
/// part shifted by the width of its lower part, which follows it.
pub proof fn lemma_a_field_is_its_bits(block: Seq<u8>, at: int, n: nat, m: nat)
    requires
        0 <= at,
        at + n + m <= 8 * block.len(),
    ensures
        field(block, at, 0) == 0,
        n == 1 ==> field(block, at, 1) == block[at / 8] / pow2((7 - at % 8) as nat) as u8 % 2,
        field(block, at, n + m) == field(block, at, n) * pow2(m) + field(block, at + n, m),
    decreases m,
{
    if n == 1 {
        let byte = block[at / 8];
        let k = (7 - at % 8) as u8;
        lemma_bit_is_a_quotient(byte, k);
        assert(field(block, at, 0) == 0);
        assert(field(block, at, 1) == 2 * field(block, at, 0) + bit_at(block, at));
    }
    lemma2_to64();
    if m > 0 {
        lemma_a_field_is_its_bits(block, at, n, (m - 1) as nat);
        lemma_pow2_unfold(m);
        let high = field(block, at, n) as int;
        let half = pow2((m - 1) as nat) as int;
        assert(2 * (high * half) == high * (2 * half)) by (nonlinear_arith);
        assert(field(block, at, n + m) == 2 * field(block, at, (n + m - 1) as nat) + bit_at(
            block,
            at + (n + m) - 1,
        ));
    } else {
        assert(field(block, at, n) * pow2(0) == field(block, at, n));
    }
}

proof fn lemma_bit_is_a_quotient(byte: u8, k: u8)
    requires
        k < 8,
    ensures
        ((byte >> k) & 1) == byte / pow2(k as nat) as u8 % 2,
{
    lemma2_to64();
    assert(((byte >> 0u8) & 1) == byte / 1 % 2) by (bit_vector);
    assert(((byte >> 1u8) & 1) == byte / 2 % 2) by (bit_vector);
    assert(((byte >> 2u8) & 1) == byte / 4 % 2) by (bit_vector);
    assert(((byte >> 3u8) & 1) == byte / 8 % 2) by (bit_vector);
    assert(((byte >> 4u8) & 1) == byte / 16 % 2) by (bit_vector);
    assert(((byte >> 5u8) & 1) == byte / 32 % 2) by (bit_vector);
    assert(((byte >> 6u8) & 1) == byte / 64 % 2) by (bit_vector);
    assert(((byte >> 7u8) & 1) == byte / 128 % 2) by (bit_vector);
}

/// Where each header of a payload stands: the first at the first bit behind the two length bytes,
/// each later one right behind the one before, the size in front of the index.
pub proof fn lemma_where_a_header_stands(payload: Seq<u8>, cfg: AuHeaderConfig, i: int)
    requires
        payload_fault(payload, cfg) is None,
        0 <= i < headers_of(payload, cfg).len(),
    ensures
        ({
            let bits = payload[0] * 256 + payload[1];
            let block = payload.subrange(2, 2 + (bits + 7) / 8);
            let index_len = if i == 0 {
                cfg.index_length as int
            } else {
                cfg.index_delta_length as int
            };
            let at = if i == 0 {
                0int
            } else {
                cfg.size_length + cfg.index_length + (i - 1) * (cfg.size_length
                    + cfg.index_delta_length)
            };
            let header = headers_of(payload, cfg)[i];
            &&& header.size == field(block, at, cfg.size_length as nat)
            &&& header.index == field(block, at + cfg.size_length, index_len as nat)
            &&& at + cfg.size_length + index_len <= bits
            &&& i == headers_of(payload, cfg).len() - 1 ==> at + cfg.size_length + index_len == bits
        }),
{
    let bits = declared_bits(payload);
    let later = cfg.later_header_bits() as int;
    let first = cfg.first_header_bits() as int;
    let n = headers_of(payload, cfg).len() as int;
    let block = header_block(payload);
    assert(bits > 0);
    assert(!unreadable(bits, cfg));
    let q = (bits - first) / later;
    vstd::arithmetic::div_mod::lemma_fundamental_div_mod(bits - first, later);
    assert(n == 1 + q);
    assert(i <= q);
    assert(i * later <= q * later) by (nonlinear_arith)
        requires
            i <= q,
            later > 0,
    ;
    assert(q * later == later * q) by (nonlinear_arith);
    if i > 0 {
        assert((i - 1) * later + later == i * later) by (nonlinear_arith);
        assert(bits >= first + later);
    }
    lemma_field_fits(block, header_at(cfg, i), cfg.size_length as nat);
    lemma_field_fits(
        block,
        header_at(cfg, i) + cfg.size_length,
        index_bits(cfg, i) as nat,
    );
    assert(u32::MAX <= usize::MAX);
}

/// The frames of a payload follow its headers one after the other, each as long as its header says,
/// and lie in the payload.
pub proof fn lemma_where_a_frame_stands(payload: Seq<u8>, cfg: AuHeaderConfig, i: int)
    requires
        payload_fault(payload, cfg) is None,
        0 <= i < frames_of(payload, cfg).len(),
    ensures
        ({
            let bits = payload[0] * 256 + payload[1];
            let frames = frames_of(payload, cfg);
            let at = 2 + (bits + 7) / 8 + frames.take(i).flatten().len();
            &&& frames.len() == headers_of(payload, cfg).len()
            &&& frames[i].len() == headers_of(payload, cfg)[i].size
            &&& at + frames[i].len() <= payload.len()
            &&& frames[i] == payload.subrange(at as int, at + frames[i].len())
        }),
{
    let headers = headers_of(payload, cfg);
    let frames = frames_of(payload, cfg);
    lemma_frames_add_up(payload, cfg, i);
    lemma_total_size_prefix(headers, i + 1);
    assert(headers.take(i + 1).drop_last() =~= headers.take(i));
    lemma_total_size_nonnegative(headers.take(i));
}

/// The first frames of a payload are as long as their headers say, together.
proof fn lemma_frames_add_up(payload: Seq<u8>, cfg: AuHeaderConfig, i: int)
    requires
        payload_fault(payload, cfg) is None,
        0 <= i <= frames_of(payload, cfg).len(),
    ensures
        frames_of(payload, cfg).take(i).flatten().len() == total_size(
            headers_of(payload, cfg).take(i),
        ),
    decreases i,
{
    let headers = headers_of(payload, cfg);
    let frames = frames_of(payload, cfg);
    if i == 0 {
        assert(frames.take(0) =~= Seq::empty());
        assert(headers.take(0) =~= Seq::empty());
    } else {
        lemma_frames_add_up(payload, cfg, i - 1);
        assert(frames.take(i) =~= frames.take(i - 1).push(frames[i - 1]));
        frames.take(i - 1).lemma_flatten_push(frames[i - 1]);
        assert(headers.take(i).drop_last() =~= headers.take(i - 1));
        lemma_total_size_prefix(headers, i);
        lemma_total_size_nonnegative(headers.take(i - 1));
    }
}

/// What is no payload, and why: a size of no bits, no room for the length or for the headers, a
/// field of more than 32 bits, headers that do not fill the bits declared, or frames that are
/// longer than what is left.
pub proof fn lemma_what_is_no_payload(payload: Seq<u8>, cfg: AuHeaderConfig)
    requires
        payload.len() <= usize::MAX,
    ensures
        ({
            let bits = payload[0] * 256 + payload[1];
            let first = cfg.size_length + cfg.index_length;
            let later = cfg.size_length + cfg.index_delta_length;
            let wide = bits > 0 && bits >= first && (cfg.size_length > 32 || cfg.index_length > 32)
                || bits >= first + later && cfg.index_delta_length > 32;
            let bad_length = Some(
                AacError::BadAuHeadersLength {
                    bits: bits as u32,
                    payload_len: payload.len() as usize,
                },
            );
            if cfg.size_length == 0 {
                payload_fault(payload, cfg) == Some(AacError::ZeroSizeLength)
            } else if payload.len() < 2 {
                payload_fault(payload, cfg) == Some(AacError::PayloadTooShort)
            } else if 2 + (bits + 7) / 8 > payload.len() {
                payload_fault(payload, cfg) == bad_length
            } else if wide {
                payload_fault(payload, cfg) == Some(AacError::PayloadTooShort)
            } else if bits > 0 && (bits < first || (bits - first) % later != 0) {
                payload_fault(payload, cfg) == bad_length
            } else {
                let declared = total_size(headers_of(payload, cfg));
                let available = payload.len() - (2 + (bits + 7) / 8);
                payload_fault(payload, cfg) == if declared <= available {
                    None
                } else {
                    Some(
                        AacError::TruncatedAu {
                            declared: if declared <= usize::MAX {
                                declared as usize
                            } else {
                                usize::MAX
                            },
                            available: available as usize,
                        },
                    )
                }
            }
        }),
{
}

/// The frames of some headers are as long as each of them says, together.
pub proof fn lemma_sizes_add_up(headers: Seq<AuHeader>, header: AuHeader)
    ensures
        total_size(Seq::empty()) == 0,
        total_size(headers.push(header)) == total_size(headers) + header.size,
{
    assert(headers.push(header).drop_last() =~= headers);
}

/// A payload without headers holds no frames.
pub proof fn lemma_no_headers_no_frames(tail: Seq<u8>, cfg: AuHeaderConfig)
    requires
        cfg.size_length > 0,
    ensures
        payload_fault(seq![0u8, 0u8] + tail, cfg) is None,
        frames_of(seq![0u8, 0u8] + tail, cfg).len() == 0,
{
    assert(headers_of(seq![0u8, 0u8] + tail, cfg).len() == 0);
}

/// What some payloads give, one after the other.
pub open spec fn after_payloads(v: AudioView, payloads: Seq<Seq<u8>>) -> (AudioView, Seq<Seq<u8>>)
    decreases payloads.len(),
{
    if payloads.len() == 0 {
        (v, Seq::empty())
    } else {
        let (before, frames) = after_payloads(v, payloads.drop_last());
        let (after, more) = after_payload(before, payloads.last());
        (after, frames + more)
    }
}

/// The statistics count what was handed over: every frame, its bytes, and every payload that was
/// refused. Those give nothing; the others give all of their frames.
pub proof fn lemma_what_is_handed_over_is_counted(cfg: AuHeaderConfig, payloads: Seq<Seq<u8>>)
    ensures
        ({
            let (v, frames) = after_payloads(unstarted(cfg), payloads);
            let refused = payloads.filter(|p: Seq<u8>| payload_fault(p, cfg) is Some);
            &&& v.cfg == cfg
            &&& v.frames == frames.len()
            &&& v.bytes == frames.flatten().len()
            &&& v.errors == refused.len()
        }),
    decreases payloads.len(),
{
    reveal(Seq::filter);
    if payloads.len() > 0 {
        let before = payloads.drop_last();
        let payload = payloads.last();
        lemma_what_is_handed_over_is_counted(cfg, before);
        let (v, frames) = after_payloads(unstarted(cfg), before);
        let (w, more) = after_payload(v, payload);
        vstd::seq_lib::lemma_flatten_concat(frames, more);
        if payload_fault(payload, cfg) is None {
            let n = more.len() as int;
            lemma_frames_add_up(payload, cfg, n);
            assert(more.take(n) =~= more);
            assert(headers_of(payload, cfg).take(n) =~= headers_of(payload, cfg));
        } else {
            assert(more =~= Seq::empty());
        }
    }
}

/// A datagram that is no RTP packet is refused, and any other is its payload.
pub proof fn lemma_a_datagram_is_its_payload(v: AudioView, packet: Seq<u8>)
    ensures
        rtp::fault(packet) is None ==> after_datagram(v, packet) == after_payload(
            v,
            rtp::payload_of(packet),
        ),
        rtp::fault(packet) is Some ==> after_datagram(v, packet) == (
            AudioView { errors: v.errors + 1, ..v },
            Seq::<Seq<u8>>::empty(),
        ),
{
}

/// What the glasses send is what the two bytes `14 08` configure, and what they count sizes and
/// indices in.
pub proof fn lemma_what_the_glasses_send()
    ensures
        config_of(seq![0x14u8, 0x08]) == Ok::<AudioSpecificConfig, AacError>(
            AudioSpecificConfig::glasses(),
        ),
        AuHeaderConfig::glasses().size_length == 13,
        AuHeaderConfig::glasses().index_length == 3,
        AuHeaderConfig::glasses().index_delta_length == 3,
{
    lemma_the_sample_rates();
}

// ---- what the operations give back -----------------------------------------------------------

/// The header that is given says what it is asked to say: the sync word, no checksum behind it, the
/// profile, the rate and the channels, the length with its own seven bytes, and one block of audio.
pub proof fn lemma_what_a_given_adts_header_says(
    config: AudioSpecificConfig,
    frame_len: usize,
    r: Result<[u8; ADTS_HEADER_BYTES], AacError>,
)
    requires
        frame_len + 7 <= 8191,
        1 <= config.object_type <= 4,
        config.sampling_frequency_index < 16,
        config.channel_configuration < 8,
    ensures
        call_ensures(adts_header, (&config, frame_len), r) ==> r is Ok && ({
            let h = r->Ok_0@;
            &&& h.len() == 7
            &&& h[0] == 0xFF
            &&& h[1] == 0xF1
            &&& h[2] / 64 == config.object_type - 1
            &&& h[2] / 4 % 16 == config.sampling_frequency_index
            &&& h[2] % 4 * 4 + h[3] / 64 == config.channel_configuration
            &&& h[3] % 64 * 2048 + h[4] * 8 + h[5] / 32 == frame_len + 7
            &&& h[5] % 32 == 31
            &&& h[6] == 0xFC
        }),
{
    lemma_what_an_adts_header_says(config, frame_len as int);
}

/// A frame that is given is seven bytes of header and the audio as it was, and says how long it is.
pub proof fn lemma_a_given_adts_frame_keeps_its_audio(
    config: AudioSpecificConfig,
    audio: &[u8],
    r: Result<Vec<u8>, AacError>,
)
    requires
        audio@.len() + 7 <= 8191,
        config.object_type >= 1,
    ensures
        call_ensures(adts_frame, (&config, audio), r) ==> r is Ok && ({
            let out = r->Ok_0@;
            &&& out.len() == audio@.len() + 7
            &&& out.skip(7) == audio@
            &&& out[0] == 0xFF
            &&& out[1] == 0xF1
            &&& out[3] % 4 * 2048 + out[4] * 8 + out[5] / 32 == out.len()
            &&& out[6] == 0xFC
        }),
{
    if call_ensures(adts_frame, (&config, audio), r) {
        assert(r->Ok_0@.skip(7) =~= audio@);
    }
}

/// What is too long for a header, or of no type, is refused by name.
pub proof fn lemma_what_gets_no_adts_header(
    config: AudioSpecificConfig,
    frame_len: usize,
    r: Result<[u8; ADTS_HEADER_BYTES], AacError>,
)
    ensures
        call_ensures(adts_header, (&config, frame_len), r) && frame_len > 8184 ==> r == Err::<
            [u8; ADTS_HEADER_BYTES],
            AacError,
        >(AacError::FrameTooLarge { len: frame_len }),
        call_ensures(adts_header, (&config, frame_len), r) && frame_len <= 8184
            && config.object_type == 0 ==> r == Err::<[u8; ADTS_HEADER_BYTES], AacError>(
            AacError::UnsupportedConfig,
        ),
{
}

/// The widths of the header fields come from the three parameters of their names, and only a
/// stream that says how wide a size is has any.
pub proof fn lemma_where_the_widths_come_from(fmtp: Fmtp, r: Option<AuHeaderConfig>)
    ensures
        call_ensures(AuHeaderConfig::from_fmtp, (&fmtp,), r) ==> {
            let size = sdp::width_of(fmtp@, "sizeLength"@);
            let index = sdp::width_of(fmtp@, "indexLength"@);
            let delta = sdp::width_of(fmtp@, "indexDeltaLength"@);
            &&& r is Some <==> size is Some
            &&& r matches Some(cfg) ==> {
                &&& cfg.size_length == size->Some_0 % 256
                &&& cfg.index_length == if index is Some {
                    index->Some_0 % 256
                } else {
                    0
                }
                &&& cfg.index_delta_length == if delta is Some {
                    delta->Some_0 % 256
                } else {
                    0
                }
            }
        },
{
}

/// What a fault reads as: what is wrong, and the numbers that it was told, in decimal.
pub proof fn lemma_what_a_fault_reads_as(e: AacError, s: String)
    ensures
        call_ensures(AacError::to_string, (&e,), s) ==> match e {
            AacError::PayloadTooShort => s@ == "payload shorter than the AU-headers-length"@,
            AacError::BadAuHeadersLength { bits, payload_len } => s@ == "AU-headers-length "@
                + text::decimal_text(bits as int) + " bits does not fit "@ + text::decimal_text(
                payload_len as int,
            ) + " bytes"@,
            AacError::TruncatedAu { declared, available } => s@ == "AU headers declare "@
                + text::decimal_text(declared as int) + " bytes, "@ + text::decimal_text(
                available as int,
            ) + " present"@,
            AacError::FrameTooLarge { len } => s@ == text::decimal_text(len as int)
                + " bytes will not fit an ADTS frame"@,
            AacError::UnsupportedConfig => s@ == "unsupported AudioSpecificConfig"@,
            AacError::ZeroSizeLength => s@ == "sizeLength is zero"@,
        },
{
}

} // verus!

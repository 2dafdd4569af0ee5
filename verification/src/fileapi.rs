//! The Wi-Fi file API: URLs, the reply shapes, and the completeness rule.
//!
//! After `0x39` raises the SoftAP the glasses serve a small JSON-over-HTTP API on
//! `192.168.169.1`. This module owns everything about it that is arithmetic or a string: the four
//! paths, the percent-encoding, the two reply parsers, the KiB rule, and the order a sync should
//! walk. It owns no socket.
//!
//! ```text
//! list       GET /app/getfilelist
//! thumbnail  GET /app/getthumbnail?file=EVENT/20260727223716.jpg
//! download   GET /EVENT/20260727223716.jpg
//! delete     GET /app/deletefile?file=EVENT/20260727223716.jpg
//! ```
//!
//! The `size` field in the listing is kibibytes, not bytes, and it is a floor: a file listed as
//! `size: 313` arrives as 320,900 bytes. [`expected_byte_range`] and [`download_is_complete`] hold
//! that rule.
use crate::text;
use core::ops::RangeInclusive;
use vstd::prelude::*;
use vstd::utf8::*;

pub mod json;

verus! {

/// The glasses' address on their own SoftAP. Fixed in firmware.
pub const HOST: &'static str = "192.168.169.1";

/// The address the phone or laptop is handed by the glasses' DHCP server.
pub const PHONE_ADDRESS: &'static str = "192.168.169.100";

/// The AP passphrase. Fixed in firmware, the same on every unit.
pub const PASSPHRASE: &'static str = "12345678";

/// No port: the server listens on 80.
pub const BASE_URL: &'static str = "http://192.168.169.1";

/// Path of the listing endpoint.
pub const LIST_PATH: &'static str = "/app/getfilelist";

/// Path of the thumbnail endpoint. Takes `?file=<FOLDER>/<name>`.
pub const THUMBNAIL_PATH: &'static str = "/app/getthumbnail";

/// Path of the delete endpoint. Takes `?file=<FOLDER>/<name>`.
pub const DELETE_PATH: &'static str = "/app/deletefile";

/// Bytes per KiB.
pub const BYTES_PER_KIB: u64 = 1024;

/// `http://<host>`.
pub open spec fn base_of(host: Seq<char>) -> Seq<char> {
    "http://"@ + host
}

/// Build `http://<host>` for a host that is not the default (a proxy, a replay fixture).
pub fn base_url(host: &str) -> (url: String)
    ensures
        url@ == base_of(host@),
{
    let mut out = String::from_str("http://");
    out.append(host);
    out
}

/// `http://192.168.169.1/app/getfilelist`.
pub fn list_url() -> (url: String)
    ensures
        url@ == BASE_URL@ + LIST_PATH@,
{
    let mut out = String::from_str(BASE_URL);
    out.append(LIST_PATH);
    out
}

/// Listing URL against an arbitrary host.
pub fn list_url_on(host: &str) -> (url: String)
    ensures
        url@ == base_of(host@) + LIST_PATH@,
{
    let mut out = base_url(host);
    out.append(LIST_PATH);
    out
}

/// A URL whose file is a query argument.
pub open spec fn query_url(host: Seq<char>, path: Seq<char>, name: Seq<char>) -> Seq<char> {
    base_of(host) + path + "?file="@ + percent_encoded(encode_utf8(name))
}

/// `http://192.168.169.1/app/getthumbnail?file=EVENT/2026..jpg`. `name` is the listing's `name`
/// field, which already carries the folder prefix.
pub fn thumbnail_url(name: &str) -> (url: String)
    ensures
        url@ == query_url(HOST@, THUMBNAIL_PATH@, name@),
{
    thumbnail_url_on(HOST, name)
}

/// Thumbnail URL against an arbitrary host.
pub fn thumbnail_url_on(host: &str, name: &str) -> (url: String)
    ensures
        url@ == query_url(host@, THUMBNAIL_PATH@, name@),
{
    let mut out = base_url(host);
    out.append(THUMBNAIL_PATH);
    out.append("?file=");
    out.append(percent_encode_file_arg(name).as_str());
    out
}

/// `http://192.168.169.1/EVENT/2026..jpg`: the file itself.
pub fn download_url(name: &str) -> (url: String)
    ensures
        url@ == base_of(HOST@) + download_path_of(name@),
{
    download_url_on(HOST, name)
}

/// Download URL against an arbitrary host.
pub fn download_url_on(host: &str, name: &str) -> (url: String)
    ensures
        url@ == base_of(host@) + download_path_of(name@),
{
    let mut out = base_url(host);
    out.append(download_path(name).as_str());
    out
}

/// A text without its leading slashes.
pub open spec fn trim_slashes(s: Seq<char>) -> Seq<char>
    decreases s.len(),
{
    if s.len() > 0 && s[0] == '/' {
        trim_slashes(s.drop_first())
    } else {
        s
    }
}

fn without_leading_slashes(s: &str) -> (r: &str)
    ensures
        r@ == trim_slashes(s@),
{
    let n: usize = s.unicode_len();
    let mut k: usize = 0;
    assert(s@.skip(0) =~= s@);
    while k < n && s.get_char(k) == '/'
        invariant
            k <= n,
            n == s@.len(),
            trim_slashes(s@) == trim_slashes(s@.skip(k as int)),
        decreases n - k,
    {
        assert(s@.skip(k as int).drop_first() =~= s@.skip(k + 1));
        k = k + 1;
    }
    assert(s@.subrange(k as int, n as int) =~= s@.skip(k as int));
    s.substring_char(k, n)
}

/// The download path: one slash, then the name.
pub open spec fn download_path_of(name: Seq<char>) -> Seq<char> {
    "/"@ + percent_encoded(encode_utf8(trim_slashes(name)))
}

/// `/EVENT/2026..jpg`: the download path alone, for a client that builds its own request line.
pub fn download_path(name: &str) -> (path: String)
    ensures
        path@ == download_path_of(name@),
{
    let mut out = String::from_str("/");
    out.append(percent_encode_file_arg(without_leading_slashes(name)).as_str());
    out
}

/// `http://192.168.169.1/app/deletefile?file=EVENT/2026..jpg`.
pub fn delete_url(name: &str) -> (url: String)
    ensures
        url@ == query_url(HOST@, DELETE_PATH@, name@),
{
    delete_url_on(HOST, name)
}

/// Delete URL against an arbitrary host.
pub fn delete_url_on(host: &str, name: &str) -> (url: String)
    ensures
        url@ == query_url(host@, DELETE_PATH@, name@),
{
    let mut out = base_url(host);
    out.append(DELETE_PATH);
    out.append("?file=");
    out.append(percent_encode_file_arg(name).as_str());
    out
}

/// The bytes that percent-encoding leaves alone: letters, digits, `-`, `.`, `_`, `~` and `/`.
pub open spec fn left_alone(c: u8) -> bool {
    ||| 0x41 <= c <= 0x5A
    ||| 0x61 <= c <= 0x7A
    ||| 0x30 <= c <= 0x39
    ||| c == 0x2D
    ||| c == 0x2E
    ||| c == 0x5F
    ||| c == 0x7E
    ||| c == 0x2F
}

/// One hexadecimal digit, upper case.
pub open spec fn hex_char(d: int) -> char {
    if d < 10 {
        (0x30 + d) as char
    } else {
        (0x41 + d - 10) as char
    }
}

/// What one byte becomes.
pub open spec fn percent_byte(c: u8) -> Seq<char> {
    if left_alone(c) {
        seq![c as char]
    } else {
        seq!['%', hex_char(c as int / 16), hex_char(c as int % 16)]
    }
}

/// What a string of bytes becomes: each byte on its own.
pub open spec fn percent_encoded(b: Seq<u8>) -> Seq<char>
    decreases b.len(),
{
    if b.len() == 0 {
        Seq::empty()
    } else {
        percent_encoded(b.drop_last()) + percent_byte(b.last())
    }
}

fn push_hex_digit(out: &mut String, d: u8)
    requires
        d < 16,
    ensures
        final(out)@ == old(out)@.push(hex_char(d as int)),
{
    if d < 10 {
        out.push((0x30 + d) as char);
    } else {
        out.push((0x41 + (d - 10)) as char);
    }
}

/// Percent-encode a `<FOLDER>/<name>` argument. `/` is deliberately left alone.
pub fn percent_encode_file_arg(s: &str) -> (out: String)
    ensures
        out@ == percent_encoded(encode_utf8(s@)),
{
    let b = s.as_bytes();
    let mut out: String = String::new();
    assert(out@ =~= percent_encoded(b@.take(0)));
    for i in 0..b.len()
        invariant
            out@ == percent_encoded(b@.take(i as int)),
    {
        let ghost before = out@;
        let c: u8 = b[i];
        let unreserved = (c >= 0x41 && c <= 0x5A) || (c >= 0x61 && c <= 0x7A) || (c >= 0x30 && c
            <= 0x39) || c == 0x2D || c == 0x2E || c == 0x5F || c == 0x7E || c == 0x2F;
        if unreserved {
            out.push(c as char);
        } else {
            out.push('%');
            push_hex_digit(&mut out, c / 16);
            push_hex_digit(&mut out, c % 16);
        }
        assert(b@.take(i + 1).drop_last() =~= b@.take(i as int));
        assert(out@ =~= before + percent_byte(c));
    }
    assert(b@.take(b@.len() as int) =~= b@);
    out
}

/// The four folders the firmware serves.
#[derive(Debug, Clone, Copy, PartialEq, Eq, PartialOrd, Ord, Hash, Structural)]
pub enum Folder {
    /// Stills.
    Event,
    /// Voice recordings.
    Aac,
    /// Video clips.
    Loop,
    /// Emergency clips.
    Emr,
}

/// What a file in a folder is. Derived from the folder, not from the `type` byte.
#[derive(Debug, Clone, Copy, PartialEq, Eq, PartialOrd, Ord, Hash, Structural)]
pub enum MediaKind {
    Photo,
    VoiceRecording,
    VideoClip,
    Emergency,
}

impl Folder {
    /// In the order the firmware lists them, which is also the order a sync should walk.
    pub const ALL: [Folder; 4] = [Folder::Event, Folder::Aac, Folder::Loop, Folder::Emr];

    /// The wire name.
    pub open spec fn wire_name(self) -> Seq<char> {
        match self {
            Folder::Event => "EVENT"@,
            Folder::Aac => "AAC"@,
            Folder::Loop => "LOOP"@,
            Folder::Emr => "EMR"@,
        }
    }

    /// The wire name: the `folder` field and the first path segment of every `name`.
    pub fn name(self) -> (s: &'static str)
        ensures
            s@ == self.wire_name(),
    {
        match self {
            Folder::Event => "EVENT",
            Folder::Aac => "AAC",
            Folder::Loop => "LOOP",
            Folder::Emr => "EMR",
        }
    }

    /// The folder with this name.
    pub open spec fn with_name(name: Seq<char>) -> Option<Folder> {
        if name == "EVENT"@ {
            Some(Folder::Event)
        } else if name == "AAC"@ {
            Some(Folder::Aac)
        } else if name == "LOOP"@ {
            Some(Folder::Loop)
        } else if name == "EMR"@ {
            Some(Folder::Emr)
        } else {
            None
        }
    }

    /// Parse a wire folder name. Case-sensitive: the firmware only ever sends upper case.
    pub fn from_name(name: &str) -> (r: Option<Folder>)
        ensures
            r == Folder::with_name(name@),
    {
        if text::same_text(name, "EVENT") {
            Some(Folder::Event)
        } else if text::same_text(name, "AAC") {
            Some(Folder::Aac)
        } else if text::same_text(name, "LOOP") {
            Some(Folder::Loop)
        } else if text::same_text(name, "EMR") {
            Some(Folder::Emr)
        } else {
            None
        }
    }

    /// What this folder holds.
    pub open spec fn spec_holds(self) -> MediaKind {
        match self {
            Folder::Event => MediaKind::Photo,
            Folder::Aac => MediaKind::VoiceRecording,
            Folder::Loop => MediaKind::VideoClip,
            Folder::Emr => MediaKind::Emergency,
        }
    }

    /// What this folder holds.
    #[verifier::when_used_as_spec(spec_holds)]
    pub fn holds(self) -> (kind: MediaKind)
        ensures
            kind == self.holds(),
    {
        match self {
            Folder::Event => MediaKind::Photo,
            Folder::Aac => MediaKind::VoiceRecording,
            Folder::Loop => MediaKind::VideoClip,
            Folder::Emr => MediaKind::Emergency,
        }
    }

    /// The folder a `name` belongs to: its first path segment.
    pub open spec fn of_path(name: Seq<char>) -> Option<Folder> {
        Folder::with_name(first_segment(trim_slashes(name)))
    }

    /// The folder a `name` belongs to, read from its own prefix.
    pub fn of_name(name: &str) -> (r: Option<Folder>)
        ensures
            r == Folder::of_path(name@),
    {
        let s = without_leading_slashes(name);
        let n: usize = s.unicode_len();
        let mut k: usize = 0;
        assert(s@.skip(0) =~= s@);
        assert(s@.take(0) + first_segment(s@) =~= first_segment(s@));
        while k < n && s.get_char(k) != '/'
            invariant
                k <= n,
                n == s@.len(),
                first_segment(s@) == s@.take(k as int) + first_segment(s@.skip(k as int)),
            decreases n - k,
        {
            proof {
                let rest = s@.skip(k as int);
                assert(rest.drop_first() =~= s@.skip(k + 1));
                assert(s@.take(k as int) + (seq![rest[0]] + first_segment(rest.drop_first()))
                    =~= s@.take(k + 1) + first_segment(s@.skip(k + 1)));
            }
            k = k + 1;
        }
        assert(s@.take(k as int) + Seq::<char>::empty() =~= s@.subrange(0, k as int));
        Folder::from_name(s.substring_char(0, k))
    }
}

/// What stands before the first slash.
pub open spec fn first_segment(s: Seq<char>) -> Seq<char>
    decreases s.len(),
{
    if s.len() == 0 || s[0] == '/' {
        Seq::empty()
    } else {
        seq![s[0]] + first_segment(s.drop_first())
    }
}

/// What stands after the last slash.
pub open spec fn last_segment(s: Seq<char>) -> Seq<char>
    decreases s.len(),
{
    if s.len() == 0 || s.last() == '/' {
        Seq::empty()
    } else {
        last_segment(s.drop_last()).push(s.last())
    }
}

/// The `createtimestr` field, split into fields. Fourteen digits, `YYYYMMDDhhmmss`, in whatever
/// zone the phone was in when it last sent the time.
#[derive(Debug, Clone, Copy, PartialEq, Eq, PartialOrd, Ord, Hash, Structural)]
pub struct Timestamp {
    pub year: u16,
    pub month: u8,
    pub day: u8,
    pub hour: u8,
    pub minute: u8,
    pub second: u8,
}

/// The number in the digits from `from` up to `to`.
pub open spec fn digits_at(b: Seq<u8>, from: int, to: int) -> Option<int> {
    text::decimal_of(b.subrange(from, to))
}

impl Timestamp {
    /// The fields are in range.
    pub open spec fn in_range(self) -> bool {
        &&& 1 <= self.month <= 12
        &&& 1 <= self.day <= 31
        &&& self.hour <= 23
        &&& self.minute <= 59
        &&& self.second <= 60
    }

    /// The timestamp that these bytes write: fourteen digits, with fields in range.
    pub open spec fn written(b: Seq<u8>) -> Option<Timestamp> {
        if b.len() != 14 {
            None
        } else {
            match (
                digits_at(b, 0, 4),
                digits_at(b, 4, 6),
                digits_at(b, 6, 8),
                digits_at(b, 8, 10),
                digits_at(b, 10, 12),
                digits_at(b, 12, 14),
            ) {
                (Some(y), Some(mo), Some(d), Some(h), Some(mi), Some(s)) => {
                    let t = Timestamp {
                        year: y as u16,
                        month: mo as u8,
                        day: d as u8,
                        hour: h as u8,
                        minute: mi as u8,
                        second: s as u8,
                    };
                    if t.in_range() {
                        Some(t)
                    } else {
                        None
                    }
                },
                _ => None,
            }
        }
    }

    /// Parse `YYYYMMDDhhmmss`. Range-checks the fields; returns `None` on anything else.
    pub fn parse(s: &str) -> (r: Option<Timestamp>)
        ensures
            r == Timestamp::written(encode_utf8(s@)),
    {
        let b = s.as_bytes();
        if b.len() != 14 {
            return None;
        }
        let year = read_digits(b, 0, 4);
        let month = read_digits(b, 4, 6);
        let day = read_digits(b, 6, 8);
        let hour = read_digits(b, 8, 10);
        let minute = read_digits(b, 10, 12);
        let second = read_digits(b, 12, 14);
        match (year, month, day, hour, minute, second) {
            (Some(y), Some(mo), Some(d), Some(h), Some(mi), Some(s)) => {
                let t = Timestamp {
                    year: y,
                    month: mo as u8,
                    day: d as u8,
                    hour: h as u8,
                    minute: mi as u8,
                    second: s as u8,
                };
                if t.month < 1 || t.month > 12 || t.day < 1 || t.day > 31 || t.hour > 23 || t.minute
                    > 59 || t.second > 60 {
                    None
                } else {
                    Some(t)
                }
            },
            _ => None,
        }
    }

    /// The fourteen-digit wire form.
    pub open spec fn compact(self) -> Seq<char> {
        text::padded_text(self.year as int, 4) + text::padded_text(self.month as int, 2)
            + text::padded_text(self.day as int, 2) + text::padded_text(self.hour as int, 2)
            + text::padded_text(self.minute as int, 2) + text::padded_text(self.second as int, 2)
    }

    /// Back to the fourteen-digit wire form.
    pub fn to_compact(self) -> (s: String)
        ensures
            s@ == self.compact(),
    {
        let mut out: String = String::new();
        text::push_padded(&mut out, self.year as u64, 4);
        assert(out@ =~= text::padded_text(self.year as int, 4));
        text::push_padded(&mut out, self.month as u64, 2);
        text::push_padded(&mut out, self.day as u64, 2);
        text::push_padded(&mut out, self.hour as u64, 2);
        text::push_padded(&mut out, self.minute as u64, 2);
        text::push_padded(&mut out, self.second as u64, 2);
        out
    }

    /// `2026-07-27 22:37:16`.
    pub open spec fn rendered(self) -> Seq<char> {
        text::padded_text(self.year as int, 4) + "-"@ + text::padded_text(self.month as int, 2)
            + "-"@ + text::padded_text(self.day as int, 2) + " "@ + text::padded_text(
            self.hour as int,
            2,
        ) + ":"@ + text::padded_text(self.minute as int, 2) + ":"@ + text::padded_text(
            self.second as int,
            2,
        )
    }

    /// `2026-07-27 22:37:16`: a rendering of the fields, not a localised date.
    pub fn to_string(&self) -> (s: String)
        ensures
            s@ == self.rendered(),
    {
        let mut out: String = String::new();
        text::push_padded(&mut out, self.year as u64, 4);
        assert(out@ =~= text::padded_text(self.year as int, 4));
        out.append("-");
        text::push_padded(&mut out, self.month as u64, 2);
        out.append("-");
        text::push_padded(&mut out, self.day as u64, 2);
        out.append(" ");
        text::push_padded(&mut out, self.hour as u64, 2);
        out.append(":");
        text::push_padded(&mut out, self.minute as u64, 2);
        out.append(":");
        text::push_padded(&mut out, self.second as u64, 2);
        out
    }
}

/// Reads up to four digits.
fn read_digits(b: &[u8], from: usize, to: usize) -> (r: Option<u16>)
    requires
        from < to <= b.len(),
        to - from <= 4,
    ensures
        match r {
            Some(n) => digits_at(b@, from as int, to as int) == Some(n as int) && (to - from <= 2
                ==> n < 100),
            None => digits_at(b@, from as int, to as int) is None,
        },
{
    let ghost all = b@.subrange(from as int, to as int);
    let mut n: u16 = 0;
    assert(all.take(0) =~= Seq::empty());
    for i in from..to
        invariant
            from < to <= b.len(),
            to - from <= 4,
            all == b@.subrange(from as int, to as int),
            text::decimal_of(all.take(i - from)) == Some(n as int),
            i - from == 0 ==> n < 1,
            i - from == 1 ==> n < 10,
            i - from == 2 ==> n < 100,
            i - from == 3 ==> n < 1000,
    {
        let c: u8 = b[i];
        proof {
            assert(all.take(i + 1 - from).drop_last() =~= all.take(i - from));
            text::lemma_decimal_prefix(all, i + 1 - from);
        }
        if c < 0x30 || c > 0x39 {
            return None;
        }
        n = n * 10 + (c - 0x30) as u16;
    }
    assert(all.take(to - from) =~= all);
    Some(n)
}

/// One row of one folder's `files` array.
#[derive(Debug, Clone, PartialEq, Eq)]
pub struct FileEntry {
    /// The `name` field, verbatim, folder prefix included. Every URL builder here takes exactly
    /// this.
    pub name: String,
    /// The folder the row was listed under.
    pub folder: Folder,
    /// The `size` field: KiB, floored. Use [`expected_byte_range`].
    pub size_kib: u64,
    /// `createtimestr`, parsed. `None` when the field was present but not fourteen digits.
    pub created: Option<Timestamp>,
    /// What this is, from the folder.
    pub kind: MediaKind,
    /// The `type` field. `1` in every row seen.
    pub raw_type: i64,
}

/// The mathematical content of a [`FileEntry`].
#[verifier::ext_equal]
pub struct FileEntryView {
    pub name: Seq<char>,
    pub folder: Folder,
    pub size_kib: u64,
    pub created: Option<Timestamp>,
    pub kind: MediaKind,
    pub raw_type: i64,
}

impl View for FileEntry {
    type V = FileEntryView;

    open spec fn view(&self) -> FileEntryView {
        FileEntryView {
            name: self.name@,
            folder: self.folder,
            size_kib: self.size_kib,
            created: self.created,
            kind: self.kind,
            raw_type: self.raw_type,
        }
    }
}

/// The smallest byte count of a file listed as `size_kib`.
pub open spec fn least_bytes(size_kib: u64) -> u64 {
    if size_kib * BYTES_PER_KIB <= u64::MAX {
        (size_kib * BYTES_PER_KIB) as u64
    } else {
        u64::MAX
    }
}

/// The largest byte count of a file listed as `size_kib`.
pub open spec fn most_bytes(size_kib: u64) -> u64 {
    if least_bytes(size_kib) + BYTES_PER_KIB - 1 <= u64::MAX {
        (least_bytes(size_kib) + BYTES_PER_KIB - 1) as u64
    } else {
        u64::MAX
    }
}

impl FileEntry {
    /// The filename without its folder prefix: what to call it on local disk.
    pub fn basename(&self) -> (s: &str)
        ensures
            s@ == last_segment(self.name@),
    {
        let s = self.name.as_str();
        let n: usize = s.unicode_len();
        let mut k: usize = n;
        assert(s@.take(n as int) =~= s@);
        assert(last_segment(s@) + Seq::<char>::empty() =~= last_segment(s@));
        assert(s@.skip(n as int) =~= Seq::empty());
        while k > 0 && s.get_char(k - 1) != '/'
            invariant
                k <= n,
                n == s@.len(),
                last_segment(s@) == last_segment(s@.take(k as int)) + s@.skip(k as int),
            decreases k,
        {
            proof {
                let part = s@.take(k as int);
                assert(part.drop_last() =~= s@.take(k - 1));
                assert(last_segment(part.drop_last()).push(part.last()) + s@.skip(k as int)
                    =~= last_segment(s@.take(k - 1)) + s@.skip(k - 1));
            }
            k = k - 1;
        }
        assert(Seq::<char>::empty() + s@.skip(k as int) =~= s@.subrange(k as int, n as int));
        s.substring_char(k, n)
    }

    /// The byte count this file must land in to be whole. See [`expected_byte_range`].
    pub fn expected_byte_range(&self) -> (r: RangeInclusive<u64>)
        ensures
            r@.start == least_bytes(self.size_kib),
            r@.end == most_bytes(self.size_kib),
            !r@.exhausted,
    {
        expected_byte_range(self.size_kib)
    }

    /// Whether `bytes` is a complete download of this file.
    pub fn download_is_complete(&self, bytes: u64) -> (b: bool)
        ensures
            b == (least_bytes(self.size_kib) <= bytes <= most_bytes(self.size_kib)),
    {
        download_is_complete(self.size_kib, bytes)
    }
}

/// The byte counts a file listed as `size_kib` may legitimately arrive as:
/// `size == floor(bytes / 1024)`, so `bytes` lies in `size*1024 ..= size*1024 + 1023`.
pub fn expected_byte_range(size_kib: u64) -> (r: RangeInclusive<u64>)
    ensures
        r@.start == least_bytes(size_kib),
        r@.end == most_bytes(size_kib),
        !r@.exhausted,
{
    let (low, high) = byte_bounds(size_kib);
    RangeInclusive::new(low, high)
}

/// The least and the most bytes of a file listed as `size_kib`.
pub(crate) fn byte_bounds(size_kib: u64) -> (r: (u64, u64))
    ensures
        r == (least_bytes(size_kib), most_bytes(size_kib)),
{
    let low: u64 = match size_kib.checked_mul(BYTES_PER_KIB) {
        Some(low) => low,
        None => u64::MAX,
    };
    (low, low.saturating_add(BYTES_PER_KIB - 1))
}

/// Whether a download of `bytes` bytes satisfies a listing of `size_kib` KiB.
pub fn download_is_complete(size_kib: u64, bytes: u64) -> (b: bool)
    ensures
        b == (least_bytes(size_kib) <= bytes <= most_bytes(size_kib)),
{
    expected_byte_range(size_kib).contains(&bytes)
}

/// One folder's entry in the listing.
#[derive(Debug, Clone, PartialEq, Eq)]
pub struct FolderListing {
    pub folder: Folder,
    pub files: Vec<FileEntry>,
    /// The `count` field as the device sent it. It is not always `files.len()`, and is kept raw
    /// so that the disagreement stays visible.
    pub count: u64,
}

/// The mathematical content of a [`FolderListing`].
#[verifier::ext_equal]
pub struct FolderListingView {
    pub folder: Folder,
    pub files: Seq<FileEntryView>,
    pub count: u64,
}

/// The contents of a list of rows.
pub open spec fn entry_views(files: Seq<FileEntry>) -> Seq<FileEntryView> {
    files.map_values(|f: FileEntry| f@)
}

impl View for FolderListing {
    type V = FolderListingView;

    open spec fn view(&self) -> FolderListingView {
        FolderListingView {
            folder: self.folder,
            files: entry_views(self.files@),
            count: self.count,
        }
    }
}

impl FolderListing {
    /// Whether the device's own `count` agrees with the rows it sent.
    pub fn count_matches_rows(&self) -> (b: bool)
        ensures
            b == (self.count == self.files@.len()),
    {
        self.count == self.files.len() as u64
    }
}

/// A parsed `/app/getfilelist` reply.
#[derive(Debug, Clone, PartialEq, Eq)]
pub struct FileList {
    /// The `result` field. `0` is success in every reply seen.
    pub result: i64,
    pub folders: Vec<FolderListing>,
}

/// The mathematical content of a [`FileList`].
#[verifier::ext_equal]
pub struct FileListView {
    pub result: i64,
    pub folders: Seq<FolderListingView>,
}

/// The contents of a list of folders.
pub open spec fn folder_views(folders: Seq<FolderListing>) -> Seq<FolderListingView> {
    folders.map_values(|f: FolderListing| f@)
}

impl View for FileList {
    type V = FileListView;

    open spec fn view(&self) -> FileListView {
        FileListView { result: self.result, folders: folder_views(self.folders@) }
    }
}

/// Every row of every folder, in listing order.
pub open spec fn rows(folders: Seq<FolderListing>) -> Seq<FileEntry>
    decreases folders.len(),
{
    if folders.len() == 0 {
        Seq::empty()
    } else {
        rows(folders.drop_last()) + folders.last().files@
    }
}

/// The sum of the listed sizes.
pub open spec fn size_sum(files: Seq<FileEntry>) -> int
    decreases files.len(),
{
    if files.len() == 0 {
        0
    } else {
        size_sum(files.drop_last()) + files.last().size_kib
    }
}

impl FileList {
    /// Every file in every folder, in listing order.
    pub fn all_files(&self) -> (r: Vec<&FileEntry>)
        ensures
            r@.len() == rows(self.folders@).len(),
            forall|i: int| 0 <= i < r@.len() ==> *(#[trigger] r@[i]) == rows(self.folders@)[i],
    {
        let mut out: Vec<&FileEntry> = Vec::new();
        for i in 0..self.folders.len()
            invariant
                out@.len() == rows(self.folders@.take(i as int)).len(),
                forall|k: int|
                    0 <= k < out@.len() ==> *(#[trigger] out@[k]) == rows(
                        self.folders@.take(i as int),
                    )[k],
        {
            let files = &self.folders[i].files;
            let ghost done = rows(self.folders@.take(i as int));
            assert(self.folders@.take(i + 1).drop_last() =~= self.folders@.take(i as int));
            for j in 0..files.len()
                invariant
                    files@ == self.folders@[i as int].files@,
                    out@.len() == done.len() + j,
                    forall|k: int| 0 <= k < done.len() ==> *(#[trigger] out@[k]) == done[k],
                    forall|k: int|
                        done.len() <= k < out@.len() ==> *(#[trigger] out@[k]) == files@[k
                            - done.len()],
            {
                out.push(&files[j]);
            }
        }
        assert(self.folders@.take(self.folders@.len() as int) =~= self.folders@);
        out
    }

    /// The rows of the first listing of a folder; none if the device did not list it.
    pub open spec fn rows_in(folders: Seq<FolderListing>, folder: Folder) -> Seq<FileEntry>
        decreases folders.len(),
    {
        if folders.len() == 0 {
            Seq::empty()
        } else if folders[0].folder == folder {
            folders[0].files@
        } else {
            Self::rows_in(folders.drop_first(), folder)
        }
    }

    /// The rows of one folder, or an empty slice if the device did not list it.
    pub fn files_in(&self, folder: Folder) -> (r: &[FileEntry])
        ensures
            r@ == Self::rows_in(self.folders@, folder),
    {
        let ghost all = self.folders@;
        assert(all.skip(0) =~= all);
        for i in 0..self.folders.len()
            invariant
                all == self.folders@,
                Self::rows_in(all, folder) == Self::rows_in(all.skip(i as int), folder),
        {
            assert(all.skip(i as int).drop_first() =~= all.skip(i + 1));
            if self.folders[i].folder == folder {
                return self.folders[i].files.as_slice();
            }
        }
        let r: &[FileEntry] = &[];
        assert(r@ =~= Seq::empty());
        r
    }

    /// How many rows the listing carries, across all folders.
    pub fn total_files(&self) -> (n: usize)
        requires
            rows(self.folders@).len() <= usize::MAX,
        ensures
            n == rows(self.folders@).len(),
    {
        let mut n: usize = 0;
        for i in 0..self.folders.len()
            invariant
                rows(self.folders@).len() <= usize::MAX,
                n == rows(self.folders@.take(i as int)).len(),
        {
            proof {
                assert(self.folders@.take(i + 1).drop_last() =~= self.folders@.take(i as int));
                lemma_rows_prefix(self.folders@, i + 1);
            }
            n = n + self.folders[i].files.len();
        }
        assert(self.folders@.take(self.folders@.len() as int) =~= self.folders@);
        n
    }

    /// Sum of every row's `size_kib`. KiB, not bytes.
    pub fn total_size_kib(&self) -> (n: u64)
        requires
            size_sum(rows(self.folders@)) <= u64::MAX,
        ensures
            n == size_sum(rows(self.folders@)),
    {
        let files = self.all_files();
        let ghost all = rows(self.folders@);
        let mut n: u64 = 0;
        for i in 0..files.len()
            invariant
                all.len() == files@.len(),
                forall|k: int| 0 <= k < files@.len() ==> *(#[trigger] files@[k]) == all[k],
                size_sum(all) <= u64::MAX,
                n == size_sum(all.take(i as int)),
        {
            proof {
                assert(all.take(i + 1).drop_last() =~= all.take(i as int));
                lemma_size_prefix(all, i + 1);
            }
            n = n + files[i].size_kib;
        }
        assert(all.take(all.len() as int) =~= all);
        n
    }

    /// Whether the glasses hold nothing at all.
    pub fn is_empty(&self) -> (b: bool)
        ensures
            b == (rows(self.folders@).len() == 0),
    {
        self.all_files().len() == 0
    }

    /// Find one row by its `name`: the first in listing order.
    pub fn find(&self, name: &str) -> (r: Option<&FileEntry>)
        ensures
            match r {
                Some(f) => exists|i: int|
                    {
                        &&& 0 <= i < rows(self.folders@).len()
                        &&& *f == #[trigger] rows(self.folders@)[i]
                        &&& f.name@ == name@
                        &&& forall|k: int|
                            0 <= k < i ==> (#[trigger] rows(self.folders@)[k]).name@ != name@
                    },
                None => forall|k: int|
                    0 <= k < rows(self.folders@).len() ==> (#[trigger] rows(
                        self.folders@,
                    )[k]).name@ != name@,
            },
    {
        let files = self.all_files();
        for i in 0..files.len()
            invariant
                files@.len() == rows(self.folders@).len(),
                forall|k: int|
                    0 <= k < files@.len() ==> *(#[trigger] files@[k]) == rows(self.folders@)[k],
                forall|k: int|
                    0 <= k < i ==> (#[trigger] rows(self.folders@)[k]).name@ != name@,
        {
            if text::same_text(files[i].name.as_str(), name) {
                assert(*files@[i as int] == rows(self.folders@)[i as int]);
                return Some(files[i]);
            }
            assert(*files@[i as int] == rows(self.folders@)[i as int]);
        }
        None
    }

    /// Parse a listing reply.
    pub fn parse(body: &str) -> (r: Result<FileList, ParseError>)
        ensures
            match r {
                Ok(list) => list_of(encode_utf8(body@)) == Ok::<FileListView, ParseErrorView>(
                    list@,
                ),
                Err(e) => list_of(encode_utf8(body@)) == Err::<FileListView, ParseErrorView>(e@),
            },
    {
        parse_file_list(body)
    }
}

proof fn lemma_rows_prefix(folders: Seq<FolderListing>, n: int)
    requires
        0 <= n <= folders.len(),
    ensures
        rows(folders.take(n)).len() <= rows(folders).len(),
    decreases folders.len() - n,
{
    if n < folders.len() {
        assert(folders.take(n + 1).drop_last() =~= folders.take(n));
        lemma_rows_prefix(folders, n + 1);
    } else {
        assert(folders.take(n) =~= folders);
    }
}

proof fn lemma_size_prefix(files: Seq<FileEntry>, n: int)
    requires
        0 <= n <= files.len(),
    ensures
        size_sum(files.take(n)) <= size_sum(files),
    decreases files.len() - n,
{
    if n < files.len() {
        assert(files.take(n + 1).drop_last() =~= files.take(n));
        lemma_size_prefix(files, n + 1);
    } else {
        assert(files.take(n) =~= files);
    }
}

/// A parsed `/app/deletefile` reply.
#[derive(Debug, Clone, PartialEq, Eq)]
pub struct DeleteReply {
    pub result: i64,
    /// The `info` field verbatim, trailing full stop and all.
    pub info: String,
}

/// The mathematical content of a [`DeleteReply`].
#[verifier::ext_equal]
pub struct DeleteReplyView {
    pub result: i64,
    pub info: Seq<char>,
}

impl View for DeleteReply {
    type V = DeleteReplyView;

    open spec fn view(&self) -> DeleteReplyView {
        DeleteReplyView { result: self.result, info: self.info@ }
    }
}

impl DeleteReply {
    /// The exact `info` string a successful delete returns.
    pub const SUCCESS_INFO: &'static str = "success.";

    /// Whether the delete took. `result == 0` is the authority; the string is a courtesy.
    pub fn is_success(&self) -> (b: bool)
        ensures
            b == (self.result == 0),
    {
        self.result == 0
    }

    /// Parse a delete reply.
    pub fn parse(body: &str) -> (r: Result<DeleteReply, ParseError>)
        ensures
            match r {
                Ok(reply) => delete_reply_of(encode_utf8(body@)) == Ok::<
                    DeleteReplyView,
                    ParseErrorView,
                >(reply@),
                Err(e) => delete_reply_of(encode_utf8(body@)) == Err::<
                    DeleteReplyView,
                    ParseErrorView,
                >(e@),
            },
    {
        parse_delete_reply(body)
    }
}

/// Why a reply body is not the thing it claimed to be.
#[derive(Debug, Clone, PartialEq, Eq)]
pub enum ParseError {
    /// The body did not lex as JSON at all: an HTML error page, a captive portal. Carries the
    /// byte offset the lexer gave up at.
    NotJson { at: usize },
    /// The body ended mid-value. Distinct from [`Self::NotJson`] because a caller streaming the
    /// response can wait on this one and must not on the other.
    Truncated,
    /// Bytes after the top-level value.
    TrailingBytes { at: usize },
    /// Nesting deeper than [`json::MAX_DEPTH`].
    TooDeep,
    /// A field that has to be there was not.
    MissingField { field: &'static str },
    /// A field was there and was the wrong JSON type.
    WrongType { field: &'static str, expected: &'static str },
    /// A number field held something that is not an integer this side can hold.
    BadNumber { field: &'static str },
    /// A `folder` value outside `EVENT`/`AAC`/`LOOP`/`EMR`. The folder set is fixed in firmware,
    /// so an unknown one means this is not a listing from these glasses.
    UnknownFolder { folder: String },
}

/// The mathematical content of a [`ParseError`].
#[verifier::ext_equal]
pub enum ParseErrorView {
    NotJson { at: int },
    Truncated,
    TrailingBytes { at: int },
    TooDeep,
    MissingField { field: Seq<char> },
    WrongType { field: Seq<char>, expected: Seq<char> },
    BadNumber { field: Seq<char> },
    UnknownFolder { folder: Seq<char> },
}

impl View for ParseError {
    type V = ParseErrorView;

    open spec fn view(&self) -> ParseErrorView {
        match *self {
            ParseError::NotJson { at } => ParseErrorView::NotJson { at: at as int },
            ParseError::Truncated => ParseErrorView::Truncated,
            ParseError::TrailingBytes { at } => ParseErrorView::TrailingBytes { at: at as int },
            ParseError::TooDeep => ParseErrorView::TooDeep,
            ParseError::MissingField { field } => ParseErrorView::MissingField { field: field@ },
            ParseError::WrongType { field, expected } => ParseErrorView::WrongType {
                field: field@,
                expected: expected@,
            },
            ParseError::BadNumber { field } => ParseErrorView::BadNumber { field: field@ },
            ParseError::UnknownFolder { folder } => ParseErrorView::UnknownFolder {
                folder: folder@,
            },
        }
    }
}

impl ParseError {
    /// The error in words.
    pub open spec fn words(self) -> Seq<char> {
        match self {
            ParseError::NotJson { at } => "not JSON, at byte "@ + text::decimal_text(at as int),
            ParseError::Truncated => "JSON ended early"@,
            ParseError::TrailingBytes { at } => "trailing bytes at "@ + text::decimal_text(
                at as int,
            ),
            ParseError::TooDeep => "nested deeper than "@ + text::decimal_text(
                json::MAX_DEPTH as int,
            ),
            ParseError::MissingField { field } => "missing field `"@ + field@ + "`"@,
            ParseError::WrongType { field, expected } => "field `"@ + field@ + "` is not "@
                + expected@,
            ParseError::BadNumber { field } => "field `"@ + field@ + "` is not an integer"@,
            ParseError::UnknownFolder { folder } => "unknown folder `"@ + folder@ + "`"@,
        }
    }

    /// The error in words.
    pub fn to_string(&self) -> (s: String)
        ensures
            s@ == self.words(),
    {
        match self {
            ParseError::NotJson { at } => {
                let mut out = String::from_str("not JSON, at byte ");
                text::push_decimal(&mut out, *at as u64);
                out
            },
            ParseError::Truncated => String::from_str("JSON ended early"),
            ParseError::TrailingBytes { at } => {
                let mut out = String::from_str("trailing bytes at ");
                text::push_decimal(&mut out, *at as u64);
                out
            },
            ParseError::TooDeep => {
                let mut out = String::from_str("nested deeper than ");
                text::push_decimal(&mut out, json::MAX_DEPTH as u64);
                out
            },
            ParseError::MissingField { field } => {
                let mut out = String::from_str("missing field `");
                out.append(field);
                out.append("`");
                out
            },
            ParseError::WrongType { field, expected } => {
                let mut out = String::from_str("field `");
                out.append(field);
                out.append("` is not ");
                out.append(expected);
                out
            },
            ParseError::BadNumber { field } => {
                let mut out = String::from_str("field `");
                out.append(field);
                out.append("` is not an integer");
                out
            },
            ParseError::UnknownFolder { folder } => {
                let mut out = String::from_str("unknown folder `");
                out.append(folder.as_str());
                out.append("`");
                out
            },
        }
    }
}

/// A field that has to be there.
pub open spec fn required(pairs: Seq<(Seq<char>, json::Json)>, key: Seq<char>) -> Result<
    json::Json,
    ParseErrorView,
> {
    match json::field_of(pairs, key) {
        Some(v) => Ok(v),
        None => Err(ParseErrorView::MissingField { field: key }),
    }
}

/// An integer that has to be there.
pub open spec fn required_integer(
    pairs: Seq<(Seq<char>, json::Json)>,
    key: Seq<char>,
) -> Result<i64, ParseErrorView> {
    match required(pairs, key) {
        Ok(v) => json::number_of(v, key),
        Err(e) => Err(e),
    }
}

/// A string that has to be there.
pub open spec fn required_string(
    pairs: Seq<(Seq<char>, json::Json)>,
    key: Seq<char>,
) -> Result<Seq<char>, ParseErrorView> {
    match required(pairs, key) {
        Ok(v) => json::string_of(v, key),
        Err(e) => Err(e),
    }
}

/// An array that has to be there.
pub open spec fn required_array(
    pairs: Seq<(Seq<char>, json::Json)>,
    key: Seq<char>,
) -> Result<Seq<json::Json>, ParseErrorView> {
    match required(pairs, key) {
        Ok(v) => json::array_of(v, key),
        Err(e) => Err(e),
    }
}

/// An integer that may be missing, and is then zero.
pub open spec fn optional_integer(
    pairs: Seq<(Seq<char>, json::Json)>,
    key: Seq<char>,
) -> Result<i64, ParseErrorView> {
    match json::field_of(pairs, key) {
        Some(v) => json::number_of(v, key),
        None => Ok(0),
    }
}

/// A count or size: a negative one is taken as zero.
pub open spec fn at_least_zero(n: i64) -> u64 {
    if n < 0 {
        0
    } else {
        n as u64
    }
}

/// One row of a listing. A row carries its own folder prefix, which is trusted over the folder it
/// was listed under; a timestamp that does not parse leaves the row usable.
pub open spec fn entry_of(row: json::Json, folder: Folder) -> Result<
    FileEntryView,
    ParseErrorView,
> {
    match json::object_of(row, "files[]"@) {
        Err(e) => Err(e),
        Ok(o) => match required_string(o, "name"@) {
            Err(e) => Err(e),
            Ok(name) => match required_integer(o, "size"@) {
                Err(e) => Err(e),
                Ok(size) => match optional_integer(o, "type"@) {
                    Err(e) => Err(e),
                    Ok(raw_type) => {
                        let own = match Folder::of_path(name) {
                            Some(f) => f,
                            None => folder,
                        };
                        Ok(
                            FileEntryView {
                                name,
                                folder: own,
                                size_kib: at_least_zero(size),
                                created: match json::field_of(o, "createtimestr"@) {
                                    Some(json::Json::String(s)) => Timestamp::written(
                                        encode_utf8(s),
                                    ),
                                    _ => None,
                                },
                                kind: own.holds(),
                                raw_type,
                            },
                        )
                    },
                },
            },
        },
    }
}

/// The rows of a folder, up to the first that is wrong.
pub open spec fn entries_of(items: Seq<json::Json>, folder: Folder) -> Result<
    Seq<FileEntryView>,
    ParseErrorView,
>
    decreases items.len(),
{
    if items.len() == 0 {
        Ok(Seq::empty())
    } else {
        match entries_of(items.drop_last(), folder) {
            Err(e) => Err(e),
            Ok(before) => match entry_of(items.last(), folder) {
                Err(e) => Err(e),
                Ok(entry) => Ok(before.push(entry)),
            },
        }
    }
}

/// One folder of a listing.
pub open spec fn folder_of(item: json::Json) -> Result<FolderListingView, ParseErrorView> {
    match json::object_of(item, "info[]"@) {
        Err(e) => Err(e),
        Ok(o) => match required_string(o, "folder"@) {
            Err(e) => Err(e),
            Ok(name) => match Folder::with_name(name) {
                None => Err(ParseErrorView::UnknownFolder { folder: name }),
                Some(folder) => match optional_integer(o, "count"@) {
                    Err(e) => Err(e),
                    Ok(count) => match required_array(o, "files"@) {
                        Err(e) => Err(e),
                        Ok(items) => match entries_of(items, folder) {
                            Err(e) => Err(e),
                            Ok(files) => Ok(
                                FolderListingView { folder, files, count: at_least_zero(count) },
                            ),
                        },
                    },
                },
            },
        },
    }
}

/// The folders of a listing, up to the first that is wrong.
pub open spec fn folders_of(items: Seq<json::Json>) -> Result<
    Seq<FolderListingView>,
    ParseErrorView,
>
    decreases items.len(),
{
    if items.len() == 0 {
        Ok(Seq::empty())
    } else {
        match folders_of(items.drop_last()) {
            Err(e) => Err(e),
            Ok(before) => match folder_of(items.last()) {
                Err(e) => Err(e),
                Ok(folder) => Ok(before.push(folder)),
            },
        }
    }
}

/// The listing in a JSON value.
pub open spec fn list_in(root: json::Json) -> Result<FileListView, ParseErrorView> {
    match json::object_of(root, "body"@) {
        Err(e) => Err(e),
        Ok(o) => match required_integer(o, "result"@) {
            Err(e) => Err(e),
            Ok(result) => match required_array(o, "info"@) {
                Err(e) => Err(e),
                Ok(items) => match folders_of(items) {
                    Err(e) => Err(e),
                    Ok(folders) => Ok(FileListView { result, folders }),
                },
            },
        },
    }
}

/// What a listing reply body says.
pub open spec fn list_of(body: Seq<u8>) -> Result<FileListView, ParseErrorView> {
    match json::document(body) {
        Err(e) => Err(e),
        Ok(root) => list_in(root),
    }
}

/// The delete reply in a JSON value.
pub open spec fn delete_reply_in(root: json::Json) -> Result<DeleteReplyView, ParseErrorView> {
    match json::object_of(root, "body"@) {
        Err(e) => Err(e),
        Ok(o) => match required_integer(o, "result"@) {
            Err(e) => Err(e),
            Ok(result) => match required_string(o, "info"@) {
                Err(e) => Err(e),
                Ok(info) => Ok(DeleteReplyView { result, info }),
            },
        },
    }
}

/// What a delete reply body says.
pub open spec fn delete_reply_of(body: Seq<u8>) -> Result<DeleteReplyView, ParseErrorView> {
    match json::document(body) {
        Err(e) => Err(e),
        Ok(root) => delete_reply_in(root),
    }
}

fn need<'a>(pairs: &'a [(String, json::Value)], key: &'static str) -> (r: Result<
    &'a json::Value,
    ParseError,
>)
    ensures
        match r {
            Ok(v) => required(json::pair_models(pairs@), key@) == Ok::<json::Json, ParseErrorView>(
                v@,
            ),
            Err(e) => required(json::pair_models(pairs@), key@) == Err::<
                json::Json,
                ParseErrorView,
            >(e@),
        },
{
    match json::field(pairs, key) {
        Some(v) => Ok(v),
        None => Err(ParseError::MissingField { field: key }),
    }
}

fn need_integer(pairs: &[(String, json::Value)], key: &'static str) -> (r: Result<
    i64,
    ParseError,
>)
    ensures
        match r {
            Ok(n) => required_integer(json::pair_models(pairs@), key@) == Ok::<
                i64,
                ParseErrorView,
            >(n),
            Err(e) => required_integer(json::pair_models(pairs@), key@) == Err::<
                i64,
                ParseErrorView,
            >(e@),
        },
{
    match need(pairs, key) {
        Ok(v) => v.integer(key),
        Err(e) => Err(e),
    }
}

fn integer_or_zero(pairs: &[(String, json::Value)], key: &'static str) -> (r: Result<
    i64,
    ParseError,
>)
    ensures
        match r {
            Ok(n) => optional_integer(json::pair_models(pairs@), key@) == Ok::<
                i64,
                ParseErrorView,
            >(n),
            Err(e) => optional_integer(json::pair_models(pairs@), key@) == Err::<
                i64,
                ParseErrorView,
            >(e@),
        },
{
    match json::field(pairs, key) {
        Some(v) => v.integer(key),
        None => Ok(0),
    }
}

fn clamp_to_zero(n: i64) -> (r: u64)
    ensures
        r == at_least_zero(n),
{
    if n < 0 {
        0
    } else {
        n as u64
    }
}

/// Parse a `/app/getfilelist` reply body.
pub fn parse_file_list(body: &str) -> (r: Result<FileList, ParseError>)
    ensures
        match r {
            Ok(list) => list_of(encode_utf8(body@)) == Ok::<FileListView, ParseErrorView>(list@),
            Err(e) => list_of(encode_utf8(body@)) == Err::<FileListView, ParseErrorView>(e@),
        },
{
    let root = match json::parse(body) {
        Ok(v) => v,
        Err(e) => {
            return Err(e);
        },
    };
    let obj = match root.object("body") {
        Ok(o) => o,
        Err(e) => {
            return Err(e);
        },
    };
    let result: i64 = match need_integer(obj, "result") {
        Ok(n) => n,
        Err(e) => {
            return Err(e);
        },
    };
    // `info` is an array here and a string in the delete reply: one field name, two shapes.
    let info = match need(obj, "info") {
        Ok(v) => v,
        Err(e) => {
            return Err(e);
        },
    };
    let items = match info.array("info") {
        Ok(items) => items,
        Err(e) => {
            return Err(e);
        },
    };
    let ghost all = json::models(items@);
    let mut folders: Vec<FolderListing> = Vec::new();
    assert(folder_views(folders@) =~= Seq::empty());
    for i in 0..items.len()
        invariant
            all == json::models(items@),
            folders_of(all.take(i as int)) == Ok::<Seq<FolderListingView>, ParseErrorView>(
                folder_views(folders@),
            ),
            list_of(encode_utf8(body@)) == (match folders_of(all) {
                Err(e) => Err::<FileListView, ParseErrorView>(e),
                Ok(folders) => Ok(FileListView { result, folders }),
            }),
    {
        let ghost before = folder_views(folders@);
        assert(all.take(i + 1).drop_last() =~= all.take(i as int));
        match parse_folder(&items[i]) {
            Ok(folder) => {
                folders.push(folder);
                assert(folder_views(folders@) =~= before.push(folder@));
            },
            Err(e) => {
                proof {
                    lemma_folders_error(all, i + 1);
                }
                return Err(e);
            },
        }
    }
    assert(all.take(all.len() as int) =~= all);
    Ok(FileList { result, folders })
}

/// An error in the first folders is the error of all.
proof fn lemma_folders_error(items: Seq<json::Json>, n: int)
    requires
        0 <= n <= items.len(),
        folders_of(items.take(n)) is Err,
    ensures
        folders_of(items) == folders_of(items.take(n)),
    decreases items.len() - n,
{
    if n < items.len() {
        assert(items.take(n + 1).drop_last() =~= items.take(n));
        lemma_folders_error(items, n + 1);
    } else {
        assert(items.take(n) =~= items);
    }
}

/// An error in the first rows is the error of all.
proof fn lemma_entries_error(items: Seq<json::Json>, folder: Folder, n: int)
    requires
        0 <= n <= items.len(),
        entries_of(items.take(n), folder) is Err,
    ensures
        entries_of(items, folder) == entries_of(items.take(n), folder),
    decreases items.len() - n,
{
    if n < items.len() {
        assert(items.take(n + 1).drop_last() =~= items.take(n));
        lemma_entries_error(items, folder, n + 1);
    } else {
        assert(items.take(n) =~= items);
    }
}

fn parse_folder(item: &json::Value) -> (r: Result<FolderListing, ParseError>)
    ensures
        match r {
            Ok(f) => folder_of(item@) == Ok::<FolderListingView, ParseErrorView>(f@),
            Err(e) => folder_of(item@) == Err::<FolderListingView, ParseErrorView>(e@),
        },
{
    let o = match item.object("info[]") {
        Ok(o) => o,
        Err(e) => {
            return Err(e);
        },
    };
    let name_value = match need(o, "folder") {
        Ok(v) => v,
        Err(e) => {
            return Err(e);
        },
    };
    let name = match name_value.string("folder") {
        Ok(s) => s,
        Err(e) => {
            return Err(e);
        },
    };
    let folder = match Folder::from_name(name) {
        Some(f) => f,
        None => {
            return Err(ParseError::UnknownFolder { folder: String::from_str(name) });
        },
    };
    let count: i64 = match integer_or_zero(o, "count") {
        Ok(n) => n,
        Err(e) => {
            return Err(e);
        },
    };
    let files_value = match need(o, "files") {
        Ok(v) => v,
        Err(e) => {
            return Err(e);
        },
    };
    let items = match files_value.array("files") {
        Ok(items) => items,
        Err(e) => {
            return Err(e);
        },
    };
    let ghost all = json::models(items@);
    let mut files: Vec<FileEntry> = Vec::new();
    assert(entry_views(files@) =~= Seq::empty());
    for i in 0..items.len()
        invariant
            all == json::models(items@),
            entries_of(all.take(i as int), folder) == Ok::<Seq<FileEntryView>, ParseErrorView>(
                entry_views(files@),
            ),
            folder_of(item@) == (match entries_of(all, folder) {
                Err(e) => Err::<FolderListingView, ParseErrorView>(e),
                Ok(files) => Ok(FolderListingView { folder, files, count: at_least_zero(count) }),
            }),
    {
        let ghost before = entry_views(files@);
        assert(all.take(i + 1).drop_last() =~= all.take(i as int));
        match parse_file_entry(&items[i], folder) {
            Ok(entry) => {
                files.push(entry);
                assert(entry_views(files@) =~= before.push(entry@));
            },
            Err(e) => {
                proof {
                    lemma_entries_error(all, folder, i + 1);
                }
                return Err(e);
            },
        }
    }
    assert(all.take(all.len() as int) =~= all);
    Ok(FolderListing { folder, files, count: clamp_to_zero(count) })
}

fn parse_file_entry(row: &json::Value, folder: Folder) -> (r: Result<FileEntry, ParseError>)
    ensures
        match r {
            Ok(f) => entry_of(row@, folder) == Ok::<FileEntryView, ParseErrorView>(f@),
            Err(e) => entry_of(row@, folder) == Err::<FileEntryView, ParseErrorView>(e@),
        },
{
    let o = match row.object("files[]") {
        Ok(o) => o,
        Err(e) => {
            return Err(e);
        },
    };
    let name_value = match need(o, "name") {
        Ok(v) => v,
        Err(e) => {
            return Err(e);
        },
    };
    let name = match name_value.string("name") {
        Ok(s) => String::from_str(s),
        Err(e) => {
            return Err(e);
        },
    };
    let size: i64 = match need_integer(o, "size") {
        Ok(n) => n,
        Err(e) => {
            return Err(e);
        },
    };
    let own = match Folder::of_name(name.as_str()) {
        Some(f) => f,
        None => folder,
    };
    let created = match json::field(o, "createtimestr") {
        Some(v) => match v.as_str() {
            Some(s) => Timestamp::parse(s),
            None => None,
        },
        None => None,
    };
    let raw_type: i64 = match integer_or_zero(o, "type") {
        Ok(n) => n,
        Err(e) => {
            return Err(e);
        },
    };
    Ok(
        FileEntry {
            name,
            folder: own,
            size_kib: clamp_to_zero(size),
            created,
            kind: own.holds(),
            raw_type,
        },
    )
}

/// Parse a `/app/deletefile` reply body.
pub fn parse_delete_reply(body: &str) -> (r: Result<DeleteReply, ParseError>)
    ensures
        match r {
            Ok(reply) => delete_reply_of(encode_utf8(body@)) == Ok::<
                DeleteReplyView,
                ParseErrorView,
            >(reply@),
            Err(e) => delete_reply_of(encode_utf8(body@)) == Err::<
                DeleteReplyView,
                ParseErrorView,
            >(e@),
        },
{
    let root = match json::parse(body) {
        Ok(v) => v,
        Err(e) => {
            return Err(e);
        },
    };
    let obj = match root.object("body") {
        Ok(o) => o,
        Err(e) => {
            return Err(e);
        },
    };
    let result: i64 = match need_integer(obj, "result") {
        Ok(n) => n,
        Err(e) => {
            return Err(e);
        },
    };
    let info_value = match need(obj, "info") {
        Ok(v) => v,
        Err(e) => {
            return Err(e);
        },
    };
    let info = match info_value.string("info") {
        Ok(s) => String::from_str(s),
        Err(e) => {
            return Err(e);
        },
    };
    Ok(DeleteReply { result, info })
}

/// One action in a gallery sync.
#[derive(Debug, Clone, PartialEq, Eq)]
pub enum SyncStep {
    /// `GET /app/getfilelist`. Always first; everything after it is derived from the reply.
    List,
    /// `GET /app/getthumbnail?file=..`.
    Thumbnail { name: String },
    /// `GET /<name>`. Check the result with [`download_is_complete`] against `size_kib`.
    Download { name: String, size_kib: u64 },
    /// `GET /app/deletefile?file=..`. Only ever emitted for a file this plan also downloads.
    Delete { name: String },
    /// Write `0x44 30 00` over BLE and drop the Wi-Fi network. Not an HTTP request: the step
    /// exists so a driver cannot forget it.
    TearDown,
}

/// The recommended order for a full gallery sync: list, then every thumbnail, then per file
/// download-then-delete, then tear the AP down.
#[derive(Debug, Clone, PartialEq, Eq)]
pub struct SyncPlan {
    steps: Vec<SyncStep>,
}

/// A thumbnail of each file.
pub open spec fn thumbnail_steps(files: Seq<FileEntry>) -> Seq<SyncStep> {
    files.map_values(|f: FileEntry| SyncStep::Thumbnail { name: f.name })
}

/// Each file downloaded, and then deleted if that is wanted.
pub open spec fn transfer_steps(files: Seq<FileEntry>, delete_after: bool) -> Seq<SyncStep>
    decreases files.len(),
{
    if files.len() == 0 {
        Seq::empty()
    } else {
        let f = files.last();
        let download = SyncStep::Download { name: f.name, size_kib: f.size_kib };
        transfer_steps(files.drop_last(), delete_after) + if delete_after {
            seq![download, SyncStep::Delete { name: f.name }]
        } else {
            seq![download]
        }
    }
}

/// The plan for the files of a listing in hand.
pub open spec fn plan_for(files: Seq<FileEntry>, delete_after: bool) -> Seq<SyncStep> {
    (thumbnail_steps(files) + transfer_steps(files, delete_after)).push(SyncStep::TearDown)
}

/// The most bytes that the downloads among these steps can move.
pub open spec fn download_bound(steps: Seq<SyncStep>) -> int
    decreases steps.len(),
{
    if steps.len() == 0 {
        0
    } else {
        download_bound(steps.drop_last()) + match steps.last() {
            SyncStep::Download { size_kib, .. } => most_bytes(size_kib) as int,
            _ => 0,
        }
    }
}

impl View for SyncPlan {
    type V = Seq<SyncStep>;

    closed spec fn view(&self) -> Seq<SyncStep> {
        self.steps@
    }
}

impl SyncPlan {
    /// The plan for a listing already in hand. Starts at the thumbnails: [`SyncStep::List`] is
    /// the request that produced `list`.
    pub fn for_list(list: &FileList, delete_after: bool) -> (plan: SyncPlan)
        ensures
            plan@ == plan_for(rows(list.folders@), delete_after),
    {
        let files = list.all_files();
        let ghost all = rows(list.folders@);
        let mut steps: Vec<SyncStep> = Vec::new();
        for i in 0..files.len()
            invariant
                all.len() == files@.len(),
                forall|k: int| 0 <= k < files@.len() ==> *(#[trigger] files@[k]) == all[k],
                steps@ == thumbnail_steps(all.take(i as int)),
        {
            steps.push(SyncStep::Thumbnail { name: files[i].name.clone() });
            assert(*files@[i as int] == all[i as int]);
            assert(steps@ =~= thumbnail_steps(all.take(i + 1)));
        }
        assert(all.take(all.len() as int) =~= all);
        let ghost thumbnails = steps@;
        assert(steps@ =~= thumbnails + transfer_steps(all.take(0), delete_after));
        for i in 0..files.len()
            invariant
                all.len() == files@.len(),
                forall|k: int| 0 <= k < files@.len() ==> *(#[trigger] files@[k]) == all[k],
                steps@ == thumbnails + transfer_steps(all.take(i as int), delete_after),
        {
            assert(*files@[i as int] == all[i as int]);
            assert(all.take(i + 1).drop_last() =~= all.take(i as int));
            steps.push(
                SyncStep::Download { name: files[i].name.clone(), size_kib: files[i].size_kib },
            );
            if delete_after {
                steps.push(SyncStep::Delete { name: files[i].name.clone() });
            }
            assert(steps@ =~= thumbnails + transfer_steps(all.take(i + 1), delete_after));
        }
        steps.push(SyncStep::TearDown);
        SyncPlan { steps }
    }

    /// The whole plan from cold, including the listing request itself.
    pub fn from_cold() -> (plan: SyncPlan)
        ensures
            plan@ == seq![SyncStep::List],
    {
        let mut steps: Vec<SyncStep> = Vec::new();
        steps.push(SyncStep::List);
        assert(steps@ =~= seq![SyncStep::List]);
        SyncPlan { steps }
    }

    /// The plan for a listing, with the listing request in front of it.
    pub fn full(list: &FileList, delete_after: bool) -> (plan: SyncPlan)
        ensures
            plan@ == seq![SyncStep::List] + plan_for(rows(list.folders@), delete_after),
    {
        let mut steps: Vec<SyncStep> = Vec::new();
        steps.push(SyncStep::List);
        assert(steps@ =~= seq![SyncStep::List]);
        let mut rest = SyncPlan::for_list(list, delete_after).steps;
        steps.append(&mut rest);
        SyncPlan { steps }
    }

    pub fn steps(&self) -> (steps: &[SyncStep])
        ensures
            steps@ == self@,
    {
        self.steps.as_slice()
    }

    pub fn len(&self) -> (n: usize)
        ensures
            n == self@.len(),
    {
        self.steps.len()
    }

    pub fn is_empty(&self) -> (b: bool)
        ensures
            b == (self@.len() == 0),
    {
        self.steps.is_empty()
    }

    /// How many bytes the downloads in this plan will move, at most: the upper bound of the KiB
    /// range, so a progress bar built on it never runs past 100 %.
    pub fn max_download_bytes(&self) -> (n: u64)
        requires
            download_bound(self@) <= u64::MAX,
        ensures
            n == download_bound(self@),
    {
        let mut n: u64 = 0;
        for i in 0..self.steps.len()
            invariant
                download_bound(self.steps@) <= u64::MAX,
                n == download_bound(self.steps@.take(i as int)),
        {
            proof {
                assert(self.steps@.take(i + 1).drop_last() =~= self.steps@.take(i as int));
                lemma_bound_prefix(self.steps@, i + 1);
            }
            if let SyncStep::Download { size_kib, .. } = &self.steps[i] {
                n = n + byte_bounds(*size_kib).1;
            }
        }
        assert(self.steps@.take(self.steps@.len() as int) =~= self.steps@);
        n
    }

    pub fn iter(&self) -> (it: core::slice::Iter<'_, SyncStep>)
        ensures
            vstd::std_specs::iter::IteratorSpec::remaining(&it) == self@.as_ref(),
    {
        self.steps.as_slice().iter()
    }
}

proof fn lemma_bound_prefix(steps: Seq<SyncStep>, n: int)
    requires
        0 <= n <= steps.len(),
    ensures
        download_bound(steps.take(n)) <= download_bound(steps),
    decreases steps.len() - n,
{
    if n < steps.len() {
        assert(steps.take(n + 1).drop_last() =~= steps.take(n));
        lemma_bound_prefix(steps, n + 1);
    } else {
        assert(steps.take(n) =~= steps);
    }
}

/// The KiB rule: a download is complete exactly when its size in bytes, divided by 1024 and
/// rounded down, is the listed size.
pub proof fn lemma_kib_rule(size_kib: u64, bytes: u64)
    requires
        size_kib * BYTES_PER_KIB + BYTES_PER_KIB - 1 <= u64::MAX,
    ensures
        (least_bytes(size_kib) <= bytes <= most_bytes(size_kib)) <==> bytes / BYTES_PER_KIB
            == size_kib,
{
}

/// A plan never deletes what it has not just downloaded: in front of every delete stands the
/// download of the same file.
pub proof fn lemma_delete_follows_download(files: Seq<FileEntry>, delete_after: bool, i: int)
    requires
        0 <= i < plan_for(files, delete_after).len(),
        plan_for(files, delete_after)[i] is Delete,
    ensures
        delete_after,
        i > 0,
        plan_for(files, delete_after)[i - 1] is Download,
        plan_for(files, delete_after)[i - 1]->Download_name == plan_for(
            files,
            delete_after,
        )[i]->Delete_name,
{
    let thumbnails = thumbnail_steps(files);
    let transfers = transfer_steps(files, delete_after);
    assert(thumbnails.len() <= i < thumbnails.len() + transfers.len());
    lemma_transfer_pairs(files, delete_after, i - thumbnails.len());
}

proof fn lemma_transfer_pairs(files: Seq<FileEntry>, delete_after: bool, i: int)
    requires
        0 <= i < transfer_steps(files, delete_after).len(),
        transfer_steps(files, delete_after)[i] is Delete,
    ensures
        delete_after,
        i > 0,
        transfer_steps(files, delete_after)[i - 1] is Download,
        transfer_steps(files, delete_after)[i - 1]->Download_name == transfer_steps(
            files,
            delete_after,
        )[i]->Delete_name,
    decreases files.len(),
{
    let before = transfer_steps(files.drop_last(), delete_after);
    if i < before.len() {
        lemma_transfer_pairs(files.drop_last(), delete_after, i);
    }
}

/// Every file of the listing gets its thumbnail and its download, and the last step tears the
/// network down.
pub proof fn lemma_plan_covers_every_file(files: Seq<FileEntry>, delete_after: bool, k: int)
    requires
        0 <= k < files.len(),
    ensures
        plan_for(files, delete_after)[k] == (SyncStep::Thumbnail { name: files[k].name }),
        plan_for(files, delete_after).contains(
            SyncStep::Download { name: files[k].name, size_kib: files[k].size_kib },
        ),
        delete_after ==> plan_for(files, delete_after).contains(
            SyncStep::Delete { name: files[k].name },
        ),
        plan_for(files, delete_after).last() == SyncStep::TearDown,
{
    let at = lemma_transfer_of(files, delete_after, k);
    let n = files.len() as int;
    let plan = plan_for(files, delete_after);
    assert(plan[n + at] == transfer_steps(files, delete_after)[at]);
    if delete_after {
        assert(plan[n + at + 1] == transfer_steps(files, delete_after)[at + 1]);
    }
}

proof fn lemma_transfer_of(files: Seq<FileEntry>, delete_after: bool, k: int) -> (at: int)
    requires
        0 <= k < files.len(),
    ensures
        ({
            let steps = transfer_steps(files, delete_after);
            &&& 0 <= at < steps.len()
            &&& steps[at] == (SyncStep::Download {
                name: files[k].name,
                size_kib: files[k].size_kib,
            })
            &&& delete_after ==> at + 1 < steps.len() && steps[at + 1] == (SyncStep::Delete {
                name: files[k].name,
            })
        }),
    decreases files.len(),
{
    let before = transfer_steps(files.drop_last(), delete_after);
    if k < files.len() - 1 {
        lemma_transfer_of(files.drop_last(), delete_after, k)
    } else {
        before.len() as int
    }
}

/// The folder names are different, so a folder is found by its own name.
pub proof fn lemma_folder_name_round_trip(f: Folder)
    ensures
        Folder::with_name(f.wire_name()) == Some(f),
{
    reveal_strlit("EVENT");
    reveal_strlit("AAC");
    reveal_strlit("LOOP");
    reveal_strlit("EMR");
    assert("EVENT"@[0] != "AAC"@[0]);
    assert("EVENT"@[0] != "LOOP"@[0]);
    assert("EVENT"@[1] != "EMR"@[1]);
    assert("AAC"@[0] != "LOOP"@[0]);
    assert("AAC"@[0] != "EMR"@[0]);
    assert("LOOP"@[0] != "EMR"@[0]);
}

/// The fourteen digits of a timestamp.
spec fn digits_of(t: Timestamp) -> Seq<int> {
    seq![
        t.year as int / 1000,
        t.year as int / 100 % 10,
        t.year as int / 10 % 10,
        t.year as int % 10,
        t.month as int / 10,
        t.month as int % 10,
        t.day as int / 10,
        t.day as int % 10,
        t.hour as int / 10,
        t.hour as int % 10,
        t.minute as int / 10,
        t.minute as int % 10,
        t.second as int / 10,
        t.second as int % 10,
    ]
}

/// A four-character text and five of two characters, joined.
proof fn lemma_joined(
    y: Seq<char>,
    m: Seq<char>,
    d: Seq<char>,
    h: Seq<char>,
    n: Seq<char>,
    s: Seq<char>,
)
    requires
        y.len() == 4,
        m.len() == 2,
        d.len() == 2,
        h.len() == 2,
        n.len() == 2,
        s.len() == 2,
    ensures
        y + m + d + h + n + s == seq![
            y[0],
            y[1],
            y[2],
            y[3],
            m[0],
            m[1],
            d[0],
            d[1],
            h[0],
            h[1],
            n[0],
            n[1],
            s[0],
            s[1],
        ],
{
    assert(y + m + d + h + n + s =~= seq![
        y[0],
        y[1],
        y[2],
        y[3],
        m[0],
        m[1],
        d[0],
        d[1],
        h[0],
        h[1],
        n[0],
        n[1],
        s[0],
        s[1],
    ]);
}

/// The digits of a number below 100.
spec fn two_digits(n: int) -> Seq<char> {
    seq![text::digit_char(n / 10), text::digit_char(n % 10)]
}

proof fn lemma_compact_digits(t: Timestamp)
    requires
        t.in_range(),
        t.year <= 9999,
    ensures
        t.compact() == digits_of(t).map_values(|d: int| text::digit_char(d)),
        forall|i: int| 0 <= i < 14 ==> 0 <= #[trigger] digits_of(t)[i] < 10,
{
    let y = seq![
        text::digit_char(t.year as int / 1000),
        text::digit_char(t.year as int / 100 % 10),
        text::digit_char(t.year as int / 10 % 10),
        text::digit_char(t.year as int % 10),
    ];
    assert(text::padded_text(t.year as int, 4) == y) by {
        text::lemma_padded_digits(t.year as int);
    }
    assert forall|n: int| 0 <= n < 100 implies #[trigger] text::padded_text(n, 2) == two_digits(
        n,
    ) by {
        text::lemma_padded_digits(n);
    }
    lemma_joined(
        y,
        two_digits(t.month as int),
        two_digits(t.day as int),
        two_digits(t.hour as int),
        two_digits(t.minute as int),
        two_digits(t.second as int),
    );
    let digits = digits_of(t);
    assert(t.compact() =~= digits.map_values(|d: int| text::digit_char(d)));
}

/// Digits in text are digits in bytes.
proof fn lemma_digit_text_bytes(d: Seq<int>)
    requires
        forall|i: int| 0 <= i < d.len() ==> 0 <= #[trigger] d[i] < 10,
    ensures
        encode_utf8(d.map_values(|x: int| text::digit_char(x))) == d.map_values(
            |x: int| (0x30 + x) as u8,
        ),
{
    let s = d.map_values(|x: int| text::digit_char(x));
    assert(is_ascii_chars(s));
    is_ascii_chars_encode_utf8(s);
    assert(encode_utf8(s) =~= d.map_values(|x: int| (0x30 + x) as u8));
}

/// A timestamp survives its wire form.
#[verifier::spinoff_prover]
#[verifier::rlimit(60)]
pub proof fn lemma_timestamp_round_trip(t: Timestamp)
    requires
        t.in_range(),
        t.year <= 9999,
    ensures
        Timestamp::written(encode_utf8(t.compact())) == Some(t),
{
    lemma_compact_digits(t);
    lemma_digit_text_bytes(digits_of(t));
    let b = encode_utf8(t.compact());
    assert(b.subrange(0, 4) =~= digit_bytes4(t.year as int));
    assert(b.subrange(4, 6) =~= digit_bytes2(t.month as int));
    assert(b.subrange(6, 8) =~= digit_bytes2(t.day as int));
    assert(b.subrange(8, 10) =~= digit_bytes2(t.hour as int));
    assert(b.subrange(10, 12) =~= digit_bytes2(t.minute as int));
    assert(b.subrange(12, 14) =~= digit_bytes2(t.second as int));
    lemma_digit_bytes(t.year as int);
    lemma_digit_bytes(t.month as int);
    lemma_digit_bytes(t.day as int);
    lemma_digit_bytes(t.hour as int);
    lemma_digit_bytes(t.minute as int);
    lemma_digit_bytes(t.second as int);
}

spec fn digit_bytes2(n: int) -> Seq<u8> {
    seq![(0x30 + n / 10) as u8, (0x30 + n % 10) as u8]
}

spec fn digit_bytes4(n: int) -> Seq<u8> {
    seq![
        (0x30 + n / 1000) as u8,
        (0x30 + n / 100 % 10) as u8,
        (0x30 + n / 10 % 10) as u8,
        (0x30 + n % 10) as u8,
    ]
}

proof fn lemma_digit_bytes(n: int)
    requires
        0 <= n,
    ensures
        n < 100 ==> text::decimal_of(digit_bytes2(n)) == Some(n),
        n < 10000 ==> text::decimal_of(digit_bytes4(n)) == Some(n),
{
    reveal_with_fuel(text::decimal_of, 5);
    let two = digit_bytes2(n);
    let four = digit_bytes4(n);
    assert(two.drop_last() =~= seq![two[0]]);
    assert(two.drop_last().drop_last() =~= Seq::empty());
    assert(four.drop_last() =~= seq![four[0], four[1], four[2]]);
    assert(four.drop_last().drop_last() =~= seq![four[0], four[1]]);
    assert(four.drop_last().drop_last().drop_last() =~= seq![four[0]]);
    assert(four.drop_last().drop_last().drop_last().drop_last() =~= Seq::empty());
}

/// Percent-encoding gives nothing but characters that are left alone, percent signs and
/// hexadecimal digits: all of them stand for themselves in a URL.
pub proof fn lemma_percent_output_is_plain(b: Seq<u8>, i: int)
    requires
        0 <= i < percent_encoded(b).len(),
    ensures
        percent_encoded(b)[i] == '%' || (percent_encoded(b)[i] as u32 <= 0x7F && left_alone(
            percent_encoded(b)[i] as u8,
        )),
    decreases b.len(),
{
    let before = percent_encoded(b.drop_last());
    if i < before.len() {
        lemma_percent_output_is_plain(b.drop_last(), i);
    }
}

/// Text of characters that are left alone survives unchanged.
pub proof fn lemma_percent_keeps_plain_text(b: Seq<u8>)
    requires
        forall|i: int| 0 <= i < b.len() ==> left_alone(#[trigger] b[i]),
    ensures
        percent_encoded(b) == b.map_values(|c: u8| c as char),
    decreases b.len(),
{
    if b.len() > 0 {
        lemma_percent_keeps_plain_text(b.drop_last());
        assert(percent_encoded(b) =~= b.map_values(|c: u8| c as char));
    } else {
        assert(percent_encoded(b) =~= b.map_values(|c: u8| c as char));
    }
}

/// Whether two objects read the same as a reply, a folder or a row.
pub open spec fn reads_alike(a: json::Json, b: json::Json) -> bool {
    &&& list_in(a) == list_in(b)
    &&& delete_reply_in(a) == delete_reply_in(b)
    &&& folder_of(a) == folder_of(b)
    &&& forall|folder: Folder| #[trigger] entry_of(a, folder) == entry_of(b, folder)
}

/// Field order does not matter in an object, be it a reply, a folder or a row.
pub proof fn lemma_replies_do_not_depend_on_field_order(
    pairs: Seq<(Seq<char>, json::Json)>,
    shuffled: Seq<(Seq<char>, json::Json)>,
)
    requires
        json::distinct_keys(pairs),
        json::distinct_keys(shuffled),
        forall|p: (Seq<char>, json::Json)|
            pairs.contains(p) <==> #[trigger] shuffled.contains(p),
    ensures
        reads_alike(json::Json::Object(pairs), json::Json::Object(shuffled)),
{
    assert forall|key: Seq<char>| #[trigger] json::field_of(pairs, key) == json::field_of(
        shuffled,
        key,
    ) by {
        json::lemma_field_order_does_not_matter(pairs, shuffled, key);
    }
}

/// Whether a reply, a folder or a row has a field of this name.
pub open spec fn is_known_field(key: Seq<char>) -> bool {
    ||| key == "result"@
    ||| key == "info"@
    ||| key == "folder"@
    ||| key == "count"@
    ||| key == "files"@
    ||| key == "name"@
    ||| key == "size"@
    ||| key == "type"@
    ||| key == "createtimestr"@
}

/// An unknown field is ignored in an object, be it a reply, a folder or a row.
pub proof fn lemma_replies_ignore_unknown_fields(
    pairs: Seq<(Seq<char>, json::Json)>,
    i: int,
    extra: (Seq<char>, json::Json),
)
    requires
        0 <= i <= pairs.len(),
        !is_known_field(extra.0),
    ensures
        reads_alike(json::Json::Object(pairs.insert(i, extra)), json::Json::Object(pairs)),
{
    let more = pairs.insert(i, extra);
    assert forall|key: Seq<char>| is_known_field(key) implies #[trigger] json::field_of(more, key)
        == json::field_of(pairs, key) by {
        json::lemma_unknown_fields_are_ignored(pairs, i, extra, key);
    }
}

/// Whether two values differ only in the order of the members of their objects and in members that
/// a reply, a folder or a row does not have, at any depth. No key may occur twice in an object.
pub open spec fn same_but_for_order_and_unknown(a: json::Json, b: json::Json) -> bool
    decreases a,
{
    match (a, b) {
        (json::Json::Array(x), json::Json::Array(y)) => {
            &&& x.len() == y.len()
            &&& forall|i: int|
                0 <= i < x.len() ==> same_but_for_order_and_unknown(#[trigger] x[i], y[i])
        },
        (json::Json::Object(p), json::Json::Object(q)) => {
            &&& json::distinct_keys(p)
            &&& json::distinct_keys(q)
            &&& forall|i: int|
                0 <= i < p.len() && is_known_field((#[trigger] p[i]).0) ==> exists|j: int|
                    0 <= j < q.len() && (#[trigger] q[j]).0 == p[i].0
                        && same_but_for_order_and_unknown(p[i].1, q[j].1)
            &&& forall|j: int|
                0 <= j < q.len() && is_known_field((#[trigger] q[j]).0) ==> exists|i: int|
                    0 <= i < p.len() && (#[trigger] p[i]).0 == q[j].0
        },
        _ => a == b,
    }
}

/// Whether no key occurs twice in an object, at any depth.
pub open spec fn unambiguous(a: json::Json) -> bool
    decreases a,
{
    match a {
        json::Json::Array(x) => forall|i: int|
            0 <= i < x.len() ==> unambiguous(#[trigger] x[i]),
        json::Json::Object(p) => {
            &&& json::distinct_keys(p)
            &&& forall|i: int| 0 <= i < p.len() ==> unambiguous((#[trigger] p[i]).1)
        },
        _ => true,
    }
}

/// A value in which no key occurs twice differs from itself in nothing.
pub proof fn lemma_a_value_is_the_same_as_itself(a: json::Json)
    requires
        unambiguous(a),
    ensures
        same_but_for_order_and_unknown(a, a),
    decreases a,
{
    match a {
        json::Json::Array(x) => {
            assert forall|i: int| 0 <= i < x.len() implies same_but_for_order_and_unknown(
                #[trigger] x[i],
                x[i],
            ) by {
                lemma_a_value_is_the_same_as_itself(x[i]);
            }
        },
        json::Json::Object(p) => {
            assert forall|i: int| 0 <= i < p.len() implies same_but_for_order_and_unknown(
                (#[trigger] p[i]).1,
                p[i].1,
            ) by {
                lemma_a_value_is_the_same_as_itself(p[i].1);
            }
        },
        _ => {},
    }
}

/// A known field is in both objects or in neither, and its values differ no more than the objects.
proof fn lemma_known_field_is_the_same(
    p: Seq<(Seq<char>, json::Json)>,
    q: Seq<(Seq<char>, json::Json)>,
    key: Seq<char>,
)
    requires
        same_but_for_order_and_unknown(json::Json::Object(p), json::Json::Object(q)),
        is_known_field(key),
    ensures
        match (json::field_of(p, key), json::field_of(q, key)) {
            (Some(v), Some(w)) => same_but_for_order_and_unknown(v, w),
            (None, None) => true,
            _ => false,
        },
{
    json::lemma_field_is_the_pair(p, key);
    json::lemma_field_is_the_pair(q, key);
    if let Some(v) = json::field_of(p, key) {
        let i = choose|i: int| 0 <= i < p.len() && p[i] == (key, v);
        let j = choose|j: int|
            0 <= j < q.len() && (#[trigger] q[j]).0 == p[i].0 && same_but_for_order_and_unknown(
                p[i].1,
                q[j].1,
            );
        assert(q[j].0 == key);
        if let Some(w) = json::field_of(q, key) {
            let k = choose|k: int| 0 <= k < q.len() && q[k] == (key, w);
            assert(q[j].0 == q[k].0);
            assert(j == k);
        }
    } else if let Some(w) = json::field_of(q, key) {
        let j = choose|j: int| 0 <= j < q.len() && q[j] == (key, w);
        let i = choose|i: int| 0 <= i < p.len() && (#[trigger] p[i]).0 == q[j].0;
        assert(p[i].0 == key);
    }
}

/// Neither field order nor unknown fields change what a row says.
proof fn lemma_entry_is_the_same(a: json::Json, b: json::Json, folder: Folder)
    requires
        same_but_for_order_and_unknown(a, b),
    ensures
        entry_of(a, folder) == entry_of(b, folder),
{
    if let (json::Json::Object(p), json::Json::Object(q)) = (a, b) {
        lemma_known_field_is_the_same(p, q, "name"@);
        lemma_known_field_is_the_same(p, q, "size"@);
        lemma_known_field_is_the_same(p, q, "type"@);
        lemma_known_field_is_the_same(p, q, "createtimestr"@);
    }
}

/// Neither field order nor unknown fields change what rows say.
proof fn lemma_entries_are_the_same(x: Seq<json::Json>, y: Seq<json::Json>, folder: Folder)
    requires
        x.len() == y.len(),
        forall|i: int|
            0 <= i < x.len() ==> same_but_for_order_and_unknown(#[trigger] x[i], y[i]),
    ensures
        entries_of(x, folder) == entries_of(y, folder),
    decreases x.len(),
{
    if x.len() > 0 {
        let n = x.len() - 1;
        assert forall|i: int|
            0 <= i < x.drop_last().len() implies same_but_for_order_and_unknown(
            #[trigger] x.drop_last()[i],
            y.drop_last()[i],
        ) by {
            assert(x.drop_last()[i] == x[i]);
        }
        lemma_entries_are_the_same(x.drop_last(), y.drop_last(), folder);
        assert(x.last() == x[n]);
        lemma_entry_is_the_same(x.last(), y.last(), folder);
    }
}

/// Neither field order nor unknown fields change what a folder says.
proof fn lemma_folder_is_the_same(a: json::Json, b: json::Json)
    requires
        same_but_for_order_and_unknown(a, b),
    ensures
        folder_of(a) == folder_of(b),
{
    if let (json::Json::Object(p), json::Json::Object(q)) = (a, b) {
        lemma_known_field_is_the_same(p, q, "folder"@);
        lemma_known_field_is_the_same(p, q, "count"@);
        lemma_known_field_is_the_same(p, q, "files"@);
        if let (Some(json::Json::Array(x)), Some(json::Json::Array(y))) = (
            json::field_of(p, "files"@),
            json::field_of(q, "files"@),
        ) {
            assert(same_but_for_order_and_unknown(json::Json::Array(x), json::Json::Array(y)));
            assert forall|folder: Folder| #[trigger] entries_of(x, folder) == entries_of(
                y,
                folder,
            ) by {
                lemma_entries_are_the_same(x, y, folder);
            }
        }
    }
}

/// Neither field order nor unknown fields change what folders say.
proof fn lemma_folders_are_the_same(x: Seq<json::Json>, y: Seq<json::Json>)
    requires
        x.len() == y.len(),
        forall|i: int|
            0 <= i < x.len() ==> same_but_for_order_and_unknown(#[trigger] x[i], y[i]),
    ensures
        folders_of(x) == folders_of(y),
    decreases x.len(),
{
    if x.len() > 0 {
        let n = x.len() - 1;
        assert forall|i: int|
            0 <= i < x.drop_last().len() implies same_but_for_order_and_unknown(
            #[trigger] x.drop_last()[i],
            y.drop_last()[i],
        ) by {
            assert(x.drop_last()[i] == x[i]);
        }
        lemma_folders_are_the_same(x.drop_last(), y.drop_last());
        assert(x.last() == x[n]);
        lemma_folder_is_the_same(x.last(), y.last());
    }
}

/// Field order does not matter and unknown fields are ignored, at every level of a reply at once:
/// in the reply itself, in its folders and in their rows.
pub proof fn lemma_values_read_alike(a: json::Json, b: json::Json)
    requires
        same_but_for_order_and_unknown(a, b),
    ensures
        reads_alike(a, b),
{
    if let (json::Json::Object(p), json::Json::Object(q)) = (a, b) {
        lemma_known_field_is_the_same(p, q, "result"@);
        lemma_known_field_is_the_same(p, q, "info"@);
        if let (Some(json::Json::Array(x)), Some(json::Json::Array(y))) = (
            json::field_of(p, "info"@),
            json::field_of(q, "info"@),
        ) {
            assert(same_but_for_order_and_unknown(json::Json::Array(x), json::Json::Array(y)));
            lemma_folders_are_the_same(x, y);
        }
    }
    lemma_folder_is_the_same(a, b);
    assert forall|folder: Folder| #[trigger] entry_of(a, folder) == entry_of(b, folder) by {
        lemma_entry_is_the_same(a, b, folder);
    }
}

/// Two reply bodies that differ only in field order and in unknown fields, at any depth, give the
/// same listing and the same delete reply.
pub proof fn lemma_bodies_read_alike(one: Seq<u8>, other: Seq<u8>)
    requires
        json::document(one) is Ok,
        json::document(other) is Ok,
        same_but_for_order_and_unknown(json::document(one)->Ok_0, json::document(other)->Ok_0),
    ensures
        list_of(one) == list_of(other),
        delete_reply_of(one) == delete_reply_of(other),
{
    lemma_values_read_alike(json::document(one)->Ok_0, json::document(other)->Ok_0);
}

// ---- the gallery as a whole ----------------------------------------------------------------

/// The files of a listing are the rows of all its folders, one folder after the other.
pub proof fn lemma_all_files_are_every_folders_rows(folders: Seq<FolderListing>)
    ensures
        rows(folders) == folders.map_values(|f: FolderListing| f.files@).flatten(),
    decreases folders.len(),
{
    let lists = folders.map_values(|f: FolderListing| f.files@);
    if folders.len() == 0 {
        assert(lists =~= Seq::empty());
    } else {
        let before = folders.drop_last().map_values(|f: FolderListing| f.files@);
        lemma_all_files_are_every_folders_rows(folders.drop_last());
        assert(lists =~= before.push(folders.last().files@));
        before.lemma_flatten_push(folders.last().files@);
    }
}

/// Every row of every folder is among the files, behind the rows of the folders before and those
/// before it in its own, and the plan downloads it, with its size, and deletes it if that is wanted.
pub proof fn lemma_every_row_is_synced(
    folders: Seq<FolderListing>,
    delete_after: bool,
    i: int,
    j: int,
)
    requires
        0 <= i < folders.len(),
        0 <= j < folders[i].files@.len(),
    ensures
        ({
            let before = folders.take(i).map_values(|f: FolderListing| f.files@).flatten();
            let row = folders[i].files@[j];
            let plan = plan_for(rows(folders), delete_after);
            &&& before.len() + j < rows(folders).len()
            &&& rows(folders)[before.len() + j] == row
            &&& plan.contains(SyncStep::Thumbnail { name: row.name })
            &&& plan.contains(SyncStep::Download { name: row.name, size_kib: row.size_kib })
            &&& delete_after ==> plan.contains(SyncStep::Delete { name: row.name })
        }),
{
    let lists = folders.map_values(|f: FolderListing| f.files@);
    let before = folders.take(i).map_values(|f: FolderListing| f.files@);
    let after = folders.skip(i + 1).map_values(|f: FolderListing| f.files@);
    let own = folders[i].files@;
    lemma_all_files_are_every_folders_rows(folders);
    assert(lists =~= before.push(own) + after);
    vstd::seq_lib::lemma_flatten_concat(before.push(own), after);
    before.lemma_flatten_push(own);
    let at = before.flatten().len() + j;
    assert(rows(folders) == before.flatten() + own + after.flatten());
    assert(rows(folders)[at] == own[j]);
    lemma_plan_covers_every_file(rows(folders), delete_after, at);
    assert(plan_for(rows(folders), delete_after)[at] == (SyncStep::Thumbnail {
        name: own[j].name,
    }));
}

/// How many files there are, and how large they are together, adds up over the folders.
pub proof fn lemma_files_and_sizes_add_up(
    folders: Seq<FolderListing>,
    last: FolderListing,
    files: Seq<FileEntry>,
    file: FileEntry,
)
    ensures
        rows(Seq::empty()).len() == 0,
        rows(folders.push(last)).len() == rows(folders).len() + last.files@.len(),
        size_sum(Seq::empty()) == 0,
        size_sum(files.push(file)) == size_sum(files) + file.size_kib,
        size_sum(rows(folders.push(last))) == size_sum(rows(folders)) + size_sum(last.files@),
{
    assert(folders.push(last).drop_last() =~= folders);
    assert(files.push(file).drop_last() =~= files);
    lemma_sizes_join(rows(folders), last.files@);
}

proof fn lemma_sizes_join(a: Seq<FileEntry>, b: Seq<FileEntry>)
    ensures
        size_sum(a + b) == size_sum(a) + size_sum(b),
    decreases b.len(),
{
    if b.len() == 0 {
        assert(a + b =~= a);
    } else {
        lemma_sizes_join(a, b.drop_last());
        assert((a + b).drop_last() =~= a + b.drop_last());
    }
}

/// The rows of a folder are those of the first entry that lists it.
pub proof fn lemma_which_rows_a_folder_has(folders: Seq<FolderListing>, folder: Folder, i: int)
    requires
        0 <= i <= folders.len(),
        forall|k: int| 0 <= k < i ==> (#[trigger] folders[k]).folder != folder,
        i < folders.len() ==> folders[i].folder == folder,
    ensures
        FileList::rows_in(folders, folder) == (if i < folders.len() {
            folders[i].files@
        } else {
            Seq::empty()
        }),
    decreases i,
{
    if i > 0 {
        let later = folders.drop_first();
        assert(folders[0].folder != folder);
        assert forall|k: int| 0 <= k < i - 1 implies (#[trigger] later[k]).folder != folder by {
            assert(later[k] == folders[k + 1]);
        }
        lemma_which_rows_a_folder_has(later, folder, i - 1);
    }
}

/// A plan is the thumbnails of all files in order, the downloads in order, each followed by its
/// delete if that is wanted, and the tear-down.
pub proof fn lemma_what_a_plan_is(files: Seq<FileEntry>, delete_after: bool, k: int)
    requires
        0 <= k < files.len(),
    ensures
        ({
            let plan = plan_for(files, delete_after);
            let n = files.len() as int;
            let each = if delete_after {
                2int
            } else {
                1
            };
            &&& plan.len() == n + each * n + 1
            &&& plan[k] == (SyncStep::Thumbnail { name: files[k].name })
            &&& plan[n + each * k] == (SyncStep::Download {
                name: files[k].name,
                size_kib: files[k].size_kib,
            })
            &&& delete_after ==> plan[n + each * k + 1] == (SyncStep::Delete {
                name: files[k].name,
            })
            &&& plan[n + each * n] == SyncStep::TearDown
        }),
        plan_for(Seq::empty(), delete_after) == seq![SyncStep::TearDown],
{
    lemma_where_a_transfer_stands(files, delete_after, k);
    assert(thumbnail_steps(files).len() == files.len());
    let none = Seq::<FileEntry>::empty();
    assert(thumbnail_steps(none) =~= Seq::empty());
    assert(plan_for(none, delete_after) =~= seq![SyncStep::TearDown]);
}

proof fn lemma_where_a_transfer_stands(files: Seq<FileEntry>, delete_after: bool, k: int)
    requires
        0 <= k < files.len(),
    ensures
        ({
            let steps = transfer_steps(files, delete_after);
            let each = if delete_after {
                2int
            } else {
                1
            };
            &&& steps.len() == each * files.len()
            &&& steps[each * k] == (SyncStep::Download {
                name: files[k].name,
                size_kib: files[k].size_kib,
            })
            &&& delete_after ==> steps[each * k + 1] == (SyncStep::Delete { name: files[k].name })
        }),
    decreases files.len(),
{
    let before = files.drop_last();
    if k < before.len() {
        lemma_where_a_transfer_stands(before, delete_after, k);
        assert(before[k] == files[k]);
    } else if before.len() > 0 {
        lemma_where_a_transfer_stands(before, delete_after, 0);
    } else {
        assert(transfer_steps(before, delete_after).len() == 0);
    }
}

/// What a plan may download adds up: for each download, the KiB listed and one KiB less a byte.
pub proof fn lemma_what_may_be_downloaded_adds_up(steps: Seq<SyncStep>, step: SyncStep)
    ensures
        download_bound(Seq::empty()) == 0,
        !(step is Download) ==> download_bound(steps.push(step)) == download_bound(steps),
        step is Download && step->Download_size_kib < 0x3F_FFFF_FFFF_FFFF ==> download_bound(
            steps.push(step),
        ) == download_bound(steps) + step->Download_size_kib * 1024 + 1023,
{
    assert(steps.push(step).drop_last() =~= steps);
}

/// The kind of every file goes by its folder.
pub open spec fn kind_goes_by_folder(f: FileEntryView) -> bool {
    &&& f.folder == Folder::Event <==> f.kind == MediaKind::Photo
    &&& f.folder == Folder::Aac <==> f.kind == MediaKind::VoiceRecording
    &&& f.folder == Folder::Loop <==> f.kind == MediaKind::VideoClip
    &&& f.folder == Folder::Emr <==> f.kind == MediaKind::Emergency
}

/// A row that parses is a photo in the photo folder, a voice recording in the voice folder, a video
/// clip in the video folder and an emergency clip in the emergency folder, and nothing else.
pub proof fn lemma_a_rows_kind_goes_by_its_folder(row: json::Json, folder: Folder)
    ensures
        entry_of(row, folder) matches Ok(f) ==> kind_goes_by_folder(f),
{
}

/// In a listing that parses, the kind of every row goes by its folder.
pub proof fn lemma_every_kind_goes_by_its_folder(body: Seq<u8>, i: int, j: int)
    ensures
        list_of(body) matches Ok(list) ==> 0 <= i < list.folders.len() && 0 <= j
            < list.folders[i].files.len() ==> kind_goes_by_folder(list.folders[i].files[j]),
{
    if let Ok(list) = list_of(body) {
        if 0 <= i < list.folders.len() && 0 <= j < list.folders[i].files.len() {
            let o = json::document(body)->Ok_0->Object_0;
            let items = required_array(o, "info"@)->Ok_0;
            lemma_folders_keep_their_order(items);
            let item = items[i];
            let files = required_array(item->Object_0, "files"@)->Ok_0;
            lemma_rows_keep_their_order(files, list.folders[i].folder);
            lemma_a_rows_kind_goes_by_its_folder(files[j], list.folders[i].folder);
        }
    }
}

/// The rows of a folder that parses are its array's, one for one and in order, and a row that does
/// not parse is the folder's error, the first one if there are several.
pub proof fn lemma_rows_keep_their_order(items: Seq<json::Json>, folder: Folder)
    ensures
        match entries_of(items, folder) {
            Ok(files) => files.len() == items.len() && forall|i: int|
                0 <= i < items.len() ==> entry_of(#[trigger] items[i], folder) == Ok::<
                    FileEntryView,
                    ParseErrorView,
                >(files[i]),
            Err(e) => exists|i: int|
                {
                    &&& 0 <= i < items.len()
                    &&& entry_of(#[trigger] items[i], folder) == Err::<
                        FileEntryView,
                        ParseErrorView,
                    >(e)
                    &&& forall|k: int| 0 <= k < i ==> entry_of(#[trigger] items[k], folder) is Ok
                },
        },
    decreases items.len(),
{
    if items.len() > 0 {
        let before = items.drop_last();
        let n = before.len() as int;
        lemma_rows_keep_their_order(before, folder);
        assert(items[n] == items.last());
        assert forall|k: int| 0 <= k < n implies #[trigger] items[k] == before[k] by {}
        match entries_of(before, folder) {
            Ok(files) => {
                assert forall|k: int| 0 <= k < n implies entry_of(
                    #[trigger] items[k],
                    folder,
                ) == Ok::<FileEntryView, ParseErrorView>(files[k]) by {
                    assert(before[k] == items[k]);
                }
            },
            Err(e) => {
                let i = choose|i: int|
                    {
                        &&& 0 <= i < before.len()
                        &&& entry_of(#[trigger] before[i], folder) == Err::<
                            FileEntryView,
                            ParseErrorView,
                        >(e)
                        &&& forall|k: int|
                            0 <= k < i ==> entry_of(#[trigger] before[k], folder) is Ok
                    };
                assert(items[i] == before[i]);
                assert forall|k: int| 0 <= k < i implies entry_of(
                    #[trigger] items[k],
                    folder,
                ) is Ok by {
                    assert(before[k] == items[k]);
                }
            },
        }
    }
}

/// The folders of a listing that parses are its array's, one for one and in order, and a folder
/// that does not parse is the listing's error, the first one if there are several.
pub proof fn lemma_folders_keep_their_order(items: Seq<json::Json>)
    ensures
        match folders_of(items) {
            Ok(folders) => folders.len() == items.len() && forall|i: int|
                0 <= i < items.len() ==> folder_of(#[trigger] items[i]) == Ok::<
                    FolderListingView,
                    ParseErrorView,
                >(folders[i]),
            Err(e) => exists|i: int|
                {
                    &&& 0 <= i < items.len()
                    &&& folder_of(#[trigger] items[i]) == Err::<
                        FolderListingView,
                        ParseErrorView,
                    >(e)
                    &&& forall|k: int| 0 <= k < i ==> folder_of(#[trigger] items[k]) is Ok
                },
        },
    decreases items.len(),
{
    if items.len() > 0 {
        let before = items.drop_last();
        let n = before.len() as int;
        lemma_folders_keep_their_order(before);
        assert(items[n] == items.last());
        assert forall|k: int| 0 <= k < n implies #[trigger] items[k] == before[k] by {}
        match folders_of(before) {
            Ok(folders) => {
                assert forall|k: int| 0 <= k < n implies folder_of(#[trigger] items[k]) == Ok::<
                    FolderListingView,
                    ParseErrorView,
                >(folders[k]) by {
                    assert(before[k] == items[k]);
                }
            },
            Err(e) => {
                let i = choose|i: int|
                    {
                        &&& 0 <= i < before.len()
                        &&& folder_of(#[trigger] before[i]) == Err::<
                            FolderListingView,
                            ParseErrorView,
                        >(e)
                        &&& forall|k: int| 0 <= k < i ==> folder_of(#[trigger] before[k]) is Ok
                    };
                assert(items[i] == before[i]);
                assert forall|k: int| 0 <= k < i implies folder_of(#[trigger] items[k]) is Ok by {
                    assert(before[k] == items[k]);
                }
            },
        }
    }
}

/// What a row says: its name, its size in KiB, at least zero, its type or zero without one, when it
/// was made if that can be read, and its folder by its own name, or else the one it is listed under.
pub proof fn lemma_what_a_row_says(
    o: Seq<(Seq<char>, json::Json)>,
    folder: Folder,
    name: Seq<char>,
    size_text: Seq<char>,
    size: int,
)
    requires
        json::field_of(o, "name"@) == Some(json::Json::String(name)),
        json::field_of(o, "size"@) == Some(json::Json::Number(size_text)),
        text::signed_decimal_of(encode_utf8(size_text)) == Some(size),
        i64::MIN <= size <= i64::MAX,
    ensures
        ({
            let r = entry_of(json::Json::Object(o), folder);
            let kind_field = json::field_of(o, "type"@);
            &&& kind_field is None || (kind_field matches Some(json::Json::Number(t))
                && text::signed_decimal_of(encode_utf8(t)) matches Some(n) && i64::MIN <= n
                <= i64::MAX) ==> r is Ok
            &&& r matches Ok(f) ==> {
                &&& f.name == name
                &&& f.size_kib == (if size > 0 {
                    size
                } else {
                    0
                })
                &&& f.folder == (match Folder::of_path(name) {
                    Some(own) => own,
                    None => folder,
                })
                &&& kind_field is None ==> f.raw_type == 0
                &&& kind_field matches Some(json::Json::Number(t)) ==> text::signed_decimal_of(
                    encode_utf8(t),
                ) == Some(f.raw_type as int)
                &&& json::field_of(o, "createtimestr"@) is None ==> f.created is None
                &&& json::field_of(o, "createtimestr"@) matches Some(json::Json::String(s))
                    ==> f.created == Timestamp::written(encode_utf8(s))
            }
        }),
{
}

/// What is no row: no object, no name or no size, or one that is no text or no integer. The field
/// that is wrong is named.
pub proof fn lemma_what_is_no_row(row: json::Json, folder: Folder)
    ensures
        !(row is Object) ==> entry_of(row, folder) == Err::<FileEntryView, _>(
            ParseErrorView::WrongType { field: "files[]"@, expected: "an object"@ },
        ),
        row matches json::Json::Object(o) ==> json::field_of(o, "name"@) is None ==> entry_of(
            row,
            folder,
        ) == Err::<FileEntryView, _>(ParseErrorView::MissingField { field: "name"@ }),
        row matches json::Json::Object(o) ==> json::field_of(o, "name"@) matches Some(v)
            && !(v is String) ==> entry_of(row, folder) == Err::<FileEntryView, _>(
            ParseErrorView::WrongType { field: "name"@, expected: "a string"@ },
        ),
        row matches json::Json::Object(o) ==> json::field_of(o, "name"@) matches Some(v)
            && v is String && json::field_of(o, "size"@) is None ==> entry_of(row, folder) == Err::<
            FileEntryView,
            _,
        >(ParseErrorView::MissingField { field: "size"@ }),
{
}

/// What a folder says: which it is, its rows, and the count that the device gave, at least zero, or
/// zero without one. The count need not be how many rows there are.
pub proof fn lemma_what_a_folder_says(
    o: Seq<(Seq<char>, json::Json)>,
    folder: Folder,
    items: Seq<json::Json>,
    files: Seq<FileEntryView>,
    count_text: Seq<char>,
    count: int,
)
    requires
        json::field_of(o, "folder"@) == Some(json::Json::String(folder.wire_name())),
        json::field_of(o, "files"@) == Some(json::Json::Array(items)),
        files.len() == items.len(),
        forall|i: int|
            0 <= i < items.len() ==> entry_of(#[trigger] items[i], folder) == Ok::<
                FileEntryView,
                ParseErrorView,
            >(files[i]),
    ensures
        json::field_of(o, "count"@) is None ==> folder_of(json::Json::Object(o)) == Ok::<
            FolderListingView,
            ParseErrorView,
        >(FolderListingView { folder, files, count: 0 }),
        json::field_of(o, "count"@) == Some(json::Json::Number(count_text))
            && text::signed_decimal_of(encode_utf8(count_text)) == Some(count) && i64::MIN <= count
            <= i64::MAX ==> folder_of(json::Json::Object(o)) == Ok::<
            FolderListingView,
            ParseErrorView,
        >(
            FolderListingView {
                folder,
                files,
                count: if count > 0 {
                    count as u64
                } else {
                    0
                },
            },
        ),
{
    lemma_folder_name_round_trip(folder);
    lemma_rows_keep_their_order(items, folder);
    match entries_of(items, folder) {
        Ok(read) => {
            assert(read =~= files) by {
                assert forall|i: int| 0 <= i < files.len() implies read[i] == files[i] by {
                    assert(entry_of(items[i], folder) is Ok);
                }
            }
        },
        Err(e) => {
            let i = choose|i: int|
                {
                    &&& 0 <= i < items.len()
                    &&& entry_of(#[trigger] items[i], folder) == Err::<
                        FileEntryView,
                        ParseErrorView,
                    >(e)
                    &&& forall|k: int| 0 <= k < i ==> entry_of(#[trigger] items[k], folder) is Ok
                };
            assert(entry_of(items[i], folder) is Ok);
        },
    }
}

/// What a listing says: the result, and its folders in order.
pub proof fn lemma_what_a_listing_says(
    o: Seq<(Seq<char>, json::Json)>,
    result_text: Seq<char>,
    result: int,
    items: Seq<json::Json>,
    folders: Seq<FolderListingView>,
)
    requires
        json::field_of(o, "result"@) == Some(json::Json::Number(result_text)),
        text::signed_decimal_of(encode_utf8(result_text)) == Some(result),
        i64::MIN <= result <= i64::MAX,
        json::field_of(o, "info"@) == Some(json::Json::Array(items)),
        folders.len() == items.len(),
        forall|i: int|
            0 <= i < items.len() ==> folder_of(#[trigger] items[i]) == Ok::<
                FolderListingView,
                ParseErrorView,
            >(folders[i]),
    ensures
        list_in(json::Json::Object(o)) == Ok::<FileListView, ParseErrorView>(
            FileListView { result: result as i64, folders },
        ),
{
    lemma_folders_keep_their_order(items);
    match folders_of(items) {
        Ok(read) => {
            assert(read =~= folders) by {
                assert forall|i: int| 0 <= i < folders.len() implies read[i] == folders[i] by {
                    assert(folder_of(items[i]) is Ok);
                }
            }
        },
        Err(e) => {
            let i = choose|i: int|
                {
                    &&& 0 <= i < items.len()
                    &&& folder_of(#[trigger] items[i]) == Err::<
                        FolderListingView,
                        ParseErrorView,
                    >(e)
                    &&& forall|k: int| 0 <= k < i ==> folder_of(#[trigger] items[k]) is Ok
                };
            assert(folder_of(items[i]) is Ok);
        },
    }
}

/// What a delete reply says: the result and the text that came with it.
pub proof fn lemma_what_a_delete_reply_says(
    o: Seq<(Seq<char>, json::Json)>,
    result_text: Seq<char>,
    result: int,
    info: Seq<char>,
)
    requires
        json::field_of(o, "result"@) == Some(json::Json::Number(result_text)),
        text::signed_decimal_of(encode_utf8(result_text)) == Some(result),
        i64::MIN <= result <= i64::MAX,
        json::field_of(o, "info"@) == Some(json::Json::String(info)),
    ensures
        delete_reply_in(json::Json::Object(o)) == Ok::<DeleteReplyView, ParseErrorView>(
            DeleteReplyView { result: result as i64, info },
        ),
{
}

/// A reply body is read as JSON, and what is not JSON is no reply.
pub proof fn lemma_a_body_is_its_document(body: Seq<u8>)
    ensures
        match json::document(body) {
            Ok(root) => list_of(body) == list_in(root) && delete_reply_of(body) == delete_reply_in(
                root,
            ),
            Err(e) => list_of(body) == Err::<FileListView, _>(e) && delete_reply_of(body) == Err::<
                DeleteReplyView,
                _,
            >(e),
        },
{
}

/// The four folders by their names; any other name is none.
pub proof fn lemma_the_folders_by_name(name: Seq<char>)
    ensures
        Folder::with_name(name) == Some(Folder::Event) <==> name == "EVENT"@,
        Folder::with_name(name) == Some(Folder::Aac) <==> name == "AAC"@,
        Folder::with_name(name) == Some(Folder::Loop) <==> name == "LOOP"@,
        Folder::with_name(name) == Some(Folder::Emr) <==> name == "EMR"@,
        Folder::Event.holds() == MediaKind::Photo,
        Folder::Aac.holds() == MediaKind::VoiceRecording,
        Folder::Loop.holds() == MediaKind::VideoClip,
        Folder::Emr.holds() == MediaKind::Emergency,
{
    lemma_folder_name_round_trip(Folder::Event);
    lemma_folder_name_round_trip(Folder::Aac);
    lemma_folder_name_round_trip(Folder::Loop);
    lemma_folder_name_round_trip(Folder::Emr);
}

/// A path names the folder that its first part is, behind any slashes that it begins with. Its last
/// part is the file's own name.
pub proof fn lemma_the_parts_of_a_path(slashes: nat, first: Seq<char>, rest: Seq<char>)
    requires
        forall|i: int| 0 <= i < first.len() ==> #[trigger] first[i] != '/',
        first.len() > 0,
    ensures
        ({
            let front = Seq::new(slashes, |i: int| '/');
            let path = front + first + seq!['/'] + rest;
            &&& Folder::of_path(path) == Folder::with_name(first)
            &&& Folder::of_path(front + first) == Folder::with_name(first)
            &&& trim_slashes(path) == first + seq!['/'] + rest
            &&& last_segment(rest + seq!['/'] + first) == first
            &&& last_segment(first) == first
        }),
{
    let front = Seq::new(slashes, |i: int| '/');
    let path = front + first + seq!['/'] + rest;
    let inner = first + seq!['/'] + rest;
    lemma_slashes_come_off(slashes, inner);
    assert(path =~= front + inner);
    lemma_first_part(first, seq!['/'] + rest);
    assert(first + (seq!['/'] + rest) =~= inner);
    lemma_slashes_come_off(slashes, first);
    lemma_first_part(first, Seq::empty());
    assert(first + Seq::<char>::empty() =~= first);
    lemma_last_part(rest + seq!['/'], first);
    lemma_last_part(Seq::empty(), first);
    assert(Seq::<char>::empty() + first =~= first);
}

proof fn lemma_slashes_come_off(slashes: nat, s: Seq<char>)
    requires
        s.len() > 0 ==> s[0] != '/',
    ensures
        trim_slashes(Seq::new(slashes, |i: int| '/') + s) == s,
    decreases slashes,
{
    let all = Seq::new(slashes, |i: int| '/') + s;
    if slashes == 0 {
        assert(all =~= s);
    } else {
        lemma_slashes_come_off((slashes - 1) as nat, s);
        assert(all.drop_first() =~= Seq::new((slashes - 1) as nat, |i: int| '/') + s);
    }
}

proof fn lemma_first_part(first: Seq<char>, rest: Seq<char>)
    requires
        forall|i: int| 0 <= i < first.len() ==> #[trigger] first[i] != '/',
        rest.len() > 0 ==> rest[0] == '/',
    ensures
        first_segment(first + rest) == first,
    decreases first.len(),
{
    let all = first + rest;
    if first.len() == 0 {
        assert(all =~= rest);
    } else {
        let later = first.drop_first();
        assert(first[0] != '/');
        assert forall|i: int| 0 <= i < later.len() implies #[trigger] later[i] != '/' by {
            assert(later[i] == first[i + 1]);
        }
        lemma_first_part(later, rest);
        assert(all.drop_first() =~= later + rest);
        assert(seq![first[0]] + later =~= first);
    }
}

proof fn lemma_last_part(front: Seq<char>, last: Seq<char>)
    requires
        forall|i: int| 0 <= i < last.len() ==> #[trigger] last[i] != '/',
        front.len() > 0 ==> front.last() == '/',
    ensures
        last_segment(front + last) == last,
    decreases last.len(),
{
    let all = front + last;
    if last.len() == 0 {
        assert(all =~= front);
    } else {
        let earlier = last.drop_last();
        assert(last[last.len() - 1] != '/');
        assert forall|i: int| 0 <= i < earlier.len() implies #[trigger] earlier[i] != '/' by {
            assert(earlier[i] == last[i]);
        }
        lemma_last_part(front, earlier);
        assert(all.drop_last() =~= front + earlier);
        assert(earlier.push(last.last()) =~= last);
    }
}

/// The bytes that stand for themselves in a URL: letters, digits, and the five signs that need no
/// escape in a path.
pub proof fn lemma_what_stands_for_itself(c: u8)
    ensures
        left_alone(c) <==> {
            ||| 'A' as u8 <= c <= 'Z' as u8
            ||| 'a' as u8 <= c <= 'z' as u8
            ||| '0' as u8 <= c <= '9' as u8
            ||| c == '-' as u8 || c == '.' as u8 || c == '_' as u8 || c == '~' as u8
            ||| c == '/' as u8
        },
{
}

/// The number that a hexadecimal digit of a URL stands for.
pub open spec fn hex_weight(c: char) -> int {
    if '0' <= c <= '9' {
        c as u32 - 0x30
    } else {
        c as u32 - 0x41 + 10
    }
}

/// Percent-encoding goes byte by byte: a byte that stands for itself is its character, and any
/// other a percent sign and two upper-case hexadecimal digits that weigh the byte.
pub proof fn lemma_percent_encoding_goes_by_byte(b: Seq<u8>, c: u8)
    ensures
        percent_encoded(Seq::empty()) == Seq::<char>::empty(),
        left_alone(c) ==> percent_encoded(b.push(c)) == percent_encoded(b).push(c as char),
        !left_alone(c) ==> ({
            let more = percent_encoded(b.push(c));
            let n = percent_encoded(b).len() as int;
            &&& more.len() == n + 3
            &&& more.take(n) == percent_encoded(b)
            &&& more[n] == '%'
            &&& '0' <= more[n + 1] <= '9' || 'A' <= more[n + 1] <= 'F'
            &&& '0' <= more[n + 2] <= '9' || 'A' <= more[n + 2] <= 'F'
            &&& hex_weight(more[n + 1]) * 16 + hex_weight(more[n + 2]) == c
        }),
{
    assert(b.push(c).drop_last() =~= b);
    let more = percent_encoded(b.push(c));
    if left_alone(c) {
        assert(more =~= percent_encoded(b).push(c as char));
    } else {
        assert(more.take(percent_encoded(b).len() as int) =~= percent_encoded(b));
    }
}

/// The addresses of a file: the scheme, the host and the path, with the name percent-encoded, as
/// the argument of a request or, without the slashes it begins with, as the path itself.
pub proof fn lemma_the_addresses_of_a_file(host: Seq<char>, path: Seq<char>, name: Seq<char>)
    ensures
        base_of(host) == "http://"@ + host,
        query_url(host, path, name) == "http://"@ + host + path + "?file="@ + percent_encoded(
            encode_utf8(name),
        ),
        download_path_of(name) == "/"@ + percent_encoded(encode_utf8(trim_slashes(name))),
{
}

/// The digit of a number at a place.
pub open spec fn decimal_digit(n: int, weight: int) -> char {
    (0x30 + n / weight % 10) as char
}

/// A timestamp is written as four digits of the year and two each of the month, the day, the hour,
/// the minute and the second, with nothing between them.
#[verifier::spinoff_prover]
#[verifier::rlimit(60)]
pub proof fn lemma_how_a_timestamp_is_written(t: Timestamp)
    requires
        t.in_range(),
        t.year <= 9999,
    ensures
        t.compact() == seq![
            decimal_digit(t.year as int, 1000),
            decimal_digit(t.year as int, 100),
            decimal_digit(t.year as int, 10),
            decimal_digit(t.year as int, 1),
            decimal_digit(t.month as int, 10),
            decimal_digit(t.month as int, 1),
            decimal_digit(t.day as int, 10),
            decimal_digit(t.day as int, 1),
            decimal_digit(t.hour as int, 10),
            decimal_digit(t.hour as int, 1),
            decimal_digit(t.minute as int, 10),
            decimal_digit(t.minute as int, 1),
            decimal_digit(t.second as int, 10),
            decimal_digit(t.second as int, 1),
        ],
{
    lemma_compact_digits(t);
    let digits = digits_of(t);
    assert(t.compact() == digits.map_values(|d: int| text::digit_char(d)));
    assert(t.compact() =~= seq![
        decimal_digit(t.year as int, 1000),
        decimal_digit(t.year as int, 100),
        decimal_digit(t.year as int, 10),
        decimal_digit(t.year as int, 1),
        decimal_digit(t.month as int, 10),
        decimal_digit(t.month as int, 1),
        decimal_digit(t.day as int, 10),
        decimal_digit(t.day as int, 1),
        decimal_digit(t.hour as int, 10),
        decimal_digit(t.hour as int, 1),
        decimal_digit(t.minute as int, 10),
        decimal_digit(t.minute as int, 1),
        decimal_digit(t.second as int, 10),
        decimal_digit(t.second as int, 1),
    ]);
}

/// A timestamp is shown as it is written, with dashes in the date, colons in the time and a blank
/// between them.
#[verifier::spinoff_prover]
#[verifier::rlimit(60)]
pub proof fn lemma_how_a_timestamp_is_shown(t: Timestamp)
    requires
        t.in_range(),
        t.year <= 9999,
    ensures
        t.rendered() == t.compact().subrange(0, 4) + "-"@ + t.compact().subrange(4, 6) + "-"@
            + t.compact().subrange(6, 8) + " "@ + t.compact().subrange(8, 10) + ":"@
            + t.compact().subrange(10, 12) + ":"@ + t.compact().subrange(12, 14),
{
    let y = text::padded_text(t.year as int, 4);
    let mo = text::padded_text(t.month as int, 2);
    let d = text::padded_text(t.day as int, 2);
    let h = text::padded_text(t.hour as int, 2);
    let mi = text::padded_text(t.minute as int, 2);
    let se = text::padded_text(t.second as int, 2);
    assert(y.len() == 4 && mo.len() == 2 && d.len() == 2 && h.len() == 2 && mi.len() == 2
        && se.len() == 2) by {
        text::lemma_padded_digits(t.year as int);
        text::lemma_padded_digits(t.month as int);
        text::lemma_padded_digits(t.day as int);
        text::lemma_padded_digits(t.hour as int);
        text::lemma_padded_digits(t.minute as int);
        text::lemma_padded_digits(t.second as int);
    }
    let c = y + mo + d + h + mi + se;
    assert(c.subrange(0, 4) =~= y);
    assert(c.subrange(4, 6) =~= mo);
    assert(c.subrange(6, 8) =~= d);
    assert(c.subrange(8, 10) =~= h);
    assert(c.subrange(10, 12) =~= mi);
    assert(c.subrange(12, 14) =~= se);
}

/// Fourteen digits are a timestamp exactly when they make a month from 1 to 12, a day from 1 to 31,
/// an hour up to 23, a minute up to 59 and a second up to 60. Anything else is none.
pub proof fn lemma_what_is_a_timestamp(b: Seq<u8>)
    ensures
        b.len() != 14 ==> Timestamp::written(b) is None,
        b.len() == 14 && (exists|i: int|
            0 <= i < 14 && (#[trigger] b[i] < 0x30 || b[i] > 0x39)) ==> Timestamp::written(
            b,
        ) is None,
        b.len() == 14 && (forall|i: int| 0 <= i < 14 ==> 0x30 <= #[trigger] b[i] <= 0x39) ==> ({
            let year = (b[0] - 0x30) * 1000 + (b[1] - 0x30) * 100 + (b[2] - 0x30) * 10 + (b[3]
                - 0x30);
            let month = (b[4] - 0x30) * 10 + (b[5] - 0x30);
            let day = (b[6] - 0x30) * 10 + (b[7] - 0x30);
            let hour = (b[8] - 0x30) * 10 + (b[9] - 0x30);
            let minute = (b[10] - 0x30) * 10 + (b[11] - 0x30);
            let second = (b[12] - 0x30) * 10 + (b[13] - 0x30);
            Timestamp::written(b) == if 1 <= month <= 12 && 1 <= day <= 31 && hour <= 23 && minute
                <= 59 && second <= 60 {
                Some(
                    Timestamp {
                        year: year as u16,
                        month: month as u8,
                        day: day as u8,
                        hour: hour as u8,
                        minute: minute as u8,
                        second: second as u8,
                    },
                )
            } else {
                None
            }
        }),
{
    if b.len() == 14 {
        lemma_two_digits_at(b, 0);
        lemma_two_digits_at(b, 2);
        lemma_two_digits_at(b, 4);
        lemma_two_digits_at(b, 6);
        lemma_two_digits_at(b, 8);
        lemma_two_digits_at(b, 10);
        lemma_two_digits_at(b, 12);
        lemma_four_digits_at(b);
        if exists|i: int| 0 <= i < 14 && (#[trigger] b[i] < 0x30 || b[i] > 0x39) {
            let i = choose|i: int| 0 <= i < 14 && (#[trigger] b[i] < 0x30 || b[i] > 0x39);
            if i < 4 {
                assert(digits_at(b, 0, 4) is None);
            }
        }
    }
}

proof fn lemma_two_digits_at(b: Seq<u8>, at: int)
    requires
        0 <= at,
        at + 2 <= b.len(),
    ensures
        digits_at(b, at, at + 2) == (if 0x30 <= b[at] <= 0x39 && 0x30 <= b[at + 1] <= 0x39 {
            Some((b[at] - 0x30) * 10 + (b[at + 1] - 0x30))
        } else {
            None
        }),
{
    let s = b.subrange(at, at + 2);
    reveal_with_fuel(text::decimal_of, 3);
    assert(s.drop_last().drop_last() =~= Seq::empty());
    assert(s.last() == b[at + 1]);
    assert(s.drop_last().last() == b[at]);
}

proof fn lemma_four_digits_at(b: Seq<u8>)
    requires
        b.len() >= 4,
    ensures
        digits_at(b, 0, 4) == (if (forall|i: int|
            0 <= i < 4 ==> 0x30 <= #[trigger] b[i] <= 0x39) {
            Some(
                (b[0] - 0x30) * 1000 + (b[1] - 0x30) * 100 + (b[2] - 0x30) * 10 + (b[3] - 0x30),
            )
        } else {
            None
        }),
{
    let s = b.subrange(0, 4);
    reveal_with_fuel(text::decimal_of, 5);
    let three = s.drop_last();
    let two = three.drop_last();
    let one = two.drop_last();
    assert(one.drop_last() =~= Seq::empty());
    assert(s.last() == b[3]);
    assert(three.last() == b[2]);
    assert(two.last() == b[1]);
    assert(one.last() == b[0]);
}

/// The bytes of a file of so many KiB: from 1024 times as many up to one less than 1024 more, as
/// far as 64 bits count.
pub proof fn lemma_the_bytes_of_a_size(size_kib: u64)
    ensures
        least_bytes(size_kib) == (if size_kib * 1024 <= u64::MAX {
            size_kib * 1024
        } else {
            u64::MAX as int
        }),
        most_bytes(size_kib) == (if least_bytes(size_kib) + 1023 <= u64::MAX {
            least_bytes(size_kib) + 1023
        } else {
            u64::MAX as int
        }),
{
}

/// A listing, its folders and its rows show what they carry.
pub proof fn lemma_what_a_listing_shows(
    list: FileList,
    folder: FolderListing,
    f: FileEntry,
    reply: DeleteReply,
    i: int,
)
    ensures
        f@.name == f.name@,
        f@.folder == f.folder,
        f@.size_kib == f.size_kib,
        f@.created == f.created,
        f@.kind == f.kind,
        f@.raw_type == f.raw_type,
        folder@.folder == folder.folder,
        folder@.count == folder.count,
        folder@.files.len() == folder.files@.len(),
        0 <= i < folder.files@.len() ==> folder@.files[i] == folder.files@[i]@,
        list@.result == list.result,
        list@.folders.len() == list.folders@.len(),
        0 <= i < list.folders@.len() ==> list@.folders[i] == list.folders@[i]@,
        reply@.result == reply.result,
        reply@.info == reply.info@,
{
}

// ---- what the operations give back -----------------------------------------------------------

/// Asked for all its files, a listing gives the rows of all its folders, one folder after the
/// other, and says that it has as many.
pub proof fn lemma_what_a_listing_gives_back(
    list: FileList,
    files: Vec<&FileEntry>,
    n: usize,
    empty: bool,
    i: int,
)
    ensures
        ({
            let all = list.folders@.map_values(|f: FolderListing| f.files@).flatten();
            &&& call_ensures(FileList::all_files, (&list,), files) ==> files@.len() == all.len()
            &&& call_ensures(FileList::all_files, (&list,), files) && 0 <= i < files@.len()
                ==> *files@[i] == all[i]
            &&& call_ensures(FileList::total_files, (&list,), n) && all.len() <= usize::MAX ==> n
                == all.len()
            &&& call_ensures(FileList::is_empty, (&list,), empty) ==> empty == (all.len() == 0)
        }),
{
    lemma_all_files_are_every_folders_rows(list.folders@);
}

/// A file is found by its name, the first of that name in listing order, and only by its name.
pub proof fn lemma_what_is_found(list: FileList, name: &str, r: Option<&FileEntry>, i: int)
    ensures
        ({
            let all = list.folders@.map_values(|f: FolderListing| f.files@).flatten();
            &&& call_ensures(FileList::find, (&list, name), r) && 0 <= i < all.len()
                && all[i].name@ == name@ && (forall|k: int|
                0 <= k < i ==> (#[trigger] all[k]).name@ != name@) ==> r is Some && *r->Some_0
                == all[i]
            &&& call_ensures(FileList::find, (&list, name), r) && (forall|k: int|
                0 <= k < all.len() ==> (#[trigger] all[k]).name@ != name@) ==> r is None
        }),
{
    lemma_all_files_are_every_folders_rows(list.folders@);
    let all = list.folders@.map_values(|f: FolderListing| f.files@).flatten();
    if call_ensures(FileList::find, (&list, name), r) {
        if 0 <= i < all.len() && all[i].name@ == name@ && (forall|k: int|
            0 <= k < i ==> (#[trigger] all[k]).name@ != name@) {
            assert(rows(list.folders@)[i].name@ == name@);
            if let Some(f) = r {
                let at = choose|at: int|
                    {
                        &&& 0 <= at < rows(list.folders@).len()
                        &&& *f == #[trigger] rows(list.folders@)[at]
                        &&& f.name@ == name@
                        &&& forall|k: int|
                            0 <= k < at ==> (#[trigger] rows(list.folders@)[k]).name@ != name@
                    };
                assert(all[at].name@ == name@);
                assert(at == i);
            }
        }
    }
}

/// In what is parsed, the kind of every file goes by its folder, and the two ways of parsing a
/// listing agree.
pub proof fn lemma_what_is_parsed_goes_by_its_folder(
    body: &str,
    r: Result<FileList, ParseError>,
    i: int,
    j: int,
)
    ensures
        (call_ensures(parse_file_list, (body,), r) || call_ensures(FileList::parse, (body,), r))
            && r is Ok && 0 <= i < r->Ok_0.folders@.len() && 0 <= j
            < r->Ok_0.folders@[i].files@.len() ==> {
            let f = r->Ok_0.folders@[i].files@[j];
            match f.folder {
                Folder::Event => f.kind == MediaKind::Photo,
                Folder::Aac => f.kind == MediaKind::VoiceRecording,
                Folder::Loop => f.kind == MediaKind::VideoClip,
                Folder::Emr => f.kind == MediaKind::Emergency,
            }
        },
{
    let b = encode_utf8(body@);
    lemma_every_kind_goes_by_its_folder(b, i, j);
    if (call_ensures(parse_file_list, (body,), r) || call_ensures(FileList::parse, (body,), r))
        && r is Ok && 0 <= i < r->Ok_0.folders@.len() && 0 <= j
        < r->Ok_0.folders@[i].files@.len() {
        let list = r->Ok_0;
        assert(list_of(b) == Ok::<FileListView, ParseErrorView>(list@));
        assert(list@.folders[i] == list.folders@[i]@);
        assert(list@.folders[i].files[j] == list.folders@[i].files@[j]@);
    }
}

/// The addresses that are given: the scheme, the host, the path of the request and the name,
/// percent-encoded, on the glasses' own host where none is named.
pub proof fn lemma_the_addresses_given(host: &str, name: &str, url: String)
    ensures
        call_ensures(base_url, (host,), url) ==> url@ == "http://"@ + host@,
        call_ensures(list_url, (), url) ==> url@ == "http://192.168.169.1"@ + "/app/getfilelist"@,
        call_ensures(list_url_on, (host,), url) ==> url@ == "http://"@ + host@
            + "/app/getfilelist"@,
        call_ensures(thumbnail_url, (name,), url) ==> url@ == "http://"@ + "192.168.169.1"@
            + "/app/getthumbnail"@ + "?file="@ + percent_encoded(encode_utf8(name@)),
        call_ensures(thumbnail_url_on, (host, name), url) ==> url@ == "http://"@ + host@
            + "/app/getthumbnail"@ + "?file="@ + percent_encoded(encode_utf8(name@)),
        call_ensures(download_url, (name,), url) ==> url@ == "http://"@ + "192.168.169.1"@ + ("/"@
            + percent_encoded(encode_utf8(trim_slashes(name@)))),
        call_ensures(download_url_on, (host, name), url) ==> url@ == "http://"@ + host@ + ("/"@
            + percent_encoded(encode_utf8(trim_slashes(name@)))),
        call_ensures(delete_url, (name,), url) ==> url@ == "http://"@ + "192.168.169.1"@
            + "/app/deletefile"@ + "?file="@ + percent_encoded(encode_utf8(name@)),
        call_ensures(delete_url_on, (host, name), url) ==> url@ == "http://"@ + host@
            + "/app/deletefile"@ + "?file="@ + percent_encoded(encode_utf8(name@)),
{
}

/// A download is whole if its bytes, in whole kibibytes, are the size that was listed.
pub proof fn lemma_when_a_given_download_is_whole(
    size_kib: u64,
    bytes: u64,
    f: FileEntry,
    b: bool,
    r: RangeInclusive<u64>,
)
    requires
        size_kib < 0x3F_FFFF_FFFF_FFFF,
    ensures
        call_ensures(download_is_complete, (size_kib, bytes), b) ==> b == (bytes / 1024
            == size_kib),
        call_ensures(FileEntry::download_is_complete, (&f, bytes), b) && f.size_kib == size_kib
            ==> b == (bytes / 1024 == size_kib),
        call_ensures(expected_byte_range, (size_kib,), r) ==> (r@.start <= bytes <= r@.end) == (
        bytes / 1024 == size_kib),
        call_ensures(FileEntry::expected_byte_range, (&f,), r) && f.size_kib == size_kib ==> (
        r@.start <= bytes <= r@.end) == (bytes / 1024 == size_kib),
{
}

/// A cold start asks for the listing first, and a full plan does so before anything else.
pub proof fn lemma_a_plan_from_cold_lists_first(list: FileList, delete_after: bool, plan: SyncPlan)
    ensures
        call_ensures(SyncPlan::from_cold, (), plan) ==> plan@ == seq![SyncStep::List],
        call_ensures(SyncPlan::full, (&list, delete_after), plan) ==> plan@.len() > 0 && plan@[0]
            == SyncStep::List && plan@.skip(1) == plan_for(
            list.folders@.map_values(|f: FolderListing| f.files@).flatten(),
            delete_after,
        ),
        call_ensures(SyncPlan::for_list, (&list, delete_after), plan) ==> plan@ == plan_for(
            list.folders@.map_values(|f: FolderListing| f.files@).flatten(),
            delete_after,
        ),
{
    lemma_all_files_are_every_folders_rows(list.folders@);
    if call_ensures(SyncPlan::full, (&list, delete_after), plan) {
        assert(plan@.skip(1) =~= plan_for(rows(list.folders@), delete_after));
    }
}

/// A deletion succeeded if its result is zero, and both ways of parsing the reply give the result
/// that the body holds.
pub proof fn lemma_what_a_parsed_delete_reply_says(
    body: &str,
    r: Result<DeleteReply, ParseError>,
    reply: DeleteReply,
    b: bool,
)
    ensures
        call_ensures(DeleteReply::is_success, (&reply,), b) ==> b == (reply.result == 0),
        call_ensures(parse_delete_reply, (body,), r) || call_ensures(
            DeleteReply::parse,
            (body,),
            r,
        ) ==> (r is Ok <==> delete_reply_of(encode_utf8(body@)) is Ok) && (r matches Ok(given)
            ==> given@ == delete_reply_of(encode_utf8(body@))->Ok_0) && (r matches Err(e) ==> e@
            == delete_reply_of(encode_utf8(body@))->Err_0),
{
}

/// What an error reads as: what is wrong, and where or with which field.
pub proof fn lemma_what_an_error_reads_as(e: ParseError, s: String)
    ensures
        call_ensures(ParseError::to_string, (&e,), s) ==> match e {
            ParseError::NotJson { at } => s@ == "not JSON, at byte "@ + text::decimal_text(
                at as int,
            ),
            ParseError::Truncated => s@ == "JSON ended early"@,
            ParseError::TrailingBytes { at } => s@ == "trailing bytes at "@ + text::decimal_text(
                at as int,
            ),
            ParseError::TooDeep => s@ == "nested deeper than "@ + text::decimal_text(32),
            ParseError::MissingField { field } => s@ == "missing field `"@ + field@ + "`"@,
            ParseError::WrongType { field, expected } => s@ == "field `"@ + field@ + "` is not "@
                + expected@,
            ParseError::BadNumber { field } => s@ == "field `"@ + field@ + "` is not an integer"@,
            ParseError::UnknownFolder { folder } => s@ == "unknown folder `"@ + folder@ + "`"@,
        },
{
}

} // verus!

//! Text helpers: the parts of std's strings that the parsers need.
use vstd::prelude::*;
use vstd::utf8::*;

verus! {

/// `String::push` appends one character.
pub assume_specification[ std::string::String::push ](s: &mut std::string::String, c: char)
    ensures
        final(s)@ == old(s)@.push(c),
;

/// `std::char::from_u32` gives the character with this number, for every number that is a Unicode
/// scalar value, and nothing for the others.
pub assume_specification[ std::char::from_u32 ](i: u32) -> (r: Option<char>)
    ensures
        r is Some <==> (i < 0xD800 || 0xE000 <= i <= 0x10FFFF),
        r is Some ==> r->Some_0 as u32 == i,
;

/// The error of `std::str::from_utf8`, of which nothing is said.
#[verifier::external_type_specification]
#[verifier::external_body]
pub struct ExUtf8Error(std::str::Utf8Error);

/// `std::str::from_utf8` succeeds exactly on valid UTF-8, and gives the text these bytes encode.
pub assume_specification[ std::str::from_utf8 ](v: &[u8]) -> (r: Result<&str, std::str::Utf8Error>)
    ensures
        r is Ok <==> valid_utf8(v@),
        r is Ok ==> r->Ok_0@ == decode_utf8(v@),
;

/// The text that `String::from_utf8_lossy` makes of bytes.
pub uninterp spec fn lossy_text(bytes: Seq<u8>) -> Seq<char>;

/// `String::from_utf8_lossy`: valid UTF-8 gives the text it encodes. Of other bytes it is only said
/// that the same ones always give the same text.
#[verifier::external_body]
pub(crate) fn lossy(bytes: &[u8]) -> (s: String)
    ensures
        s@ == lossy_text(bytes@),
        valid_utf8(bytes@) ==> s@ == decode_utf8(bytes@),
{
    String::from_utf8_lossy(bytes).into_owned()
}

/// Bytes of ASCII text as characters.
pub open spec fn ascii_text(s: Seq<u8>) -> Seq<char> {
    s.map_values(|c: u8| c as char)
}

/// The text of ASCII bytes.
pub fn ascii_string(s: &[u8]) -> (out: String)
    ensures
        out@ == ascii_text(s@),
{
    let mut out: String = String::new();
    assert(out@ =~= ascii_text(s@.take(0)));
    for i in 0..s.len()
        invariant
            out@ == ascii_text(s@.take(i as int)),
    {
        out.push(s[i] as char);
        assert(out@ =~= ascii_text(s@.take(i + 1)));
    }
    assert(s@.take(s@.len() as int) =~= s@);
    out
}

/// Whether two texts are the same.
pub fn same_text(a: &str, b: &str) -> (same: bool)
    ensures
        same == (a@ == b@),
{
    let x = a.as_bytes();
    let y = b.as_bytes();
    proof {
        // Text is determined by its encoding.
        encode_utf8_decode_utf8(a@);
        encode_utf8_decode_utf8(b@);
    }
    same_bytes(x, y)
}

/// Whether two byte strings are the same.
pub fn same_bytes(a: &[u8], b: &[u8]) -> (same: bool)
    ensures
        same == (a@ == b@),
{
    if a.len() != b.len() {
        return false;
    }
    for i in 0..a.len()
        invariant
            a.len() == b.len(),
            forall|j: int| 0 <= j < i ==> a@[j] == b@[j],
    {
        if a[i] != b[i] {
            return false;
        }
    }
    assert(a@ =~= b@);
    true
}

/// The value of decimal digits, most significant first; nothing if a byte is no digit.
pub open spec fn decimal_of(s: Seq<u8>) -> Option<int>
    decreases s.len(),
{
    if s.len() == 0 {
        Some(0)
    } else if !(0x30 <= s.last() <= 0x39) {
        None
    } else {
        match decimal_of(s.drop_last()) {
            Some(high) => Some(high * 10 + (s.last() - 0x30)),
            None => None,
        }
    }
}

/// The first digits of a number stand for a number that is no larger.
pub proof fn lemma_decimal_prefix(s: Seq<u8>, n: int)
    requires
        0 <= n <= s.len(),
    ensures
        match (decimal_of(s), decimal_of(s.take(n))) {
            (Some(all), Some(part)) => 0 <= part <= all,
            (Some(_), None) => false,
            (None, _) => true,
        },
    decreases s.len(),
{
    if n == s.len() {
        assert(s.take(n) =~= s);
        if s.len() > 0 {
            lemma_decimal_prefix(s.drop_last(), s.len() - 1);
            assert(s.drop_last().take(s.len() - 1) =~= s.drop_last());
        }
    } else {
        lemma_decimal_prefix(s.drop_last(), n);
        assert(s.drop_last().take(n) =~= s.take(n));
    }
}

/// An optional sign and at least one digit.
pub open spec fn signed_decimal_of(s: Seq<u8>) -> Option<int> {
    let signed = s.len() > 0 && (s[0] == 0x2D || s[0] == 0x2B);
    let digits = if signed {
        s.skip(1)
    } else {
        s
    };
    if digits.len() == 0 {
        None
    } else {
        match decimal_of(digits) {
            Some(v) => Some(
                if signed && s[0] == 0x2D {
                    -v
                } else {
                    v
                },
            ),
            None => None,
        }
    }
}

/// Reads an integer that a signed 64-bit number can hold.
pub fn parse_i64(s: &[u8]) -> (r: Option<i64>)
    ensures
        match r {
            Some(v) => signed_decimal_of(s@) == Some(v as int),
            None => match signed_decimal_of(s@) {
                Some(v) => v < i64::MIN || v > i64::MAX,
                None => true,
            },
        },
{
    let negative: bool = s.len() > 0 && s[0] == 0x2D;
    let from: usize = if s.len() > 0 && (s[0] == 0x2D || s[0] == 0x2B) {
        1
    } else {
        0
    };
    let ghost digits = s@.skip(from as int);
    assert(from == 0 ==> digits =~= s@);
    if from >= s.len() {
        return None;
    }
    let limit: u64 = 0x8000_0000_0000_0000;
    let mut n: u64 = 0;
    assert(digits.take(0) =~= Seq::empty());
    for i in from..s.len()
        invariant
            from <= 1,
            from < s.len(),
            limit == 0x8000_0000_0000_0000,
            digits == s@.skip(from as int),
            (from == 0 ==> digits == s@),
            (from == 1) == (s@[0] == 0x2D || s@[0] == 0x2B),
            negative == (s@[0] == 0x2D),
            decimal_of(digits.take(i - from)) == Some(n as int),
            n <= limit,
    {
        proof {
            assert(digits.take(i + 1 - from).drop_last() =~= digits.take(i - from));
            lemma_decimal_prefix(digits, i + 1 - from);
        }
        let c: u8 = s[i];
        if c < 0x30 || c > 0x39 {
            return None;
        }
        let d: u64 = (c - 0x30) as u64;
        if n > (limit - d) / 10 {
            return None;
        }
        n = n * 10 + d;
    }
    assert(digits.take(s@.len() - from) =~= digits);
    if negative {
        if n == limit {
            Some(i64::MIN)
        } else {
            Some(-(n as i64))
        }
    } else if n == limit {
        None
    } else {
        Some(n as i64)
    }
}

/// The character of one decimal digit.
pub open spec fn digit_char(d: int) -> char {
    (0x30 + d) as char
}

/// A number in decimal.
pub open spec fn decimal_text(n: int) -> Seq<char>
    decreases n,
{
    if n < 10 {
        seq![digit_char(n)]
    } else {
        decimal_text(n / 10).push(digit_char(n % 10))
    }
}

/// A number in decimal, with zeros in front where it is shorter than `width`.
pub open spec fn padded_text(n: int, width: int) -> Seq<char> {
    let digits = decimal_text(n);
    if digits.len() < width {
        Seq::new((width - digits.len()) as nat, |i: int| '0') + digits
    } else {
        digits
    }
}

/// Appends one decimal digit.
fn push_digit(out: &mut String, d: u8)
    requires
        d < 10,
    ensures
        final(out)@ == old(out)@.push(digit_char(d as int)),
{
    out.push((0x30 + d) as char);
}

/// Appends a number in decimal.
pub fn push_decimal(out: &mut String, n: u64)
    ensures
        final(out)@ == old(out)@ + decimal_text(n as int),
    decreases n,
{
    if n >= 10 {
        push_decimal(out, n / 10);
    }
    push_digit(out, (n % 10) as u8);
    assert(out@ =~= old(out)@ + decimal_text(n as int));
}

/// Appends a number in decimal, with zeros in front where it is shorter than `width`.
pub fn push_padded(out: &mut String, n: u64, width: usize)
    ensures
        final(out)@ == old(out)@ + padded_text(n as int, width as int),
{
    let mut digits: String = String::new();
    push_decimal(&mut digits, n);
    assert(digits@ =~= decimal_text(n as int));
    let len: usize = digits.as_str().unicode_len();
    let ghost before = out@;
    let mut k: usize = len;
    assert(out@ =~= before + Seq::new(0, |i: int| '0'));
    while k < width
        invariant
            len <= k,
            len < width ==> k <= width,
            len >= width ==> k == len,
            out@ == before + Seq::new((k - len) as nat, |i: int| '0'),
        decreases width - k,
    {
        out.push('0');
        k = k + 1;
        assert(out@ =~= before + Seq::new((k - len) as nat, |i: int| '0'));
    }
    out.append(digits.as_str());
    assert(out@ =~= before + padded_text(n as int, width as int));
}

/// A number below 100 in two digits, and one below 10000 in four.
pub proof fn lemma_padded_digits(n: int)
    requires
        0 <= n,
    ensures
        n < 100 ==> padded_text(n, 2) == seq![digit_char(n / 10), digit_char(n % 10)],
        n < 10000 ==> padded_text(n, 4) == seq![
            digit_char(n / 1000),
            digit_char(n / 100 % 10),
            digit_char(n / 10 % 10),
            digit_char(n % 10),
        ],
{
    reveal_with_fuel(decimal_text, 4);
    if n < 100 {
        assert(padded_text(n, 2) =~= seq![digit_char(n / 10), digit_char(n % 10)]);
    }
    if n < 10000 {
        assert(n / 10 / 10 == n / 100);
        assert(n / 100 / 10 == n / 1000);
        assert(padded_text(n, 4) =~= seq![
            digit_char(n / 1000),
            digit_char(n / 100 % 10),
            digit_char(n / 10 % 10),
            digit_char(n % 10),
        ]);
    }
}

/// Unicode's `White_Space` characters.
pub open spec fn is_white_space(c: char) -> bool {
    let n = c as u32;
    ||| 0x9 <= n <= 0xD
    ||| n == 0x20
    ||| n == 0x85
    ||| n == 0xA0
    ||| n == 0x1680
    ||| 0x2000 <= n <= 0x200A
    ||| n == 0x2028
    ||| n == 0x2029
    ||| n == 0x202F
    ||| n == 0x205F
    ||| n == 0x3000
}

fn white_space(c: char) -> (b: bool)
    ensures
        b == is_white_space(c),
{
    let n: u32 = c as u32;
    (0x9 <= n && n <= 0xD) || n == 0x20 || n == 0x85 || n == 0xA0 || n == 0x1680 || (0x2000 <= n
        && n <= 0x200A) || n == 0x2028 || n == 0x2029 || n == 0x202F || n == 0x205F || n == 0x3000
}

/// `t` is `s` without the white space at both ends.
pub open spec fn is_trimmed(s: Seq<char>, t: Seq<char>) -> bool {
    exists|a: int, b: int| trims(s, a, b) && t == #[trigger] s.subrange(a, b)
}

/// All before `a` and from `b` on is white space, and what lies between neither begins nor ends
/// with any.
pub open spec fn trims(s: Seq<char>, a: int, b: int) -> bool {
    &&& 0 <= a <= b <= s.len()
    &&& forall|i: int| 0 <= i < a ==> is_white_space(#[trigger] s[i])
    &&& forall|i: int| b <= i < s.len() ==> is_white_space(#[trigger] s[i])
    &&& a < b ==> !is_white_space(s[a]) && !is_white_space(s[b - 1])
}

/// Text without the white space at both ends.
pub open spec fn trimmed(s: Seq<char>) -> Seq<char> {
    choose|t: Seq<char>| is_trimmed(s, t)
}

/// There is one way only to trim a text.
pub proof fn lemma_trimmed(s: Seq<char>, t: Seq<char>)
    requires
        is_trimmed(s, t),
    ensures
        trimmed(s) == t,
{
    let u = trimmed(s);
    assert(is_trimmed(s, u));
    let (a, b) = choose|a: int, b: int| trims(s, a, b) && t == #[trigger] s.subrange(a, b);
    let (c, d) = choose|c: int, d: int| trims(s, c, d) && u == #[trigger] s.subrange(c, d);
    if a < b {
        assert(!is_white_space(s[a]) && !is_white_space(s[b - 1]));
    }
    if c < d {
        assert(!is_white_space(s[c]) && !is_white_space(s[d - 1]));
    }
    if a < b && c < d {
        assert(a == c && b == d);
    } else if a < b {
        assert(a < c || a >= d);
    } else if c < d {
        assert(c < a || c >= b);
    }
    assert(t =~= u);
}

/// Takes the white space off both ends.
pub fn trim<'a>(s: &'a str) -> (t: &'a str)
    ensures
        t@ == trimmed(s@),
{
    let n: usize = s.unicode_len();
    let mut a: usize = 0;
    while a < n && white_space(s.get_char(a))
        invariant
            a <= n,
            n == s@.len(),
            forall|i: int| 0 <= i < a ==> is_white_space(#[trigger] s@[i]),
        decreases n - a,
    {
        a = a + 1;
    }
    let mut b: usize = n;
    while b > a && white_space(s.get_char(b - 1))
        invariant
            a <= b <= n,
            n == s@.len(),
            forall|i: int| b <= i < n ==> is_white_space(#[trigger] s@[i]),
        decreases b,
    {
        b = b - 1;
    }
    let t = s.substring_char(a, b);
    proof {
        assert(trims(s@, a as int, b as int));
        assert(is_trimmed(s@, t@));
        lemma_trimmed(s@, t@);
    }
    t
}

/// An ASCII letter in upper case; any other character as it is.
pub open spec fn upper(c: char) -> char {
    if 'a' <= c <= 'z' {
        (c as u32 - 32) as char
    } else {
        c
    }
}

/// Text with its ASCII letters in upper case.
pub open spec fn upper_text(s: Seq<char>) -> Seq<char> {
    s.map_values(|c: char| upper(c))
}

fn to_upper(c: char) -> (u: char)
    ensures
        u == upper(c),
{
    if 'a' <= c && c <= 'z' {
        let n: u8 = c as u8;
        (n - 32) as char
    } else {
        c
    }
}

/// Whether two texts are the same but for the case of ASCII letters.
pub fn same_text_ignoring_case(a: &str, b: &str) -> (same: bool)
    ensures
        same == (upper_text(a@) == upper_text(b@)),
{
    let n: usize = a.unicode_len();
    let ghost x = upper_text(a@);
    let ghost y = upper_text(b@);
    if n != b.unicode_len() {
        assert(x.len() != y.len());
        return false;
    }
    for i in 0..n
        invariant
            n == a@.len() == b@.len(),
            x == upper_text(a@),
            y == upper_text(b@),
            forall|j: int| 0 <= j < i ==> x[j] == y[j],
    {
        if to_upper(a.get_char(i)) != to_upper(b.get_char(i)) {
            assert(x[i as int] != y[i as int]);
            return false;
        }
    }
    assert(x =~= y);
    true
}

/// Whether a text occurs in another.
pub open spec fn occurs(needle: Seq<char>, hay: Seq<char>) -> bool {
    exists|at: int| #[trigger] occurs_at(needle, hay, at)
}

/// Whether a text occurs in another at this place.
pub open spec fn occurs_at(needle: Seq<char>, hay: Seq<char>, at: int) -> bool {
    0 <= at <= hay.len() - needle.len() && hay.subrange(at, at + needle.len()) == needle
}

/// Whether `needle` occurs in `hay` once the ASCII letters of `hay` are in upper case.
pub fn upper_contains(hay: &str, needle: &str) -> (found: bool)
    ensures
        found == occurs(needle@, upper_text(hay@)),
{
    let n: usize = hay.unicode_len();
    let m: usize = needle.unicode_len();
    if m > n {
        return false;
    }
    if m == 0 {
        assert(upper_text(hay@).subrange(0, 0) =~= needle@);
        assert(occurs_at(needle@, upper_text(hay@), 0));
        return true;
    }
    for at in 0..n - m + 1
        invariant
            n == hay@.len(),
            m == needle@.len(),
            1 <= m <= n,
            forall|k: int| 0 <= k < at ==> !#[trigger] occurs_at(needle@, upper_text(hay@), k),
    {
        let mut i: usize = 0;
        while i < m && to_upper(hay.get_char(at + i)) == needle.get_char(i)
            invariant
                n == hay@.len(),
                m == needle@.len(),
                at + m <= n,
                i <= m,
                forall|j: int| 0 <= j < i ==> upper(hay@[at + j]) == needle@[j],
            ensures
                i < m ==> upper(hay@[at + i]) != needle@[i as int],
            decreases m - i,
        {
            i = i + 1;
        }
        let ghost part = upper_text(hay@).subrange(at as int, at + m);
        if i == m {
            assert(part =~= needle@);
            assert(occurs_at(needle@, upper_text(hay@), at as int));
            return true;
        }
        assert(part[i as int] == upper(hay@[at + i]));
    }
    false
}

/// An integer in decimal, with a minus sign if it is negative.
pub open spec fn signed_text(n: int) -> Seq<char> {
    if n < 0 {
        seq!['-'] + decimal_text(-n)
    } else {
        decimal_text(n)
    }
}

/// Appends an integer in decimal.
pub fn push_signed(out: &mut String, n: i64)
    ensures
        final(out)@ == old(out)@ + signed_text(n as int),
{
    if n < 0 {
        out.push('-');
        let magnitude: u64 = (-(n as i128)) as u64;
        push_decimal(out, magnitude);
    } else {
        push_decimal(out, n as u64);
    }
    assert(out@ =~= old(out)@ + signed_text(n as int));
}

/// A number is written with decimal digits, most significant first, that read back as the number.
/// It begins with a zero only if it is zero.
pub proof fn lemma_decimal_reads_back(n: int)
    requires
        0 <= n,
    ensures
        ({
            let digits = decimal_text(n);
            let bytes = digits.map_values(|c: char| c as u8);
            &&& digits.len() >= 1
            &&& forall|i: int| 0 <= i < digits.len() ==> '0' <= #[trigger] digits[i] <= '9'
            &&& digits[0] == '0' <==> n == 0
            &&& decimal_of(bytes) == Some(n)
            &&& signed_decimal_of(bytes) == Some(n)
        }),
    decreases n,
{
    let digits = decimal_text(n);
    let bytes = digits.map_values(|c: char| c as u8);
    if n < 10 {
        assert(digits[0] as u32 == 0x30 + n);
        assert(bytes.drop_last() =~= Seq::empty());
        assert(decimal_of(bytes.drop_last()) == Some(0int));
        assert(bytes.last() == 0x30 + n);
    } else {
        lemma_decimal_reads_back(n / 10);
        let before = decimal_text(n / 10);
        let before_bytes = before.map_values(|c: char| c as u8);
        assert(digits == before.push(digit_char(n % 10)));
        assert(bytes.drop_last() =~= before_bytes);
        assert(bytes.last() == 0x30 + n % 10);
        assert forall|i: int| 0 <= i < digits.len() implies '0' <= #[trigger] digits[i] <= '9' by {
            if i < before.len() {
                assert(digits[i] == before[i]);
            }
        }
        assert(digits[0] == before[0]);
    }
    assert(bytes[0] == digits[0] as u8);
}

/// Text of digits reads as the number that its digits weigh, and any other byte makes it no number.
pub proof fn lemma_what_decimal_digits_weigh(s: Seq<u8>, byte: u8)
    ensures
        decimal_of(Seq::empty()) == Some(0int),
        0x30 <= byte <= 0x39 ==> decimal_of(s.push(byte)) == (match decimal_of(s) {
            Some(n) => Some(10 * n + (byte - 0x30)),
            None => None,
        }),
        byte < 0x30 || byte > 0x39 ==> decimal_of(s.push(byte)) is None,
{
    assert(s.push(byte).drop_last() =~= s);
}

/// A sign stands in front of the digits or not at all; a minus sign turns the number over.
pub proof fn lemma_what_a_sign_does(digits: Seq<u8>, n: int)
    requires
        digits.len() > 0,
        decimal_of(digits) == Some(n),
    ensures
        signed_decimal_of(digits) == Some(n),
        signed_decimal_of(seq![0x2Du8] + digits) == Some(-n),
        signed_decimal_of(seq![0x2Bu8] + digits) == Some(n),
        signed_decimal_of(Seq::empty()) is None,
        signed_decimal_of(seq![0x2Du8]) is None,
        signed_decimal_of(seq![0x2Bu8]) is None,
{
    assert((seq![0x2Du8] + digits).skip(1) =~= digits);
    assert((seq![0x2Bu8] + digits).skip(1) =~= digits);
    assert(digits[0] != 0x2D && digits[0] != 0x2B) by {
        lemma_decimal_prefix(digits, 1);
        assert(digits.take(1).last() == digits[0]);
    }
}

/// A negative number is written as a minus sign and the number that it turns over.
pub proof fn lemma_how_a_negative_number_is_written(n: int)
    ensures
        n >= 0 ==> signed_text(n) == decimal_text(n),
        n < 0 ==> signed_text(n) == seq!['-'] + decimal_text(-n),
{
}

/// A padded number is its digits behind as many zeros as are missing.
pub proof fn lemma_how_a_number_is_padded(n: int, width: int)
    ensures
        ({
            let digits = decimal_text(n);
            let padded = padded_text(n, width);
            let zeros = padded.len() - digits.len();
            &&& zeros == (if digits.len() < width {
                width - digits.len()
            } else {
                0
            })
            &&& padded.skip(zeros) == digits
            &&& forall|i: int| 0 <= i < zeros ==> #[trigger] padded[i] == '0'
        }),
{
    let digits = decimal_text(n);
    let padded = padded_text(n, width);
    assert(padded.skip(padded.len() - digits.len()) =~= digits);
}

/// Bytes of ASCII stand for the characters of the same numbers.
pub proof fn lemma_ascii_is_by_number(s: Seq<u8>, i: int)
    requires
        0 <= i < s.len(),
    ensures
        ascii_text(s).len() == s.len(),
        ascii_text(s)[i] as u32 == s[i] as u32,
{
}

/// White space around a text is trimmed off, and nothing inside it.
pub proof fn lemma_trimming_takes_what_is_around(front: Seq<char>, s: Seq<char>, back: Seq<char>)
    requires
        forall|i: int| 0 <= i < front.len() ==> is_white_space(#[trigger] front[i]),
        forall|i: int| 0 <= i < back.len() ==> is_white_space(#[trigger] back[i]),
        s.len() > 0 ==> !is_white_space(s[0]) && !is_white_space(s.last()),
    ensures
        trimmed(front + s + back) == s,
{
    let all = front + s + back;
    let a = front.len() as int;
    let b = a + s.len();
    assert(all.subrange(a, b) =~= s);
    assert forall|i: int| b <= i < all.len() implies is_white_space(#[trigger] all[i]) by {
        assert(all[i] == back[i - b]);
    }
    assert forall|i: int| 0 <= i < a implies is_white_space(#[trigger] all[i]) by {
        assert(all[i] == front[i]);
    }
    assert(trims(all, a, b));
    assert(is_trimmed(all, s));
    lemma_trimmed(all, s);
}

/// In ASCII, the blank and the five control characters from tab to carriage return are white space.
pub proof fn lemma_ascii_white_space(c: char)
    requires
        (c as u32) < 0x80,
    ensures
        is_white_space(c) <==> c == ' ' || 9 <= c as u32 <= 13,
{
}

/// Only the letters from `a` to `z` have another form in upper case, 32 numbers below.
pub proof fn lemma_upper_case_is_of_letters(c: char)
    ensures
        'a' <= c <= 'z' ==> upper(c) as u32 == c as u32 - 32,
        c < 'a' || c > 'z' ==> upper(c) == c,
{
}

/// A text occurs in every text that continues it on both sides.
pub proof fn lemma_a_text_occurs_inside(front: Seq<char>, needle: Seq<char>, back: Seq<char>)
    ensures
        occurs(needle, front + needle + back),
{
    let hay = front + needle + back;
    let at = front.len() as int;
    assert(hay.subrange(at, at + needle.len()) =~= needle);
    assert(occurs_at(needle, hay, at));
}

/// Where a text occurs, the text around it continues it on both sides.
pub proof fn lemma_what_is_around_an_occurrence(needle: Seq<char>, hay: Seq<char>)
    requires
        occurs(needle, hay),
    ensures
        exists|front: Seq<char>, back: Seq<char>| hay == #[trigger] (front + needle + back),
{
    let at = choose|at: int| #[trigger] occurs_at(needle, hay, at);
    let front = hay.take(at);
    let back = hay.skip(at + needle.len());
    assert(hay =~= front + hay.subrange(at, at + needle.len()) + back);
    assert(hay == front + needle + back);
}

/// The white space beyond ASCII: two Latin blanks, the Ogham blank, the blanks of general
/// punctuation from 8192 to 8202, two separators, two narrow blanks and the ideographic blank.
pub proof fn lemma_white_space_beyond_ascii(c: char)
    requires
        c as int >= 128,
    ensures
        is_white_space(c) <==> {
            ||| c as int == 133
            ||| c as int == 160
            ||| c as int == 5760
            ||| 8192 <= c as int <= 8202
            ||| c as int == 8232
            ||| c as int == 8233
            ||| c as int == 8239
            ||| c as int == 8287
            ||| c as int == 12288
        },
{
}

} // verus!

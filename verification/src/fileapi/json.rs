//! A minimal JSON reader, sized for the two replies of the file API.
//!
//! It is not a general-purpose library: numbers are kept as their source text and converted on
//! demand, which is exact for the integers this API sends and refuses the floats it does not.
use crate::fileapi::ParseError;
use crate::fileapi::ParseErrorView;
use crate::text;
use vstd::prelude::*;
use vstd::slice::slice_subrange;
use vstd::utf8::*;

verus! {

/// Deepest nesting accepted. The listing needs 3; anything near this is not a listing.
pub const MAX_DEPTH: usize = 32;

/// A JSON value. `Number` keeps its source text.
#[derive(Debug, PartialEq)]
pub enum Value {
    Null,
    Bool(bool),
    Number(String),
    String(String),
    Array(Vec<Value>),
    Object(Vec<(String, Value)>),
}

/// The mathematical content of a [`Value`].
pub enum Json {
    Null,
    Bool(bool),
    Number(Seq<char>),
    String(Seq<char>),
    Array(Seq<Json>),
    Object(Seq<(Seq<char>, Json)>),
}

impl View for Value {
    type V = Json;

    open spec fn view(&self) -> Json {
        self.model()
    }
}

impl Value {
    pub open spec fn model(self) -> Json
        decreases self,
    {
        match self {
            Value::Null => Json::Null,
            Value::Bool(b) => Json::Bool(b),
            Value::Number(s) => Json::Number(s@),
            Value::String(s) => Json::String(s@),
            Value::Array(items) => Json::Array(
                Seq::new(
                    items@.len(),
                    |i: int|
                        if 0 <= i < items@.len() {
                            items@[i].model()
                        } else {
                            Json::Null
                        },
                ),
            ),
            Value::Object(pairs) => Json::Object(
                Seq::new(
                    pairs@.len(),
                    |i: int|
                        if 0 <= i < pairs@.len() {
                            (pairs@[i].0@, pairs@[i].1.model())
                        } else {
                            (Seq::empty(), Json::Null)
                        },
                ),
            ),
        }
    }
}

impl Value {
    pub fn as_str(&self) -> (r: Option<&str>)
        ensures
            match r {
                Some(s) => self@ == Json::String(s@),
                None => !(self@ is String),
            },
    {
        match self {
            Value::String(s) => Some(s.as_str()),
            _ => None,
        }
    }

    pub fn as_i64(&self) -> (r: Option<i64>)
        ensures
            r == integer_of(self@),
    {
        match self {
            Value::Number(n) => text::parse_i64(n.as_str().as_bytes()),
            _ => None,
        }
    }

    pub fn as_array(&self) -> (r: Option<&[Value]>)
        ensures
            match r {
                Some(items) => self@ == Json::Array(models(items@)),
                None => !(self@ is Array),
            },
    {
        match self {
            Value::Array(v) => {
                assert(self@->Array_0 =~= models(v@));
                Some(v.as_slice())
            },
            _ => None,
        }
    }

    pub fn as_object(&self) -> (r: Option<&[(String, Value)]>)
        ensures
            match r {
                Some(pairs) => self@ == Json::Object(pair_models(pairs@)),
                None => !(self@ is Object),
            },
    {
        match self {
            Value::Object(v) => {
                assert(self@->Object_0 =~= pair_models(v@));
                Some(v.as_slice())
            },
            _ => None,
        }
    }

    pub(crate) fn object(&self, field: &'static str) -> (r: Result<
        &[(String, Value)],
        ParseError,
    >)
        ensures
            match r {
                Ok(pairs) => object_of(self@, field@) == Ok::<Seq<(Seq<char>, Json)>, ParseErrorView>(
                    pair_models(pairs@),
                ),
                Err(e) => object_of(self@, field@) == Err::<Seq<(Seq<char>, Json)>, ParseErrorView>(
                    e@,
                ),
            },
    {
        match self.as_object() {
            Some(pairs) => Ok(pairs),
            None => Err(ParseError::WrongType { field, expected: "an object" }),
        }
    }

    pub(crate) fn array(&self, field: &'static str) -> (r: Result<&[Value], ParseError>)
        ensures
            match r {
                Ok(items) => array_of(self@, field@) == Ok::<Seq<Json>, ParseErrorView>(
                    models(items@),
                ),
                Err(e) => array_of(self@, field@) == Err::<Seq<Json>, ParseErrorView>(e@),
            },
    {
        match self.as_array() {
            Some(items) => Ok(items),
            None => Err(ParseError::WrongType { field, expected: "an array" }),
        }
    }

    pub(crate) fn string(&self, field: &'static str) -> (r: Result<&str, ParseError>)
        ensures
            match r {
                Ok(s) => string_of(self@, field@) == Ok::<Seq<char>, ParseErrorView>(s@),
                Err(e) => string_of(self@, field@) == Err::<Seq<char>, ParseErrorView>(e@),
            },
    {
        match self.as_str() {
            Some(s) => Ok(s),
            None => Err(ParseError::WrongType { field, expected: "a string" }),
        }
    }

    pub(crate) fn integer(&self, field: &'static str) -> (r: Result<i64, ParseError>)
        ensures
            match r {
                Ok(n) => number_of(self@, field@) == Ok::<i64, ParseErrorView>(n),
                Err(e) => number_of(self@, field@) == Err::<i64, ParseErrorView>(e@),
            },
    {
        match self {
            Value::Number(_) => match self.as_i64() {
                Some(n) => Ok(n),
                None => Err(ParseError::BadNumber { field }),
            },
            _ => Err(ParseError::WrongType { field, expected: "a number" }),
        }
    }
}

/// The integer that a number is, if it is one that 64 bits can hold.
pub open spec fn integer_of(v: Json) -> Option<i64> {
    match v {
        Json::Number(s) => match text::signed_decimal_of(encode_utf8(s)) {
            Some(n) if i64::MIN <= n <= i64::MAX => Some(n as i64),
            _ => None,
        },
        _ => None,
    }
}

pub open spec fn object_of(v: Json, field: Seq<char>) -> Result<
    Seq<(Seq<char>, Json)>,
    ParseErrorView,
> {
    match v {
        Json::Object(pairs) => Ok(pairs),
        _ => Err(ParseErrorView::WrongType { field, expected: "an object"@ }),
    }
}

pub open spec fn array_of(v: Json, field: Seq<char>) -> Result<Seq<Json>, ParseErrorView> {
    match v {
        Json::Array(items) => Ok(items),
        _ => Err(ParseErrorView::WrongType { field, expected: "an array"@ }),
    }
}

pub open spec fn string_of(v: Json, field: Seq<char>) -> Result<Seq<char>, ParseErrorView> {
    match v {
        Json::String(s) => Ok(s),
        _ => Err(ParseErrorView::WrongType { field, expected: "a string"@ }),
    }
}

pub open spec fn number_of(v: Json, field: Seq<char>) -> Result<i64, ParseErrorView> {
    match v {
        Json::Number(_) => match integer_of(v) {
            Some(n) => Ok(n),
            None => Err(ParseErrorView::BadNumber { field }),
        },
        _ => Err(ParseErrorView::WrongType { field, expected: "a number"@ }),
    }
}

/// The value of the first pair with this key.
pub open spec fn field_of(pairs: Seq<(Seq<char>, Json)>, key: Seq<char>) -> Option<Json>
    decreases pairs.len(),
{
    if pairs.len() == 0 {
        None
    } else if pairs[0].0 == key {
        Some(pairs[0].1)
    } else {
        field_of(pairs.drop_first(), key)
    }
}

/// Look one key up in an object's pairs. Field order does not matter and unknown keys are
/// ignored.
pub fn field<'a>(pairs: &'a [(String, Value)], key: &str) -> (r: Option<&'a Value>)
    ensures
        match r {
            Some(v) => field_of(pair_models(pairs@), key@) == Some(v@),
            None => field_of(pair_models(pairs@), key@) is None,
        },
{
    let ghost all = pair_models(pairs@);
    assert(all.skip(0) =~= all);
    for i in 0..pairs.len()
        invariant
            all == pair_models(pairs@),
            field_of(all, key@) == field_of(all.skip(i as int), key@),
    {
        assert(all.skip(i as int).drop_first() =~= all.skip(i + 1));
        if text::same_text(pairs[i].0.as_str(), key) {
            return Some(&pairs[i].1);
        }
    }
    None
}

/// The contents of a list of values.
pub open spec fn models(items: Seq<Value>) -> Seq<Json> {
    Seq::new(items.len(), |i: int| items[i].model())
}

/// The contents of an object's pairs.
pub open spec fn pair_models(pairs: Seq<(String, Value)>) -> Seq<(Seq<char>, Json)> {
    Seq::new(pairs.len(), |i: int| (pairs[i].0@, pairs[i].1.model()))
}

// ---- the grammar ----------------------------------------------------------------------
//
// Each function reads one construct of `b` at `i` and gives what it read and where it ends.

pub open spec fn is_ws(c: u8) -> bool {
    c == 0x20 || c == 0x09 || c == 0x0A || c == 0x0D
}

pub open spec fn is_digit(c: u8) -> bool {
    0x30 <= c <= 0x39
}

/// The first offset from `i` on that holds no whitespace.
pub open spec fn ws_end(b: Seq<u8>, i: int) -> int
    decreases b.len() - i,
{
    if 0 <= i < b.len() && is_ws(b[i]) {
        ws_end(b, i + 1)
    } else {
        i
    }
}

/// Skipping whitespace goes forward and stays inside.
pub proof fn lemma_ws_end(b: Seq<u8>, i: int)
    ensures
        i <= ws_end(b, i),
        i <= b.len() ==> ws_end(b, i) <= b.len(),
    decreases b.len() - i,
{
    if 0 <= i < b.len() && is_ws(b[i]) {
        lemma_ws_end(b, i + 1);
    }
}

/// The first offset from `i` on that holds no digit.
pub open spec fn digits_end(b: Seq<u8>, i: int) -> int
    decreases b.len() - i,
{
    if 0 <= i < b.len() && is_digit(b[i]) {
        digits_end(b, i + 1)
    } else {
        i
    }
}

/// One hexadecimal digit.
pub open spec fn hex_digit(c: u8) -> Option<int> {
    if is_digit(c) {
        Some(c - 0x30)
    } else if 0x41 <= c <= 0x46 {
        Some(c - 0x41 + 10)
    } else if 0x61 <= c <= 0x66 {
        Some(c - 0x61 + 10)
    } else {
        None
    }
}

/// The value of hexadecimal digits, most significant first.
pub open spec fn hex_value(s: Seq<u8>) -> Option<int>
    decreases s.len(),
{
    if s.len() == 0 {
        Some(0)
    } else {
        match (hex_value(s.drop_last()), hex_digit(s.last())) {
            (Some(high), Some(low)) => Some(high * 16 + low),
            _ => None,
        }
    }
}

/// The code unit of a `\\u` escape: four hexadecimal digits, of which the first may be a plus
/// sign instead.
pub open spec fn unicode_escape(s: Seq<u8>) -> Option<int> {
    if s[0] == 0x2B {
        hex_value(s.skip(1))
    } else {
        hex_value(s)
    }
}

/// The character of a code unit. A surrogate becomes the replacement character.
pub open spec fn code_unit_char(n: int) -> char {
    if 0xD800 <= n <= 0xDFFF {
        '\u{FFFD}'
    } else {
        n as char
    }
}

/// The character that a one-letter escape stands for.
pub open spec fn short_escape(e: u8) -> Option<char> {
    if e == 0x22 {
        Some('"')
    } else if e == 0x5C {
        Some('\\')
    } else if e == 0x2F {
        Some('/')
    } else if e == 0x62 {
        Some('\u{8}')
    } else if e == 0x66 {
        Some('\u{c}')
    } else if e == 0x6E {
        Some('\n')
    } else if e == 0x72 {
        Some('\r')
    } else if e == 0x74 {
        Some('\t')
    } else {
        None
    }
}

/// How many bytes the UTF-8 sequence that starts with `first` has.
pub open spec fn sequence_len(first: u8) -> int {
    if first <= 0x7F {
        1
    } else if 0xC0 <= first <= 0xDF {
        2
    } else if 0xE0 <= first <= 0xEF {
        3
    } else {
        4
    }
}

/// A text with something in front of it.
pub open spec fn prepend(
    s: Seq<char>,
    r: Result<(Seq<char>, int), ParseErrorView>,
) -> Result<(Seq<char>, int), ParseErrorView> {
    match r {
        Ok((t, end)) => Ok((s + t, end)),
        Err(e) => Err(e),
    }
}

/// The rest of a string, up to and with its closing quote.
pub open spec fn string_rest(b: Seq<u8>, i: int) -> Result<(Seq<char>, int), ParseErrorView>
    decreases b.len() - i,
{
    if !(0 <= i < b.len()) {
        Err(ParseErrorView::Truncated)
    } else if b[i] == 0x22 {
        Ok((Seq::empty(), i + 1))
    } else if b[i] == 0x5C {
        if i + 1 >= b.len() {
            Err(ParseErrorView::Truncated)
        } else if b[i + 1] == 0x75 {
            if i + 6 > b.len() {
                Err(ParseErrorView::Truncated)
            } else {
                match unicode_escape(b.subrange(i + 2, i + 6)) {
                    Some(n) => prepend(seq![code_unit_char(n)], string_rest(b, i + 6)),
                    None => Err(ParseErrorView::NotJson { at: i + 2 }),
                }
            }
        } else {
            match short_escape(b[i + 1]) {
                Some(c) => prepend(seq![c], string_rest(b, i + 2)),
                None => Err(ParseErrorView::NotJson { at: i + 2 }),
            }
        }
    } else if b[i] < 0x20 {
        Err(ParseErrorView::NotJson { at: i })
    } else {
        let end = i + sequence_len(b[i]);
        if end > b.len() {
            Err(ParseErrorView::Truncated)
        } else if !valid_utf8(b.subrange(i, end)) {
            Err(ParseErrorView::NotJson { at: i })
        } else {
            prepend(decode_utf8(b.subrange(i, end)), string_rest(b, end))
        }
    }
}

/// A string with its quotes.
pub open spec fn string_at(b: Seq<u8>, i: int) -> Result<(Seq<char>, int), ParseErrorView> {
    if i >= b.len() {
        Err(ParseErrorView::Truncated)
    } else if b[i] != 0x22 {
        Err(ParseErrorView::NotJson { at: i })
    } else {
        string_rest(b, i + 1)
    }
}

/// A number: an optional minus sign and digits, then perhaps a fraction, then perhaps an
/// exponent.
pub open spec fn number_at(b: Seq<u8>, i: int) -> Result<(Json, int), ParseErrorView> {
    let from = if b[i] == 0x2D {
        i + 1
    } else {
        i
    };
    let whole = digits_end(b, from);
    if whole == from {
        if whole >= b.len() {
            Err(ParseErrorView::Truncated)
        } else {
            Err(ParseErrorView::NotJson { at: whole })
        }
    } else {
        let fraction = if whole < b.len() && b[whole] == 0x2E {
            digits_end(b, whole + 1)
        } else {
            whole
        };
        let end = if fraction < b.len() && (b[fraction] == 0x65 || b[fraction] == 0x45) {
            if fraction + 1 < b.len() && (b[fraction + 1] == 0x2B || b[fraction + 1] == 0x2D) {
                digits_end(b, fraction + 2)
            } else {
                digits_end(b, fraction + 1)
            }
        } else {
            fraction
        };
        Ok((Json::Number(text::ascii_text(b.subrange(i, end))), end))
    }
}

/// One of the words `true`, `false` and `null`.
pub open spec fn word_at(b: Seq<u8>, i: int, word: Seq<u8>, v: Json) -> Result<
    (Json, int),
    ParseErrorView,
> {
    let rest = b.skip(i);
    if word.is_prefix_of(rest) {
        Ok((v, i + word.len()))
    } else if rest.is_prefix_of(word) {
        Err(ParseErrorView::Truncated)
    } else {
        Err(ParseErrorView::NotJson { at: i })
    }
}

pub open spec fn true_word() -> Seq<u8> {
    seq![0x74u8, 0x72, 0x75, 0x65]
}

pub open spec fn false_word() -> Seq<u8> {
    seq![0x66u8, 0x61, 0x6C, 0x73, 0x65]
}

pub open spec fn null_word() -> Seq<u8> {
    seq![0x6Eu8, 0x75, 0x6C, 0x6C]
}

/// Any value.
pub open spec fn value_at(b: Seq<u8>, i: int, depth: int) -> Result<(Json, int), ParseErrorView>
    decreases b.len() - i, 2int,
{
    if depth >= MAX_DEPTH {
        Err(ParseErrorView::TooDeep)
    } else if !(0 <= i < b.len()) {
        Err(ParseErrorView::Truncated)
    } else if b[i] == 0x7B {
        object_at(b, i, depth)
    } else if b[i] == 0x5B {
        array_at(b, i, depth)
    } else if b[i] == 0x22 {
        match string_at(b, i) {
            Ok((s, end)) => Ok((Json::String(s), end)),
            Err(e) => Err(e),
        }
    } else if b[i] == 0x74 {
        word_at(b, i, true_word(), Json::Bool(true))
    } else if b[i] == 0x66 {
        word_at(b, i, false_word(), Json::Bool(false))
    } else if b[i] == 0x6E {
        word_at(b, i, null_word(), Json::Null)
    } else if b[i] == 0x2D || is_digit(b[i]) {
        number_at(b, i)
    } else {
        Err(ParseErrorView::NotJson { at: i })
    }
}

/// An object, at its opening brace.
pub open spec fn object_at(b: Seq<u8>, i: int, depth: int) -> Result<(Json, int), ParseErrorView>
    decreases b.len() - i, 1int,
{
    let first = ws_end(b, i + 1);
    if !(0 <= i < first < b.len()) {
        Err(ParseErrorView::Truncated)
    } else if b[first] == 0x7D {
        Ok((Json::Object(Seq::empty()), first + 1))
    } else {
        match members_at(b, first, depth + 1) {
            Ok((pairs, end)) => Ok((Json::Object(pairs), end)),
            Err(e) => Err(e),
        }
    }
}

/// One or more members of an object, up to and with its closing brace.
pub open spec fn members_at(b: Seq<u8>, i: int, depth: int) -> Result<
    (Seq<(Seq<char>, Json)>, int),
    ParseErrorView,
>
    decreases b.len() - i, 3int,
{
    match string_at(b, ws_end(b, i)) {
        Err(e) => Err(e),
        Ok((key, key_end)) => {
            let colon = ws_end(b, key_end);
            if colon >= b.len() {
                Err(ParseErrorView::Truncated)
            } else if b[colon] != 0x3A {
                Err(ParseErrorView::NotJson { at: colon })
            } else if !(0 <= i <= colon) {
                // A string is never empty.
                Err(ParseErrorView::Truncated)
            } else {
                proof {
                    lemma_ws_end(b, colon + 1);
                }
                match value_at(b, ws_end(b, colon + 1), depth) {
                    Err(e) => Err(e),
                    Ok((v, v_end)) => {
                        let next = ws_end(b, v_end);
                        if next >= b.len() {
                            Err(ParseErrorView::Truncated)
                        } else if b[next] == 0x7D {
                            Ok((seq![(key, v)], next + 1))
                        } else if b[next] != 0x2C {
                            Err(ParseErrorView::NotJson { at: next })
                        } else if next < i {
                            // A value is never empty.
                            Err(ParseErrorView::Truncated)
                        } else {
                            match members_at(b, next + 1, depth) {
                                Ok((more, end)) => Ok((seq![(key, v)] + more, end)),
                                Err(e) => Err(e),
                            }
                        }
                    },
                }
            }
        },
    }
}

/// An array, at its opening bracket.
pub open spec fn array_at(b: Seq<u8>, i: int, depth: int) -> Result<(Json, int), ParseErrorView>
    decreases b.len() - i, 1int,
{
    let first = ws_end(b, i + 1);
    if !(0 <= i < first < b.len()) {
        Err(ParseErrorView::Truncated)
    } else if b[first] == 0x5D {
        Ok((Json::Array(Seq::empty()), first + 1))
    } else {
        match elements_at(b, first, depth + 1) {
            Ok((items, end)) => Ok((Json::Array(items), end)),
            Err(e) => Err(e),
        }
    }
}

/// One or more elements of an array, up to and with its closing bracket.
pub open spec fn elements_at(b: Seq<u8>, i: int, depth: int) -> Result<
    (Seq<Json>, int),
    ParseErrorView,
>
    decreases b.len() - i, 3int,
{
    if !(0 <= i <= b.len()) {
        Err(ParseErrorView::Truncated)
    } else {
        proof {
            lemma_ws_end(b, i);
        }
        match value_at(b, ws_end(b, i), depth) {
            Err(e) => Err(e),
            Ok((v, v_end)) => {
                let next = ws_end(b, v_end);
                if next >= b.len() {
                    Err(ParseErrorView::Truncated)
                } else if b[next] == 0x5D {
                    Ok((seq![v], next + 1))
                } else if b[next] != 0x2C {
                    Err(ParseErrorView::NotJson { at: next })
                } else if next < i {
                    // A value is never empty.
                    Err(ParseErrorView::Truncated)
                } else {
                    match elements_at(b, next + 1, depth) {
                        Ok((more, end)) => Ok((seq![v] + more, end)),
                        Err(e) => Err(e),
                    }
                }
            },
        }
    }
}

/// A whole document: one value, with whitespace around it and nothing else.
pub open spec fn document(b: Seq<u8>) -> Result<Json, ParseErrorView> {
    match value_at(b, ws_end(b, 0), 0) {
        Err(e) => Err(e),
        Ok((v, v_end)) => {
            let end = ws_end(b, v_end);
            if end != b.len() {
                Err(ParseErrorView::TrailingBytes { at: end })
            } else {
                Ok(v)
            }
        },
    }
}

/// Whether a reading is the one the grammar gives. What was read is never empty.
spec fn reads(
    r: Result<(Value, usize), ParseError>,
    model: Result<(Json, int), ParseErrorView>,
    i: int,
    len: nat,
) -> bool {
    match r {
        Ok((v, end)) => model == Ok::<(Json, int), ParseErrorView>((v@, end as int)) && i < end
            <= len,
        Err(e) => model == Err::<(Json, int), ParseErrorView>(e@),
    }
}

fn skip_ws(b: &[u8], from: usize) -> (end: usize)
    requires
        from <= b.len(),
    ensures
        end == ws_end(b@, from as int),
        from <= end <= b.len(),
{
    let mut i: usize = from;
    while i < b.len() && (b[i] == 0x20 || b[i] == 0x09 || b[i] == 0x0A || b[i] == 0x0D)
        invariant
            from <= i <= b.len(),
            ws_end(b@, from as int) == ws_end(b@, i as int),
        decreases b.len() - i,
    {
        i = i + 1;
    }
    i
}

fn skip_digits(b: &[u8], from: usize) -> (end: usize)
    requires
        from <= b.len(),
    ensures
        end == digits_end(b@, from as int),
        from <= end <= b.len(),
        forall|k: int| from <= k < end ==> is_digit(#[trigger] b@[k]),
{
    let mut i: usize = from;
    while i < b.len() && b[i] >= 0x30 && b[i] <= 0x39
        invariant
            from <= i <= b.len(),
            digits_end(b@, from as int) == digits_end(b@, i as int),
            forall|k: int| from <= k < i ==> is_digit(#[trigger] b@[k]),
        decreases b.len() - i,
    {
        i = i + 1;
    }
    i
}

fn read_hex_digit(c: u8) -> (r: Option<u32>)
    ensures
        match r {
            Some(d) => hex_digit(c) == Some(d as int) && d < 16,
            None => hex_digit(c) is None,
        },
{
    if c >= 0x30 && c <= 0x39 {
        Some((c - 0x30) as u32)
    } else if c >= 0x41 && c <= 0x46 {
        Some((c - 0x41 + 10) as u32)
    } else if c >= 0x61 && c <= 0x66 {
        Some((c - 0x61 + 10) as u32)
    } else {
        None
    }
}

/// The four characters after `\\u`.
fn read_unicode_escape(s: &[u8]) -> (r: Option<u32>)
    requires
        s@.len() == 4,
    ensures
        match r {
            Some(n) => unicode_escape(s@) == Some(n as int) && n <= 0xFFFF,
            None => unicode_escape(s@) is None,
        },
{
    let from: usize = if s[0] == 0x2B {
        1
    } else {
        0
    };
    let ghost digits = s@.skip(from as int);
    let mut n: u32 = 0;
    assert(digits.take(0) =~= Seq::empty());
    for i in from..4
        invariant
            from <= 1,
            (from == 1) == (s@[0] == 0x2B),
            s@.len() == 4,
            digits == s@.skip(from as int),
            hex_value(digits.take(i - from)) == Some(n as int),
            i == 0 ==> n < 1,
            i == 1 ==> n < 16,
            i == 2 ==> n < 256,
            i == 3 ==> n < 4096,
            i == 4 ==> n < 65536,
    {
        assert(digits.take(i + 1 - from).drop_last() =~= digits.take(i - from));
        match read_hex_digit(s[i]) {
            Some(d) => {
                n = n * 16 + d;
            },
            None => {
                proof {
                    lemma_hex_value_none(digits, i + 1 - from);
                    assert(from == 0 ==> digits =~= s@);
                }
                return None;
            },
        }
    }
    assert(digits.take(4 - from) =~= digits);
    assert(from == 0 ==> digits =~= s@);
    Some(n)
}

/// Once a character is no hexadecimal digit, nothing that follows makes a value.
proof fn lemma_hex_value_none(s: Seq<u8>, n: int)
    requires
        0 <= n <= s.len(),
        hex_value(s.take(n)) is None,
    ensures
        hex_value(s) is None,
    decreases s.len() - n,
{
    if n < s.len() {
        assert(s.take(n + 1).drop_last() =~= s.take(n));
        lemma_hex_value_none(s, n + 1);
    } else {
        assert(s.take(n) =~= s);
    }
}

fn utf8_len(first: u8) -> (n: usize)
    ensures
        n == sequence_len(first),
{
    if first <= 0x7F {
        1
    } else if first >= 0xC0 && first <= 0xDF {
        2
    } else if first >= 0xE0 && first <= 0xEF {
        3
    } else {
        4
    }
}

fn string(b: &[u8], at: usize) -> (r: Result<(String, usize), ParseError>)
    requires
        at <= b.len(),
    ensures
        match r {
            Ok((s, end)) => string_at(b@, at as int) == Ok::<(Seq<char>, int), ParseErrorView>(
                (s@, end as int),
            ) && at < end <= b.len(),
            Err(e) => string_at(b@, at as int) == Err::<(Seq<char>, int), ParseErrorView>(e@),
        },
{
    if at >= b.len() {
        return Err(ParseError::Truncated);
    }
    if b[at] != 0x22 {
        return Err(ParseError::NotJson { at });
    }
    let mut out: String = String::new();
    let mut i: usize = at + 1;
    proof {
        lemma_prepend_nothing(string_rest(b@, i as int));
    }
    loop
        invariant
            at < i <= b.len(),
            string_at(b@, at as int) == prepend(out@, string_rest(b@, i as int)),
        decreases b.len() - i,
    {
        if i >= b.len() {
            return Err(ParseError::Truncated);
        }
        let c: u8 = b[i];
        let ghost before = out@;
        if c == 0x22 {
            assert(out@ + Seq::<char>::empty() =~= out@);
            return Ok((out, i + 1));
        }
        if c == 0x5C {
            if b.len() - i < 2 {
                return Err(ParseError::Truncated);
            }
            let e: u8 = b[i + 1];
            if e == 0x75 {
                if b.len() - i < 6 {
                    return Err(ParseError::Truncated);
                }
                let hex = slice_subrange(b, i + 2, i + 6);
                match read_unicode_escape(hex) {
                    Some(n) => {
                        let ch = match std::char::from_u32(n) {
                            Some(ch) => ch,
                            None => '\u{FFFD}',
                        };
                        out.push(ch);
                        proof {
                            if !(0xD800 <= n <= 0xDFFF) {
                                char_u32_cast(ch, n);
                            }
                            assert(ch == code_unit_char(n as int));
                            lemma_prepend_twice(before, seq![ch], string_rest(b@, i + 6));
                            assert(out@ =~= before + seq![ch]);
                        }
                        i = i + 6;
                    },
                    None => {
                        return Err(ParseError::NotJson { at: i + 2 });
                    },
                }
            } else {
                let ch = if e == 0x22 {
                    '"'
                } else if e == 0x5C {
                    '\\'
                } else if e == 0x2F {
                    '/'
                } else if e == 0x62 {
                    '\u{8}'
                } else if e == 0x66 {
                    '\u{c}'
                } else if e == 0x6E {
                    '\n'
                } else if e == 0x72 {
                    '\r'
                } else if e == 0x74 {
                    '\t'
                } else {
                    return Err(ParseError::NotJson { at: i + 2 });
                };
                out.push(ch);
                proof {
                    lemma_prepend_twice(before, seq![ch], string_rest(b@, i + 2));
                    assert(out@ =~= before + seq![ch]);
                }
                i = i + 2;
            }
        } else if c < 0x20 {
            return Err(ParseError::NotJson { at: i });
        } else {
            let len: usize = utf8_len(c);
            if b.len() - i < len {
                return Err(ParseError::Truncated);
            }
            let raw = slice_subrange(b, i, i + len);
            match std::str::from_utf8(raw) {
                Ok(s) => {
                    out.append(s);
                    proof {
                        lemma_prepend_twice(before, s@, string_rest(b@, i + len));
                    }
                    i = i + len;
                },
                Err(_) => {
                    return Err(ParseError::NotJson { at: i });
                },
            }
        }
    }
}

proof fn lemma_prepend_nothing(r: Result<(Seq<char>, int), ParseErrorView>)
    ensures
        prepend(Seq::empty(), r) == r,
{
    if let Ok((t, end)) = r {
        assert(Seq::empty() + t =~= t);
    }
}

proof fn lemma_prepend_twice(
    s: Seq<char>,
    t: Seq<char>,
    r: Result<(Seq<char>, int), ParseErrorView>,
)
    ensures
        prepend(s, prepend(t, r)) == prepend(s + t, r),
{
    if let Ok((u, end)) = r {
        assert(s + (t + u) =~= s + t + u);
    }
}

fn number(b: &[u8], start: usize) -> (r: Result<(Value, usize), ParseError>)
    requires
        start < b.len(),
        b@[start as int] == 0x2D || is_digit(b@[start as int]),
    ensures
        reads(r, number_at(b@, start as int), start as int, b@.len()),
{
    let from: usize = if b[start] == 0x2D {
        start + 1
    } else {
        start
    };
    let whole: usize = skip_digits(b, from);
    if whole == from {
        if whole >= b.len() {
            return Err(ParseError::Truncated);
        }
        return Err(ParseError::NotJson { at: whole });
    }
    // Fraction and exponent are accepted and kept as text; `as_i64` then refuses them.
    let fraction: usize = if whole < b.len() && b[whole] == 0x2E {
        skip_digits(b, whole + 1)
    } else {
        whole
    };
    let end: usize = if fraction < b.len() && (b[fraction] == 0x65 || b[fraction] == 0x45) {
        if fraction + 1 < b.len() && (b[fraction + 1] == 0x2B || b[fraction + 1] == 0x2D) {
            skip_digits(b, fraction + 2)
        } else {
            skip_digits(b, fraction + 1)
        }
    } else {
        fraction
    };
    let digits = text::ascii_string(slice_subrange(b, start, end));
    Ok((Value::Number(digits), end))
}

fn lit(b: &[u8], i: usize, word: &[u8], v: Value) -> (r: Result<(Value, usize), ParseError>)
    requires
        i < b.len(),
        0 < word@.len() <= 5,
    ensures
        reads(r, word_at(b@, i as int, word@, v@), i as int, b@.len()),
{
    let left: usize = b.len() - i;
    let common: usize = if left < word.len() {
        left
    } else {
        word.len()
    };
    let ghost rest = b@.skip(i as int);
    for k in 0..common
        invariant
            i < b.len(),
            0 < word@.len() <= 5,
            rest == b@.skip(i as int),
            common <= word.len(),
            common <= b.len() - i,
            forall|j: int| 0 <= j < k ==> rest[j] == #[trigger] word@[j],
    {
        if b[i + k] != word[k] {
            assert(rest[k as int] != word@[k as int]);
            return Err(ParseError::NotJson { at: i });
        }
    }
    if left < word.len() {
        assert(rest =~= word@.take(rest.len() as int));
        return Err(ParseError::Truncated);
    }
    assert(word@ =~= rest.take(word@.len() as int));
    Ok((v, i + word.len()))
}

fn value(b: &[u8], i: usize, depth: usize) -> (r: Result<(Value, usize), ParseError>)
    requires
        i <= b.len(),
        depth <= MAX_DEPTH,
    ensures
        reads(r, value_at(b@, i as int, depth as int), i as int, b@.len()),
    decreases b.len() - i, 2int,
{
    if depth >= MAX_DEPTH {
        return Err(ParseError::TooDeep);
    }
    if i >= b.len() {
        return Err(ParseError::Truncated);
    }
    let c: u8 = b[i];
    if c == 0x7B {
        object(b, i, depth)
    } else if c == 0x5B {
        array(b, i, depth)
    } else if c == 0x22 {
        match string(b, i) {
            Ok((s, end)) => Ok((Value::String(s), end)),
            Err(e) => Err(e),
        }
    } else if c == 0x74 {
        let word: [u8; 4] = [0x74, 0x72, 0x75, 0x65];
        assert(word@ =~= true_word());
        lit(b, i, &word, Value::Bool(true))
    } else if c == 0x66 {
        let word: [u8; 5] = [0x66, 0x61, 0x6C, 0x73, 0x65];
        assert(word@ =~= false_word());
        lit(b, i, &word, Value::Bool(false))
    } else if c == 0x6E {
        let word: [u8; 4] = [0x6E, 0x75, 0x6C, 0x6C];
        assert(word@ =~= null_word());
        lit(b, i, &word, Value::Null)
    } else if c == 0x2D || (c >= 0x30 && c <= 0x39) {
        number(b, i)
    } else {
        Err(ParseError::NotJson { at: i })
    }
}

fn object(b: &[u8], i: usize, depth: usize) -> (r: Result<(Value, usize), ParseError>)
    requires
        i < b.len(),
        depth < MAX_DEPTH,
    ensures
        reads(r, object_at(b@, i as int, depth as int), i as int, b@.len()),
    decreases b.len() - i, 1int,
{
    let first: usize = skip_ws(b, i + 1);
    if first >= b.len() {
        return Err(ParseError::Truncated);
    }
    if b[first] == 0x7D {
        let pairs: Vec<(String, Value)> = Vec::new();
        let v = Value::Object(pairs);
        assert(v@->Object_0 =~= Seq::empty());
        return Ok((v, first + 1));
    }
    let mut pairs: Vec<(String, Value)> = Vec::new();
    let mut at: usize = first;
    let ghost model = members_at(b@, first as int, depth + 1);
    assert(pair_models(pairs@) =~= Seq::empty());
    proof {
        lemma_more_nothing(model);
    }
    loop
        invariant
            i < first <= at <= b.len(),
            depth < MAX_DEPTH,
            model == members_at(b@, first as int, depth + 1),
            model == more(pair_models(pairs@), members_at(b@, at as int, depth + 1)),
            object_at(b@, i as int, depth as int) == (match model {
                Ok((pairs, end)) => Ok::<(Json, int), ParseErrorView>((Json::Object(pairs), end)),
                Err(e) => Err(e),
            }),
        decreases b.len() - at,
    {
        let ghost before = pair_models(pairs@);
        let key_at: usize = skip_ws(b, at);
        let (key, key_end) = match string(b, key_at) {
            Ok(r) => r,
            Err(e) => {
                return Err(e);
            },
        };
        let colon: usize = skip_ws(b, key_end);
        if colon >= b.len() {
            return Err(ParseError::Truncated);
        }
        if b[colon] != 0x3A {
            return Err(ParseError::NotJson { at: colon });
        }
        let value_start: usize = skip_ws(b, colon + 1);
        let (v, v_end) = match value(b, value_start, depth + 1) {
            Ok(r) => r,
            Err(e) => {
                return Err(e);
            },
        };
        let ghost pair = (key@, v@);
        pairs.push((key, v));
        assert(pair_models(pairs@) =~= before + seq![pair]);
        let next: usize = skip_ws(b, v_end);
        if next >= b.len() {
            return Err(ParseError::Truncated);
        }
        if b[next] == 0x7D {
            let v = Value::Object(pairs);
            assert(v@->Object_0 =~= before + seq![pair]);
            return Ok((v, next + 1));
        }
        if b[next] != 0x2C {
            return Err(ParseError::NotJson { at: next });
        }
        proof {
            lemma_more_twice(before, seq![pair], members_at(b@, next + 1, depth + 1));
        }
        at = next + 1;
    }
}

fn array(b: &[u8], i: usize, depth: usize) -> (r: Result<(Value, usize), ParseError>)
    requires
        i < b.len(),
        depth < MAX_DEPTH,
    ensures
        reads(r, array_at(b@, i as int, depth as int), i as int, b@.len()),
    decreases b.len() - i, 1int,
{
    let first: usize = skip_ws(b, i + 1);
    if first >= b.len() {
        return Err(ParseError::Truncated);
    }
    if b[first] == 0x5D {
        let items: Vec<Value> = Vec::new();
        let v = Value::Array(items);
        assert(v@->Array_0 =~= Seq::empty());
        return Ok((v, first + 1));
    }
    let mut items: Vec<Value> = Vec::new();
    let mut at: usize = first;
    let ghost model = elements_at(b@, first as int, depth + 1);
    assert(models(items@) =~= Seq::empty());
    proof {
        lemma_more_nothing(model);
    }
    loop
        invariant
            i < first <= at <= b.len(),
            depth < MAX_DEPTH,
            model == elements_at(b@, first as int, depth + 1),
            model == more(models(items@), elements_at(b@, at as int, depth + 1)),
            array_at(b@, i as int, depth as int) == (match model {
                Ok((items, end)) => Ok::<(Json, int), ParseErrorView>((Json::Array(items), end)),
                Err(e) => Err(e),
            }),
        decreases b.len() - at,
    {
        let ghost before = models(items@);
        let value_start: usize = skip_ws(b, at);
        let (v, v_end) = match value(b, value_start, depth + 1) {
            Ok(r) => r,
            Err(e) => {
                return Err(e);
            },
        };
        let ghost item = v@;
        items.push(v);
        assert(models(items@) =~= before + seq![item]);
        let next: usize = skip_ws(b, v_end);
        if next >= b.len() {
            return Err(ParseError::Truncated);
        }
        if b[next] == 0x5D {
            let v = Value::Array(items);
            assert(v@->Array_0 =~= before + seq![item]);
            return Ok((v, next + 1));
        }
        if b[next] != 0x2C {
            return Err(ParseError::NotJson { at: next });
        }
        proof {
            lemma_more_twice(before, seq![item], elements_at(b@, next + 1, depth + 1));
        }
        at = next + 1;
    }
}

/// A list with something in front of it.
spec fn more<T>(
    s: Seq<T>,
    r: Result<(Seq<T>, int), ParseErrorView>,
) -> Result<(Seq<T>, int), ParseErrorView> {
    match r {
        Ok((t, end)) => Ok((s + t, end)),
        Err(e) => Err(e),
    }
}

proof fn lemma_more_nothing<T>(r: Result<(Seq<T>, int), ParseErrorView>)
    ensures
        more(Seq::empty(), r) == r,
{
    if let Ok((t, end)) = r {
        assert(Seq::empty() + t =~= t);
    }
}

proof fn lemma_more_twice<T>(s: Seq<T>, t: Seq<T>, r: Result<(Seq<T>, int), ParseErrorView>)
    ensures
        more(s, more(t, r)) == more(s + t, r),
{
    if let Ok((u, end)) = r {
        assert(s + (t + u) =~= s + t + u);
    }
}

/// Parse one whole JSON document. Trailing whitespace is fine; trailing anything else is not.
pub fn parse(src: &str) -> (r: Result<Value, ParseError>)
    ensures
        match r {
            Ok(v) => document(encode_utf8(src@)) == Ok::<Json, ParseErrorView>(v@),
            Err(e) => document(encode_utf8(src@)) == Err::<Json, ParseErrorView>(e@),
        },
{
    let b = src.as_bytes();
    let start: usize = skip_ws(b, 0);
    let (v, v_end) = match value(b, start, 0) {
        Ok(r) => r,
        Err(e) => {
            return Err(e);
        },
    };
    let end: usize = skip_ws(b, v_end);
    if end != b.len() {
        return Err(ParseError::TrailingBytes { at: end });
    }
    Ok(v)
}

// ---- laws -----------------------------------------------------------------------------

/// Skipping whitespace in the first `n` bytes.
proof fn lemma_ws_end_of_prefix(b: Seq<u8>, n: int, i: int)
    requires
        0 <= i <= n <= b.len(),
    ensures
        ws_end(b.take(n), i) == if ws_end(b, i) < n {
            ws_end(b, i)
        } else {
            n
        },
    decreases b.len() - i,
{
    lemma_ws_end(b, i);
    if i < n {
        assert(b.take(n)[i] == b[i]);
        if is_ws(b[i]) {
            lemma_ws_end_of_prefix(b, n, i + 1);
        }
    }
}

/// Skipping digits goes forward and stays inside.
proof fn lemma_digits_end(b: Seq<u8>, i: int)
    ensures
        i <= digits_end(b, i),
        i <= b.len() ==> digits_end(b, i) <= b.len(),
    decreases b.len() - i,
{
    if 0 <= i < b.len() && is_digit(b[i]) {
        lemma_digits_end(b, i + 1);
    }
}

/// Skipping digits in the first `n` bytes.
proof fn lemma_digits_end_of_prefix(b: Seq<u8>, n: int, i: int)
    requires
        0 <= i <= n <= b.len(),
    ensures
        digits_end(b.take(n), i) == if digits_end(b, i) < n {
            digits_end(b, i)
        } else {
            n
        },
    decreases b.len() - i,
{
    lemma_digits_end(b, i);
    if i < n {
        assert(b.take(n)[i] == b[i]);
        if is_digit(b[i]) {
            lemma_digits_end_of_prefix(b, n, i + 1);
        }
    }
}

/// What reading the first `n` bytes may give where reading all of them gives `whole`: the same, if
/// it ends there; else that the bytes end early, or something that ends with them.
spec fn cut<T>(
    part: Result<(T, int), ParseErrorView>,
    whole: Result<(T, int), ParseErrorView>,
    n: int,
) -> bool {
    whole matches Ok((v, end)) ==> {
        ||| part == Err::<(T, int), ParseErrorView>(ParseErrorView::Truncated)
        ||| end <= n && part == whole
        ||| end > n && part is Ok && part->Ok_0.1 == n
    }
}

/// A string ends with its quote, so a part of it is cut short.
proof fn lemma_string_cut(b: Seq<u8>, n: int, i: int)
    requires
        0 <= i <= n <= b.len(),
    ensures
        cut(string_rest(b.take(n), i), string_rest(b, i), n),
        string_rest(b, i) matches Ok((s, end)) ==> i < end && (end > n ==> string_rest(b.take(n), i)
            is Err),
    decreases b.len() - i,
{
    let t = b.take(n);
    if string_rest(b, i) is Ok {
        if i < n {
            assert(t[i] == b[i]);
            if b[i] == 0x5C {
                if i + 1 < n {
                    assert(t[i + 1] == b[i + 1]);
                }
                if b[i + 1] == 0x75 {
                    if i + 6 <= n {
                        assert(t.subrange(i + 2, i + 6) =~= b.subrange(i + 2, i + 6));
                        lemma_string_cut(b, n, i + 6);
                    } else {
                        lemma_string_forward(b, i + 6);
                    }
                } else if i + 2 <= n {
                    lemma_string_cut(b, n, i + 2);
                } else {
                    lemma_string_forward(b, i + 2);
                }
            } else if b[i] != 0x22 {
                let end = i + sequence_len(b[i]);
                if end <= n {
                    assert(t.subrange(i, end) =~= b.subrange(i, end));
                    lemma_string_cut(b, n, end);
                } else {
                    lemma_string_forward(b, end);
                }
            }
        } else {
            lemma_string_forward(b, i);
        }
    }
}

/// A string ends past where it begins.
proof fn lemma_string_forward(b: Seq<u8>, i: int)
    requires
        0 <= i,
    ensures
        string_rest(b, i) matches Ok((s, end)) ==> i < end <= b.len(),
    decreases b.len() - i,
{
    if string_rest(b, i) is Ok && b[i] != 0x22 {
        if b[i] == 0x5C {
            if b[i + 1] == 0x75 {
                lemma_string_forward(b, i + 6);
            } else {
                lemma_string_forward(b, i + 2);
            }
        } else {
            lemma_string_forward(b, i + sequence_len(b[i]));
        }
    }
}

/// What is read ends past where it begins.
proof fn lemma_value_forward(b: Seq<u8>, i: int, depth: int)
    requires
        0 <= i,
    ensures
        value_at(b, i, depth) matches Ok((v, end)) ==> i < end <= b.len(),
    decreases b.len() - i, 2int,
{
    if value_at(b, i, depth) is Ok {
        if b[i] == 0x7B || b[i] == 0x5B {
            let first = ws_end(b, i + 1);
            lemma_ws_end(b, i + 1);
            if b[i] == 0x7B && b[first] != 0x7D {
                lemma_members_forward(b, first, depth + 1);
            } else if b[i] == 0x5B && b[first] != 0x5D {
                lemma_elements_forward(b, first, depth + 1);
            }
        } else if b[i] == 0x22 {
            lemma_string_forward(b, i + 1);
        } else if b[i] == 0x74 || b[i] == 0x66 || b[i] == 0x6E {
        } else {
            lemma_number_forward(b, i);
        }
    }
}

proof fn lemma_members_forward(b: Seq<u8>, i: int, depth: int)
    requires
        0 <= i,
    ensures
        members_at(b, i, depth) matches Ok((pairs, end)) ==> i < end <= b.len(),
    decreases b.len() - i, 3int,
{
    if members_at(b, i, depth) is Ok {
        lemma_ws_end(b, i);
        let at = ws_end(b, i);
        lemma_string_forward(b, at + 1);
        let key_end = string_at(b, at)->Ok_0.1;
        let colon = ws_end(b, key_end);
        lemma_ws_end(b, key_end);
        lemma_ws_end(b, colon + 1);
        let from = ws_end(b, colon + 1);
        lemma_value_forward(b, from, depth);
        let v_end = value_at(b, from, depth)->Ok_0.1;
        lemma_ws_end(b, v_end);
        let next = ws_end(b, v_end);
        if b[next] != 0x7D {
            lemma_members_forward(b, next + 1, depth);
        }
    }
}

proof fn lemma_elements_forward(b: Seq<u8>, i: int, depth: int)
    requires
        0 <= i,
    ensures
        elements_at(b, i, depth) matches Ok((items, end)) ==> i < end <= b.len(),
    decreases b.len() - i, 3int,
{
    if elements_at(b, i, depth) is Ok {
        lemma_ws_end(b, i);
        let from = ws_end(b, i);
        lemma_value_forward(b, from, depth);
        let v_end = value_at(b, from, depth)->Ok_0.1;
        lemma_ws_end(b, v_end);
        let next = ws_end(b, v_end);
        if b[next] != 0x5D {
            lemma_elements_forward(b, next + 1, depth);
        }
    }
}

proof fn lemma_number_forward(b: Seq<u8>, i: int)
    requires
        0 <= i < b.len(),
    ensures
        number_at(b, i) matches Ok((v, end)) ==> i < end <= b.len(),
{
    let from = if b[i] == 0x2D {
        i + 1
    } else {
        i
    };
    let whole = digits_end(b, from);
    lemma_digits_end(b, from);
    lemma_digits_end(b, whole + 1);
    let fraction = if whole < b.len() && b[whole] == 0x2E {
        digits_end(b, whole + 1)
    } else {
        whole
    };
    lemma_digits_end(b, fraction + 1);
    lemma_digits_end(b, fraction + 2);
}

/// A part of a number is a number, or a sign alone.
proof fn lemma_number_cut(b: Seq<u8>, n: int, i: int)
    requires
        0 <= i < n <= b.len(),
    ensures
        cut(number_at(b.take(n), i), number_at(b, i), n),
{
    let t = b.take(n);
    assert(t[i] == b[i]);
    if number_at(b, i) is Ok {
        let from = if b[i] == 0x2D {
            i + 1
        } else {
            i
        };
        let whole = digits_end(b, from);
        lemma_digits_end(b, from);
        lemma_digits_end_of_prefix(b, n, from);
        let fraction = if whole < b.len() && b[whole] == 0x2E {
            digits_end(b, whole + 1)
        } else {
            whole
        };
        if whole < b.len() {
            lemma_digits_end(b, whole + 1);
        }
        if whole < n {
            assert(t[whole] == b[whole]);
            lemma_digits_end_of_prefix(b, n, whole + 1);
        }
        if fraction < b.len() {
            lemma_digits_end(b, fraction + 1);
            if fraction + 1 < b.len() {
                lemma_digits_end(b, fraction + 2);
            }
        }
        if fraction < n {
            assert(t[fraction] == b[fraction]);
            lemma_digits_end_of_prefix(b, n, fraction + 1);
            if fraction + 1 < n {
                assert(t[fraction + 1] == b[fraction + 1]);
                lemma_digits_end_of_prefix(b, n, fraction + 2);
            }
        }
        let end = number_at(b, i)->Ok_0.1;
        if end <= n {
            assert(t.subrange(i, end) =~= b.subrange(i, end));
        }
    }
}

/// A part of a word is cut short.
proof fn lemma_word_cut(b: Seq<u8>, n: int, i: int, word: Seq<u8>, v: Json)
    requires
        0 <= i < n <= b.len(),
        word.len() > 0,
    ensures
        cut(word_at(b.take(n), i, word, v), word_at(b, i, word, v), n),
{
    let t = b.take(n);
    if word.is_prefix_of(b.skip(i)) {
        let end = i + word.len();
        assert(b.skip(i).take(word.len() as int) =~= word);
        if end <= n {
            assert(t.skip(i).take(word.len() as int) =~= b.skip(i).take(word.len() as int));
            assert(word.is_prefix_of(t.skip(i)));
        } else {
            assert(t.skip(i) =~= word.take(n - i)) by {
                assert forall|k: int| 0 <= k < n - i implies t.skip(i)[k] == word[k] by {
                    assert(b.skip(i).take(word.len() as int)[k] == word[k]);
                }
            }
            assert(t.skip(i).is_prefix_of(word));
            assert(!word.is_prefix_of(t.skip(i)));
        }
    }
}

/// A part of a value is cut short, or is a number that ends with the part.
#[verifier::spinoff_prover]
#[verifier::rlimit(60)]
proof fn lemma_value_cut(b: Seq<u8>, n: int, i: int, depth: int)
    requires
        0 <= i <= n <= b.len(),
    ensures
        cut(value_at(b.take(n), i, depth), value_at(b, i, depth), n),
    decreases b.len() - i, 2int,
{
    let t = b.take(n);
    if value_at(b, i, depth) is Ok && i < n {
        assert(t[i] == b[i]);
        if b[i] == 0x7B || b[i] == 0x5B {
            let first = ws_end(b, i + 1);
            lemma_ws_end(b, i + 1);
            lemma_ws_end_of_prefix(b, n, i + 1);
            if first < n {
                assert(t[first] == b[first]);
                if b[i] == 0x7B && b[first] != 0x7D {
                    lemma_members_cut(b, n, first, depth + 1);
                } else if b[i] == 0x5B && b[first] != 0x5D {
                    lemma_elements_cut(b, n, first, depth + 1);
                }
            }
        } else if b[i] == 0x22 {
            lemma_string_cut(b, n, i + 1);
        } else if b[i] == 0x74 {
            lemma_word_cut(b, n, i, true_word(), Json::Bool(true));
        } else if b[i] == 0x66 {
            lemma_word_cut(b, n, i, false_word(), Json::Bool(false));
        } else if b[i] == 0x6E {
            lemma_word_cut(b, n, i, null_word(), Json::Null);
        } else {
            lemma_number_cut(b, n, i);
        }
    }
}

#[verifier::spinoff_prover]
#[verifier::rlimit(60)]
proof fn lemma_members_cut(b: Seq<u8>, n: int, i: int, depth: int)
    requires
        0 <= i < n <= b.len(),
    ensures
        cut(members_at(b.take(n), i, depth), members_at(b, i, depth), n),
    decreases b.len() - i, 3int,
{
    let t = b.take(n);
    if members_at(b, i, depth) is Ok {
        let at = ws_end(b, i);
        lemma_ws_end(b, i);
        lemma_ws_end_of_prefix(b, n, i);
        lemma_string_forward(b, at + 1);
        let key_end = string_at(b, at)->Ok_0.1;
        let colon = ws_end(b, key_end);
        lemma_ws_end(b, key_end);
        let from = ws_end(b, colon + 1);
        lemma_ws_end(b, colon + 1);
        lemma_value_forward(b, from, depth);
        let v_end = value_at(b, from, depth)->Ok_0.1;
        let next = ws_end(b, v_end);
        lemma_ws_end(b, v_end);
        assert(depth < MAX_DEPTH);
        lemma_nothing_at_the_end(t, depth);
        if at >= n {
            assert(string_at(t, n) is Err);
        } else {
            assert(t[at] == b[at]);
            lemma_string_cut(b, n, at + 1);
            if key_end > n {
                assert(string_at(t, at) == Err::<(Seq<char>, int), ParseErrorView>(
                    ParseErrorView::Truncated,
                ));
            } else if string_at(t, at) is Ok {
                assert(string_at(t, at) == string_at(b, at));
                lemma_ws_end_of_prefix(b, n, key_end);
                if colon < n {
                    assert(t[colon] == b[colon]);
                    lemma_ws_end_of_prefix(b, n, colon + 1);
                    if from < n {
                        lemma_value_cut(b, n, from, depth);
                        lemma_after_value_cut(b, n, i, from, depth);
                        if v_end <= n && next < n && b[next] != 0x7D && next + 1 < n {
                            lemma_members_cut(b, n, next + 1, depth);
                        }
                    } else {
                        assert(ws_end(t, colon + 1) == n);
                    }
                }
            }
        }
    }
}

/// Where the bytes end there is no value, no member and no element.
proof fn lemma_nothing_at_the_end(t: Seq<u8>, depth: int)
    requires
        depth < MAX_DEPTH,
    ensures
        value_at(t, t.len() as int, depth) == Err::<(Json, int), ParseErrorView>(
            ParseErrorView::Truncated,
        ),
        elements_at(t, t.len() as int, depth) == Err::<(Seq<Json>, int), ParseErrorView>(
            ParseErrorView::Truncated,
        ),
        members_at(t, t.len() as int, depth) == Err::<
            (Seq<(Seq<char>, Json)>, int),
            ParseErrorView,
        >(ParseErrorView::Truncated),
{
    assert(ws_end(t, t.len() as int) == t.len());
    assert(value_at(t, t.len() as int, depth) == Err::<(Json, int), ParseErrorView>(
        ParseErrorView::Truncated,
    ));
}

/// What follows a value, in the part.
proof fn lemma_after_value_cut(b: Seq<u8>, n: int, i: int, from: int, depth: int)
    requires
        0 <= i <= from <= n <= b.len(),
        cut(value_at(b.take(n), from, depth), value_at(b, from, depth), n),
        value_at(b, from, depth) is Ok,
    ensures
        value_at(b.take(n), from, depth) matches Ok((v, end)) ==> {
            let v_end = value_at(b, from, depth)->Ok_0.1;
            let next = ws_end(b, v_end);
            &&& ws_end(b.take(n), end) == if v_end <= n && next < n {
                next
            } else {
                n
            }
            &&& v_end <= n && next < n ==> b.take(n)[next] == b[next] && v == value_at(
                b,
                from,
                depth,
            )->Ok_0.0 && next > i
        },
{
    let t = b.take(n);
    lemma_value_forward(b, from, depth);
    let v_end = value_at(b, from, depth)->Ok_0.1;
    lemma_ws_end(b, v_end);
    if v_end <= n {
        lemma_ws_end_of_prefix(b, n, v_end);
    }
}

#[verifier::spinoff_prover]
#[verifier::rlimit(40)]
proof fn lemma_elements_cut(b: Seq<u8>, n: int, i: int, depth: int)
    requires
        0 <= i < n <= b.len(),
    ensures
        cut(elements_at(b.take(n), i, depth), elements_at(b, i, depth), n),
    decreases b.len() - i, 3int,
{
    let t = b.take(n);
    if elements_at(b, i, depth) is Ok {
        let from = ws_end(b, i);
        lemma_ws_end(b, i);
        lemma_ws_end_of_prefix(b, n, i);
        assert(depth < MAX_DEPTH);
        lemma_nothing_at_the_end(t, depth);
        if from < n {
            lemma_value_cut(b, n, from, depth);
            lemma_after_value_cut(b, n, i, from, depth);
            let v_end = value_at(b, from, depth)->Ok_0.1;
            let next = ws_end(b, v_end);
            lemma_value_forward(b, from, depth);
            lemma_ws_end(b, v_end);
            if next < n && b[next] != 0x5D && next + 1 < n {
                lemma_elements_cut(b, n, next + 1, depth);
            }
        } else {
            assert(ws_end(t, i) == n);
        }
    }
}

/// A document that has only partly arrived is never mistaken for something that is not one: the
/// first bytes of a document are a document themselves, or they are cut short. So a caller that
/// reads a reply as it comes can wait on that error, and must not on any other.
pub proof fn lemma_a_partial_document_can_be_waited_on(b: Seq<u8>, n: int)
    requires
        document(b) is Ok,
        0 <= n <= b.len(),
    ensures
        document(b.take(n)) is Ok || document(b.take(n)) == Err::<Json, ParseErrorView>(
            ParseErrorView::Truncated,
        ),
{
    let t = b.take(n);
    let from = ws_end(b, 0);
    lemma_ws_end(b, 0);
    lemma_ws_end_of_prefix(b, n, 0);
    if from <= n {
        lemma_value_cut(b, n, from, 0);
        lemma_value_forward(b, from, 0);
        let v_end = value_at(b, from, 0)->Ok_0.1;
        if v_end <= n {
            lemma_ws_end_of_prefix(b, n, v_end);
        }
        lemma_ws_end(t, n);
    }
}

/// The pair with a key that is not looked for changes nothing.
proof fn lemma_field_insert(
    pairs: Seq<(Seq<char>, Json)>,
    i: int,
    extra: (Seq<char>, Json),
    key: Seq<char>,
)
    requires
        0 <= i <= pairs.len(),
        extra.0 != key,
    ensures
        field_of(pairs.insert(i, extra), key) == field_of(pairs, key),
    decreases i,
{
    let more = pairs.insert(i, extra);
    if i == 0 {
        assert(more.drop_first() =~= pairs);
    } else {
        assert(more[0] == pairs[0]);
        assert(more.drop_first() =~= pairs.drop_first().insert(i - 1, extra));
        lemma_field_insert(pairs.drop_first(), i - 1, extra, key);
    }
}

/// No key occurs twice.
pub open spec fn distinct_keys(pairs: Seq<(Seq<char>, Json)>) -> bool {
    forall|i: int, j: int|
        0 <= i < j < pairs.len() ==> (#[trigger] pairs[i]).0 != (#[trigger] pairs[j]).0
}

/// Where no key occurs twice, a field is the pair with its key.
pub proof fn lemma_field_is_the_pair(pairs: Seq<(Seq<char>, Json)>, key: Seq<char>)
    requires
        distinct_keys(pairs),
    ensures
        match field_of(pairs, key) {
            Some(v) => pairs.contains((key, v)),
            None => forall|i: int| 0 <= i < pairs.len() ==> (#[trigger] pairs[i]).0 != key,
        },
    decreases pairs.len(),
{
    if pairs.len() > 0 {
        let later = pairs.drop_first();
        if pairs[0].0 == key {
            assert(pairs[0] == (key, pairs[0].1));
        } else {
            lemma_field_is_the_pair(later, key);
            match field_of(later, key) {
                Some(v) => {
                    let i = choose|i: int| 0 <= i < later.len() && later[i] == (key, v);
                    assert(pairs[i + 1] == (key, v));
                },
                None => {
                    assert forall|i: int| 0 <= i < pairs.len() implies (#[trigger] pairs[i]).0
                        != key by {
                        if i > 0 {
                            assert(later[i - 1] == pairs[i]);
                        }
                    }
                },
            }
        }
    }
}

/// Field order does not matter: two objects with the same pairs, in whatever order, have the same
/// fields.
pub proof fn lemma_field_order_does_not_matter(
    pairs: Seq<(Seq<char>, Json)>,
    shuffled: Seq<(Seq<char>, Json)>,
    key: Seq<char>,
)
    requires
        distinct_keys(pairs),
        distinct_keys(shuffled),
        forall|p: (Seq<char>, Json)| pairs.contains(p) <==> #[trigger] shuffled.contains(p),
    ensures
        field_of(pairs, key) == field_of(shuffled, key),
{
    lemma_field_is_the_pair(pairs, key);
    lemma_field_is_the_pair(shuffled, key);
    match (field_of(pairs, key), field_of(shuffled, key)) {
        (Some(v), Some(w)) => {
            assert(shuffled.contains((key, v)));
            let i = choose|i: int| 0 <= i < shuffled.len() && shuffled[i] == (key, v);
            let j = choose|j: int| 0 <= j < shuffled.len() && shuffled[j] == (key, w);
            assert(shuffled[i].0 == shuffled[j].0);
        },
        (Some(v), None) => {
            assert(shuffled.contains((key, v)));
        },
        (None, Some(w)) => {
            assert(shuffled.contains((key, w)));
            assert(pairs.contains((key, w)));
        },
        _ => {},
    }
}

/// Unknown fields are ignored: a pair with another key, wherever it stands, changes no field.
pub proof fn lemma_unknown_fields_are_ignored(
    pairs: Seq<(Seq<char>, Json)>,
    i: int,
    extra: (Seq<char>, Json),
    key: Seq<char>,
)
    requires
        0 <= i <= pairs.len(),
        extra.0 != key,
    ensures
        field_of(pairs.insert(i, extra), key) == field_of(pairs, key),
{
    lemma_field_insert(pairs, i, extra, key);
}

/// A byte spells the hexadecimal digit `d`, in either case.
pub open spec fn spells_digit(byte: u8, d: int) -> bool {
    ||| 0 <= d <= 9 && byte == 48 + d
    ||| 10 <= d <= 15 && (byte == 55 + d || byte == 87 + d)
}

/// Bytes by which a string may spell a character: the character itself, a short escape, or four
/// hexadecimal digits.
pub open spec fn spells(part: Seq<u8>, c: char) -> bool {
    ||| c as int >= 0x20 && c != '"' && c != '\\' && part == encode_utf8(seq![c])
    ||| part == seq![0x5Cu8, 0x22] && c == '"'
    ||| part == seq![0x5Cu8, 0x5C] && c == '\\'
    ||| part == seq![0x5Cu8, 0x2F] && c == '/'
    ||| part == seq![0x5Cu8, 0x62] && c as int == 8
    ||| part == seq![0x5Cu8, 0x66] && c as int == 12
    ||| part == seq![0x5Cu8, 0x6E] && c as int == 10
    ||| part == seq![0x5Cu8, 0x72] && c as int == 13
    ||| part == seq![0x5Cu8, 0x74] && c as int == 9
    ||| {
        &&& part.len() == 6
        &&& part[0] == 0x5C
        &&& part[1] == 0x75
        &&& c as int <= 0xFFFF
        &&& spells_digit(part[2], c as int / 4096)
        &&& spells_digit(part[3], c as int / 256 % 16)
        &&& spells_digit(part[4], c as int / 16 % 16)
        &&& spells_digit(part[5], c as int % 16)
    }
}

/// A hexadecimal digit has one value, and no other byte has any.
pub proof fn lemma_what_a_hex_digit_is_worth(byte: u8, d: int)
    ensures
        spells_digit(byte, d) <==> hex_digit(byte) == Some(d),
        hex_digit(byte) is None <==> !(48 <= byte <= 57 || 65 <= byte <= 70 || 97 <= byte
            <= 102),
{
}

/// Four hexadecimal digits are a number, the first the highest.
pub proof fn lemma_what_four_hex_digits_are_worth(
    s: Seq<u8>,
    first: int,
    second: int,
    third: int,
    fourth: int,
)
    requires
        s.len() == 4,
        spells_digit(s[0], first),
        spells_digit(s[1], second),
        spells_digit(s[2], third),
        spells_digit(s[3], fourth),
    ensures
        unicode_escape(s) == Some(4096 * first + 256 * second + 16 * third + fourth),
{
    reveal_with_fuel(hex_value, 5);
    assert(s.drop_last().drop_last().drop_last().drop_last().len() == 0);
    assert(s.drop_last().drop_last().drop_last().last() == s[0]);
    assert(s.drop_last().drop_last().last() == s[1]);
    assert(s.drop_last().last() == s[2]);
}

/// A plus sign may stand in place of the first of four hexadecimal digits.
pub proof fn lemma_what_a_plus_and_three_hex_digits_are_worth(
    s: Seq<u8>,
    first: int,
    second: int,
    third: int,
)
    requires
        s.len() == 4,
        s[0] == 0x2B,
        spells_digit(s[1], first),
        spells_digit(s[2], second),
        spells_digit(s[3], third),
    ensures
        unicode_escape(s) == Some(256 * first + 16 * second + third),
{
    reveal_with_fuel(hex_value, 4);
    let t = s.skip(1);
    assert(t.drop_last().drop_last().drop_last().len() == 0);
    assert(t.drop_last().drop_last().last() == s[1]);
    assert(t.drop_last().last() == s[2]);
}

/// An escape with a byte that is no hexadecimal digit is worth nothing.
pub proof fn lemma_a_bad_hex_digit_spoils_an_escape(s: Seq<u8>, at: int)
    requires
        s.len() == 4,
        0 <= at < 4,
        s[at] != 0x2B || at > 0,
        !(48 <= s[at] <= 57 || 65 <= s[at] <= 70 || 97 <= s[at] <= 102),
    ensures
        unicode_escape(s) is None,
{
    reveal_with_fuel(hex_value, 5);
    let t = s.skip(1);
    assert(s.drop_last().drop_last().drop_last().last() == s[0]);
    assert(s.drop_last().drop_last().last() == s[1]);
    assert(s.drop_last().last() == s[2]);
    assert(t.drop_last().drop_last().last() == s[1]);
    assert(t.drop_last().last() == s[2]);
    assert(t.last() == s[3]);
}

/// An escaped number is the character of that number. Half of a surrogate pair is no character,
/// and becomes the replacement character.
pub proof fn lemma_which_character_an_escape_is(n: int)
    requires
        0 <= n <= 0xFFFF,
    ensures
        0xD800 <= n < 0xE000 ==> code_unit_char(n) as int == 0xFFFD,
        n < 0xD800 || 0xE000 <= n ==> code_unit_char(n) as int == n,
{
}

/// The characters that a backslash and one more byte stand for, and nothing else.
pub proof fn lemma_what_a_short_escape_stands_for(e: u8, c: char)
    ensures
        short_escape(e) == Some(c) <==> {
            ||| e == 0x22 && c as int == 0x22
            ||| e == 0x5C && c as int == 0x5C
            ||| e == 0x2F && c as int == 0x2F
            ||| e == 0x62 && c as int == 8
            ||| e == 0x66 && c as int == 12
            ||| e == 0x6E && c as int == 10
            ||| e == 0x72 && c as int == 13
            ||| e == 0x74 && c as int == 9
        },
{
}

proof fn lemma_a_raw_character(c: char)
    requires
        c as int >= 0x20,
        c != '"',
        c != '\\',
    ensures
        ({
            let e = encode_utf8(seq![c]);
            &&& e.len() == sequence_len(e[0]) >= 1
            &&& e[0] >= 0x20
            &&& e[0] != 0x22
            &&& e[0] != 0x5C
            &&& valid_utf8(e)
            &&& decode_utf8(e) == seq![c]
        }),
{
    let s = seq![c];
    let e = encode_utf8(s);
    encode_utf8_valid_utf8(s);
    encode_utf8_decode_utf8(s);
    encode_utf8_first_scalar(s);
    assert(s.drop_first().len() == 0);
    assert(encode_utf8(s.drop_first()) =~= Seq::<u8>::empty());
    assert(e =~= encode_scalar(c as u32));
    if (c as int) < 0x80 {
        assert(is_ascii_chars(s));
        is_ascii_chars_encode_utf8(s);
        assert(e[0] == s[0] as u8);
    }
}

#[verifier::spinoff_prover]
#[verifier::rlimit(40)]
proof fn lemma_a_spelled_character(b: Seq<u8>, i: int, part: Seq<u8>, c: char)
    requires
        spells(part, c),
        0 <= i,
        i + part.len() <= b.len(),
        b.subrange(i, i + part.len()) == part,
    ensures
        part.len() >= 1,
        string_rest(b, i) == prepend(seq![c], string_rest(b, i + part.len())),
{
    if c as int >= 0x20 && c != '"' && c != '\\' && part == encode_utf8(seq![c]) {
        lemma_a_raw_character(c);
        lemma_stands_at(b, i, part, 0);
    } else if part.len() == 2 {
        lemma_stands_at(b, i, part, 0);
        lemma_stands_at(b, i, part, 1);
        lemma_what_a_short_escape_stands_for(part[1], c);
    } else {
        lemma_an_escaped_number(b, i, part, c);
    }
}

proof fn lemma_an_escaped_number(b: Seq<u8>, i: int, part: Seq<u8>, c: char)
    requires
        stands(b, i, part),
        part.len() == 6,
        part[0] == 0x5C,
        part[1] == 0x75,
        c as int <= 0xFFFF,
        spells_digit(part[2], c as int / 4096),
        spells_digit(part[3], c as int / 256 % 16),
        spells_digit(part[4], c as int / 16 % 16),
        spells_digit(part[5], c as int % 16),
    ensures
        string_rest(b, i) == prepend(seq![c], string_rest(b, i + 6)),
{
    let s = b.subrange(i + 2, i + 6);
    lemma_stands_at(b, i, part, 0);
    lemma_stands_at(b, i, part, 1);
    lemma_stands_at(b, i, part, 2);
    lemma_stands_at(b, i, part, 3);
    lemma_stands_at(b, i, part, 4);
    lemma_stands_at(b, i, part, 5);
    lemma_what_four_hex_digits_are_worth(
        s,
        c as int / 4096,
        c as int / 256 % 16,
        c as int / 16 % 16,
        c as int % 16,
    );
}

proof fn lemma_spelled_characters(b: Seq<u8>, i: int, parts: Seq<Seq<u8>>, s: Seq<char>)
    requires
        parts.len() == s.len(),
        forall|k: int| 0 <= k < s.len() ==> spells(#[trigger] parts[k], s[k]),
        0 <= i,
        i + parts.flatten().len() + 1 <= b.len(),
        b.subrange(i, i + parts.flatten().len() + 1) == parts.flatten() + seq![0x22u8],
    ensures
        string_rest(b, i) == Ok::<(Seq<char>, int), ParseErrorView>(
            (s, i + parts.flatten().len() + 1),
        ),
    decreases parts.len(),
{
    let all = parts.flatten();
    let text = b.subrange(i, i + all.len() + 1);
    if parts.len() == 0 {
        assert(text[0] == b[i]);
        assert(s =~= Seq::<char>::empty());
    } else {
        let part = parts[0];
        let rest = parts.drop_first();
        assert(all == part + rest.flatten());
        assert(b.subrange(i, i + part.len()) =~= part) by {
            assert forall|k: int| 0 <= k < part.len() implies b[i + k] == part[k] by {
                assert(text[k] == (all + seq![0x22u8])[k]);
            }
        }
        lemma_a_spelled_character(b, i, part, s[0]);
        let next = i + part.len();
        assert(b.subrange(next, next + rest.flatten().len() + 1) =~= rest.flatten() + seq![
            0x22u8,
        ]) by {
            assert forall|k: int|
                0 <= k < rest.flatten().len() + 1 implies b[next + k] == (rest.flatten() + seq![
                0x22u8,
            ])[k] by {
                assert(text[part.len() + k] == (all + seq![0x22u8])[part.len() + k]);
            }
        }
        assert forall|k: int| 0 <= k < s.drop_first().len() implies spells(
            #[trigger] rest[k],
            s.drop_first()[k],
        ) by {
            assert(parts[k + 1] == rest[k]);
        }
        lemma_spelled_characters(b, next, rest, s.drop_first());
        assert(seq![s[0]] + s.drop_first() =~= s);
    }
}

/// A string reads back as the characters that stand between its quotes, however each is spelled.
pub proof fn lemma_a_string_reads_back(b: Seq<u8>, i: int, parts: Seq<Seq<u8>>, s: Seq<char>)
    requires
        parts.len() == s.len(),
        forall|k: int| 0 <= k < s.len() ==> spells(#[trigger] parts[k], s[k]),
        0 <= i,
        i + parts.flatten().len() + 2 <= b.len(),
        b.subrange(i, i + parts.flatten().len() + 2) == seq![0x22u8] + parts.flatten() + seq![
            0x22u8,
        ],
    ensures
        string_at(b, i) == Ok::<(Seq<char>, int), ParseErrorView>(
            (s, i + parts.flatten().len() + 2),
        ),
{
    let all = parts.flatten();
    let text = b.subrange(i, i + all.len() + 2);
    assert(text[0] == b[i]);
    assert(b.subrange(i + 1, i + 1 + all.len() + 1) =~= all + seq![0x22u8]) by {
        assert forall|k: int| 0 <= k < all.len() + 1 implies b[i + 1 + k] == (all + seq![0x22u8])[k] by {
            assert(text[k + 1] == (seq![0x22u8] + all + seq![0x22u8])[k + 1]);
        }
    }
    lemma_spelled_characters(b, i + 1, parts, s);
}

/// What a string may not hold is refused where it stands: a control character, and a backslash
/// before a byte that makes no escape with it.
pub proof fn lemma_what_a_string_may_not_hold(b: Seq<u8>, i: int)
    requires
        0 <= i,
        i + 1 < b.len(),
        b[i] == 0x22,
    ensures
        b[i + 1] < 0x20 ==> string_at(b, i) == Err::<(Seq<char>, int), ParseErrorView>(
            ParseErrorView::NotJson { at: i + 1 },
        ),
        b[i + 1] == 0x5C && i + 2 == b.len() ==> string_at(b, i) == Err::<
            (Seq<char>, int),
            ParseErrorView,
        >(ParseErrorView::Truncated),
        b[i + 1] == 0x5C && i + 2 < b.len() && !seq![
            0x22u8,
            0x5C,
            0x2F,
            0x62,
            0x66,
            0x6E,
            0x72,
            0x74,
            0x75,
        ].contains(b[i + 2]) ==> string_at(b, i) == Err::<(Seq<char>, int), ParseErrorView>(
            ParseErrorView::NotJson { at: i + 3 },
        ),
        b[i + 1] == 0x5C && i + 2 < b.len() < i + 7 && b[i + 2] == 0x75 ==> string_at(b, i)
            == Err::<(Seq<char>, int), ParseErrorView>(ParseErrorView::Truncated),
{
    let known = seq![0x22u8, 0x5C, 0x2F, 0x62, 0x66, 0x6E, 0x72, 0x74, 0x75];
    assert(known[0] == 0x22 && known[1] == 0x5C && known[2] == 0x2F && known[3] == 0x62 && known[4]
        == 0x66 && known[5] == 0x6E && known[6] == 0x72 && known[7] == 0x74 && known[8] == 0x75);
}

/// `t` stands in `b` from `i` on.
pub open spec fn stands(b: Seq<u8>, i: int, t: Seq<u8>) -> bool {
    0 <= i && i + t.len() <= b.len() && b.subrange(i, i + t.len()) == t
}

proof fn lemma_stands_at(b: Seq<u8>, i: int, t: Seq<u8>, k: int)
    requires
        stands(b, i, t),
        0 <= k < t.len(),
    ensures
        b[i + k] == t[k],
{
    assert(b.subrange(i, i + t.len())[k] == b[i + k]);
}

proof fn lemma_both_stand(b: Seq<u8>, i: int, s: Seq<u8>, t: Seq<u8>)
    requires
        stands(b, i, s + t),
    ensures
        stands(b, i, s),
        stands(b, i + s.len(), t),
{
    let all = s + t;
    assert forall|k: int| 0 <= k < all.len() implies b[i + k] == #[trigger] all[k] by {
        lemma_stands_at(b, i, all, k);
    }
    assert forall|k: int| 0 <= k < s.len() implies b[i + k] == #[trigger] s[k] by {
        assert(all[k] == s[k]);
    }
    assert forall|k: int| 0 <= k < t.len() implies b[i + s.len() + k] == #[trigger] t[k] by {
        assert(all[s.len() + k] == t[k]);
    }
    assert(b.subrange(i, i + s.len()) =~= s);
    assert(b.subrange(i + s.len(), i + s.len() + t.len()) =~= t);
}

/// Bytes that only space values apart: spaces, tabs and line ends.
pub open spec fn blank(w: Seq<u8>) -> bool {
    forall|k: int|
        0 <= k < w.len() ==> (#[trigger] w[k] == 32 || w[k] == 9 || w[k] == 10 || w[k] == 13)
}

/// Bytes that are decimal digits.
pub open spec fn digits(t: Seq<u8>) -> bool {
    forall|k: int| 0 <= k < t.len() ==> 48 <= #[trigger] t[k] <= 57
}

/// White space ends before the first byte that is none.
pub proof fn lemma_where_white_space_ends(b: Seq<u8>, i: int, w: Seq<u8>)
    requires
        stands(b, i, w),
        blank(w),
        i + w.len() < b.len() ==> !blank(seq![b[i + w.len()]]),
    ensures
        ws_end(b, i) == i + w.len(),
    decreases w.len(),
{
    if w.len() == 0 {
        if i < b.len() {
            let next = seq![b[i]];
            assert(exists|k: int|
                0 <= k < next.len() && !(#[trigger] next[k] == 32 || next[k] == 9 || next[k] == 10
                    || next[k] == 13));
        }
    } else {
        lemma_stands_at(b, i, w, 0);
        assert(w =~= seq![w[0]] + w.drop_first());
        lemma_both_stand(b, i, seq![w[0]], w.drop_first());
        lemma_where_white_space_ends(b, i + 1, w.drop_first());
    }
}

proof fn lemma_where_digits_end(b: Seq<u8>, i: int, t: Seq<u8>)
    requires
        stands(b, i, t),
        digits(t),
        i + t.len() < b.len() ==> !(48 <= b[i + t.len()] <= 57),
    ensures
        digits_end(b, i) == i + t.len(),
    decreases t.len(),
{
    if t.len() > 0 {
        lemma_stands_at(b, i, t, 0);
        assert(t =~= seq![t[0]] + t.drop_first());
        lemma_both_stand(b, i, seq![t[0]], t.drop_first());
        lemma_where_digits_end(b, i + 1, t.drop_first());
    }
}

/// Nothing at `end` makes a number that ends there longer.
pub open spec fn ends_a_number(b: Seq<u8>, end: int) -> bool {
    end < b.len() ==> !(48 <= b[end] <= 57) && b[end] != 0x2E && b[end] != 0x65 && b[end] != 0x45
        && b[end] != 0x2B && b[end] != 0x2D
}

/// A number is kept as its text, whatever its sign, fraction and exponent.
#[verifier::spinoff_prover]
#[verifier::rlimit(40)]
pub proof fn lemma_a_number_reads_back(
    b: Seq<u8>,
    i: int,
    minus: Seq<u8>,
    whole: Seq<u8>,
    point: Seq<u8>,
    fraction: Seq<u8>,
    mark: Seq<u8>,
    sign: Seq<u8>,
    exponent: Seq<u8>,
)
    requires
        minus == seq![0x2Du8] || minus.len() == 0,
        digits(whole) && whole.len() > 0,
        point == seq![0x2Eu8] && digits(fraction) || point.len() == 0 && fraction.len() == 0,
        (mark == seq![0x65u8] || mark == seq![0x45u8]) && (sign == seq![0x2Bu8] || sign == seq![
            0x2Du8,
        ] || sign.len() == 0) && digits(exponent) || mark.len() == 0 && sign.len() == 0
            && exponent.len() == 0,
        stands(b, i, minus + (whole + (point + (fraction + (mark + (sign + exponent)))))),
        ends_a_number(
            b,
            i + minus.len() + whole.len() + point.len() + fraction.len() + mark.len() + sign.len()
                + exponent.len(),
        ),
    ensures
        ({
            let t = minus + (whole + (point + (fraction + (mark + (sign + exponent)))));
            value_at(b, i, 0) == Ok::<(Json, int), ParseErrorView>(
                (Json::Number(t.map_values(|c: u8| c as char)), i + t.len()),
            )
        }),
{
    let t = minus + (whole + (point + (fraction + (mark + (sign + exponent)))));
    let at_whole = i + minus.len();
    let at_point = at_whole + whole.len();
    let at_fraction = at_point + point.len();
    let at_mark = at_fraction + fraction.len();
    let at_sign = at_mark + mark.len();
    let at_exponent = at_sign + sign.len();
    let end = at_exponent + exponent.len();
    lemma_both_stand(b, i, minus, whole + (point + (fraction + (mark + (sign + exponent)))));
    lemma_both_stand(b, at_whole, whole, point + (fraction + (mark + (sign + exponent))));
    lemma_both_stand(b, at_point, point, fraction + (mark + (sign + exponent)));
    lemma_both_stand(b, at_fraction, fraction, mark + (sign + exponent));
    lemma_both_stand(b, at_mark, mark, sign + exponent);
    lemma_both_stand(b, at_sign, sign, exponent);
    lemma_stands_at(b, at_whole, whole, 0);
    if minus.len() > 0 {
        lemma_stands_at(b, i, minus, 0);
    }
    if point.len() > 0 {
        lemma_stands_at(b, at_point, point, 0);
    }
    if mark.len() > 0 {
        lemma_stands_at(b, at_mark, mark, 0);
    }
    if sign.len() > 0 {
        lemma_stands_at(b, at_sign, sign, 0);
    }
    if exponent.len() > 0 {
        lemma_stands_at(b, at_exponent, exponent, 0);
    }
    lemma_where_digits_end(b, at_whole, whole);
    if point.len() > 0 {
        lemma_where_digits_end(b, at_fraction, fraction);
    }
    if mark.len() > 0 {
        lemma_where_digits_end(b, at_exponent, exponent);
    }
    assert(b.subrange(i, end) =~= t);
    assert(text::ascii_text(t) =~= t.map_values(|c: u8| c as char));
}

/// The three words read as what they say, and a word cut short can be waited on.
pub proof fn lemma_the_words_read_back(b: Seq<u8>, i: int)
    ensures
        stands(b, i, seq![0x74u8, 0x72, 0x75, 0x65]) ==> value_at(b, i, 0) == Ok::<
            (Json, int),
            ParseErrorView,
        >((Json::Bool(true), i + 4)),
        stands(b, i, seq![0x66u8, 0x61, 0x6C, 0x73, 0x65]) ==> value_at(b, i, 0) == Ok::<
            (Json, int),
            ParseErrorView,
        >((Json::Bool(false), i + 5)),
        stands(b, i, seq![0x6Eu8, 0x75, 0x6C, 0x6C]) ==> value_at(b, i, 0) == Ok::<
            (Json, int),
            ParseErrorView,
        >((Json::Null, i + 4)),
{
    lemma_a_word_reads_back(b, i, 0);
}

proof fn lemma_a_word_reads_back(b: Seq<u8>, i: int, depth: int)
    requires
        depth < MAX_DEPTH,
    ensures
        stands(b, i, true_word()) ==> value_at(b, i, depth) == Ok::<(Json, int), ParseErrorView>(
            (Json::Bool(true), i + 4),
        ),
        stands(b, i, false_word()) ==> value_at(b, i, depth) == Ok::<(Json, int), ParseErrorView>(
            (Json::Bool(false), i + 5),
        ),
        stands(b, i, null_word()) ==> value_at(b, i, depth) == Ok::<(Json, int), ParseErrorView>(
            (Json::Null, i + 4),
        ),
{
    if stands(b, i, true_word()) {
        lemma_stands_at(b, i, true_word(), 0);
        assert(b.skip(i).subrange(0, 4) =~= b.subrange(i, i + 4));
    }
    if stands(b, i, false_word()) {
        lemma_stands_at(b, i, false_word(), 0);
        assert(b.skip(i).subrange(0, 5) =~= b.subrange(i, i + 5));
    }
    if stands(b, i, null_word()) {
        lemma_stands_at(b, i, null_word(), 0);
        assert(b.skip(i).subrange(0, 4) =~= b.subrange(i, i + 4));
    }
}

/// One way to spell a character in a string.
pub open spec fn spelled(c: char) -> Seq<u8> {
    if c == '"' {
        seq![0x5Cu8, 0x22]
    } else if c == '\\' {
        seq![0x5Cu8, 0x5C]
    } else if (c as int) < 0x20 {
        let low = c as int % 16;
        seq![
            0x5Cu8,
            0x75,
            48,
            48,
            (48 + c as int / 16) as u8,
            if low < 10 {
                (48 + low) as u8
            } else {
                (87 + low) as u8
            },
        ]
    } else {
        encode_utf8(seq![c])
    }
}

/// A string between its quotes.
pub open spec fn quoted(s: Seq<char>) -> Seq<u8> {
    seq![0x22u8] + s.map_values(|c: char| spelled(c)).flatten() + seq![0x22u8]
}

/// The text of a value, with `w` between every two parts of it.
pub open spec fn rendered(v: Json, w: Seq<u8>) -> Seq<u8>
    decreases v,
{
    match v {
        Json::Null => seq![0x6Eu8, 0x75, 0x6C, 0x6C],
        Json::Bool(true) => seq![0x74u8, 0x72, 0x75, 0x65],
        Json::Bool(false) => seq![0x66u8, 0x61, 0x6C, 0x73, 0x65],
        Json::Number(s) => s.map_values(|c: char| c as u8),
        Json::String(s) => quoted(s),
        Json::Array(items) => seq![0x5Bu8] + (w + if items.len() == 0 {
            seq![0x5Du8]
        } else {
            rendered_items(items, w)
        }),
        Json::Object(pairs) => seq![0x7Bu8] + (w + if pairs.len() == 0 {
            seq![0x7Du8]
        } else {
            rendered_pairs(pairs, w)
        }),
    }
}

/// The text of an array's items, with the bracket that closes it.
pub open spec fn rendered_items(items: Seq<Json>, w: Seq<u8>) -> Seq<u8>
    decreases items,
{
    if items.len() == 0 {
        Seq::empty()
    } else {
        rendered(items[0], w) + (w + if items.len() == 1 {
            seq![0x5Du8]
        } else {
            seq![0x2Cu8] + (w + rendered_items(items.drop_first(), w))
        })
    }
}

/// The text of an object's pairs, with the brace that closes it.
pub open spec fn rendered_pairs(pairs: Seq<(Seq<char>, Json)>, w: Seq<u8>) -> Seq<u8>
    decreases pairs,
{
    if pairs.len() == 0 {
        Seq::empty()
    } else {
        quoted(pairs[0].0) + (w + (seq![0x3Au8] + (w + (rendered(pairs[0].1, w) + (w + if pairs.len()
            == 1 {
            seq![0x7Du8]
        } else {
            seq![0x2Cu8] + (w + rendered_pairs(pairs.drop_first(), w))
        })))))
    }
}

/// A value that can stand `depth` levels deep: at most 32 levels in all, its numbers whole.
pub open spec fn can_stand(v: Json, depth: int) -> bool
    decreases v,
{
    &&& depth < 32
    &&& match v {
        Json::Number(s) => is_whole(s),
        Json::Array(items) => forall|i: int|
            0 <= i < items.len() ==> can_stand(#[trigger] items[i], depth + 1),
        Json::Object(pairs) => forall|i: int|
            0 <= i < pairs.len() ==> can_stand((#[trigger] pairs[i]).1, depth + 1),
        _ => true,
    }
}

/// The text of a whole number: digits, with or without a minus sign.
pub open spec fn is_whole(s: Seq<char>) -> bool {
    let from: int = if s.len() > 0 && s[0] == '-' {
        1
    } else {
        0
    };
    from < s.len() && forall|k: int| from <= k < s.len() ==> '0' <= #[trigger] s[k] <= '9'
}

proof fn lemma_spelled(c: char)
    ensures
        spells(spelled(c), c),
{
}

proof fn lemma_quoted_reads_back(b: Seq<u8>, i: int, s: Seq<char>)
    requires
        stands(b, i, quoted(s)),
    ensures
        string_at(b, i) == Ok::<(Seq<char>, int), ParseErrorView>((s, i + quoted(s).len())),
        quoted(s).len() >= 2,
        quoted(s)[0] == 0x22,
        b[i] == 0x22,
{
    let parts = s.map_values(|c: char| spelled(c));
    assert forall|k: int| 0 <= k < s.len() implies spells(#[trigger] parts[k], s[k]) by {
        lemma_spelled(s[k]);
    }
    lemma_stands_at(b, i, quoted(s), 0);
    lemma_a_string_reads_back(b, i, parts, s);
}

proof fn lemma_how_a_value_begins(v: Json, w: Seq<u8>, depth: int)
    requires
        can_stand(v, depth),
    ensures
        rendered(v, w).len() > 0,
        ({
            let c = rendered(v, w)[0];
            !is_ws(c) && c != 0x5D && c != 0x7D
        }),
{
    if let Json::Number(s) = v {
        assert('0' <= s[0] <= '9' || s[0] == '-');
        assert(rendered(v, w)[0] == s[0] as u8);
    }
}

proof fn lemma_whole_reads_back(b: Seq<u8>, i: int, s: Seq<char>, w: Seq<u8>, depth: int)
    requires
        is_whole(s),
        depth < 32,
        stands(b, i, rendered(Json::Number(s), w)),
        ends_a_number(b, i + s.len()),
    ensures
        value_at(b, i, depth) == Ok::<(Json, int), ParseErrorView>(
            (Json::Number(s), i + s.len()),
        ),
{
    let t = rendered(Json::Number(s), w);
    let e = Seq::<u8>::empty();
    let cut: int = if s[0] == '-' {
        1
    } else {
        0
    };
    let minus = t.take(cut);
    let whole = t.skip(cut);
    assert(digits(whole)) by {
        assert forall|k: int| 0 <= k < whole.len() implies 48 <= #[trigger] whole[k] <= 57 by {
            assert('0' <= s[cut + k] <= '9');
        }
    }
    if cut == 1 {
        assert(minus =~= seq![0x2Du8]);
    }
    let all = minus + (whole + (e + (e + (e + (e + e)))));
    assert(all =~= t);
    lemma_a_number_reads_back(b, i, minus, whole, e, e, e, e, e);
    assert(t.map_values(|c: u8| c as char) =~= s) by {
        assert forall|k: int| 0 <= k < s.len() implies t[k] as char == s[k] by {
            assert('0' <= s[k] <= '9' || s[k] == '-');
        }
    }
}

#[verifier::spinoff_prover]
#[verifier::rlimit(40)]
proof fn lemma_value_reads_back(b: Seq<u8>, i: int, v: Json, w: Seq<u8>, depth: int)
    requires
        0 <= depth,
        can_stand(v, depth),
        blank(w),
        stands(b, i, rendered(v, w)),
        ends_a_number(b, i + rendered(v, w).len()),
    ensures
        value_at(b, i, depth) == Ok::<(Json, int), ParseErrorView>(
            (v, i + rendered(v, w).len()),
        ),
    decreases v,
{
    let t = rendered(v, w);
    lemma_how_a_value_begins(v, w, depth);
    lemma_stands_at(b, i, t, 0);
    match v {
        Json::Null | Json::Bool(_) => {
            lemma_a_word_reads_back(b, i, depth);
        },
        Json::Number(s) => {
            lemma_whole_reads_back(b, i, s, w, depth);
        },
        Json::String(s) => {
            lemma_quoted_reads_back(b, i, s);
        },
        Json::Array(items) => {
            let rest = if items.len() == 0 {
                seq![0x5Du8]
            } else {
                rendered_items(items, w)
            };
            if items.len() > 0 {
                lemma_how_a_value_begins(items[0], w, depth + 1);
            }
            lemma_both_stand(b, i, seq![0x5Bu8], w + rest);
            lemma_both_stand(b, i + 1, w, rest);
            lemma_stands_at(b, i + 1 + w.len(), rest, 0);
            lemma_no_blank(rest[0]);
            lemma_where_white_space_ends(b, i + 1, w);
            if items.len() > 0 {
                lemma_items_read_back(b, i + 1 + w.len(), items, Seq::empty(), w, depth + 1);
            } else {
                assert(items =~= Seq::<Json>::empty());
            }
        },
        Json::Object(pairs) => {
            let rest = if pairs.len() == 0 {
                seq![0x7Du8]
            } else {
                rendered_pairs(pairs, w)
            };
            lemma_both_stand(b, i, seq![0x7Bu8], w + rest);
            lemma_both_stand(b, i + 1, w, rest);
            lemma_stands_at(b, i + 1 + w.len(), rest, 0);
            lemma_no_blank(rest[0]);
            lemma_where_white_space_ends(b, i + 1, w);
            if pairs.len() > 0 {
                lemma_pairs_read_back(b, i + 1 + w.len(), pairs, Seq::empty(), w, depth + 1);
            } else {
                assert(pairs =~= Seq::<(Seq<char>, Json)>::empty());
            }
        },
    }
}

proof fn lemma_no_blank(c: u8)
    ensures
        !is_ws(c) ==> !blank(seq![c]),
{
    let s = seq![c];
    assert(s[0] == c);
}

proof fn lemma_after_blank(b: Seq<u8>, i: int, w: Seq<u8>, rest: Seq<u8>)
    requires
        blank(w),
        stands(b, i, w + rest),
        rest.len() > 0,
        rest[0] == 0x2C || rest[0] == 0x5D || rest[0] == 0x7D,
    ensures
        ws_end(b, i) == i + w.len(),
        b[i + w.len()] == rest[0],
        ends_a_number(b, i),
        stands(b, i + w.len(), rest),
{
    lemma_both_stand(b, i, w, rest);
    lemma_stands_at(b, i + w.len(), rest, 0);
    lemma_no_blank(rest[0]);
    lemma_where_white_space_ends(b, i, w);
    if w.len() > 0 {
        lemma_stands_at(b, i, w, 0);
    }
}

proof fn lemma_items_read_back(
    b: Seq<u8>,
    i: int,
    items: Seq<Json>,
    gap: Seq<u8>,
    w: Seq<u8>,
    depth: int,
)
    requires
        0 <= depth,
        items.len() > 0,
        forall|k: int| 0 <= k < items.len() ==> can_stand(#[trigger] items[k], depth),
        blank(w),
        blank(gap),
        stands(b, i, gap + rendered_items(items, w)),
    ensures
        elements_at(b, i, depth) == Ok::<(Seq<Json>, int), ParseErrorView>(
            (items, i + gap.len() + rendered_items(items, w).len()),
        ),
    decreases items,
{
    let v = items[0];
    let first = rendered(v, w);
    let after = if items.len() == 1 {
        seq![0x5Du8]
    } else {
        seq![0x2Cu8] + (w + rendered_items(items.drop_first(), w))
    };
    let at = i + gap.len();
    let end = at + first.len();
    assert(rendered_items(items, w) == first + (w + after));
    lemma_both_stand(b, i, gap, first + (w + after));
    lemma_both_stand(b, at, first, w + after);
    lemma_how_a_value_begins(v, w, depth);
    lemma_stands_at(b, at, first, 0);
    lemma_no_blank(first[0]);
    lemma_where_white_space_ends(b, i, gap);
    lemma_after_blank(b, end, w, after);
    lemma_value_reads_back(b, at, v, w, depth);
    if items.len() == 1 {
        assert(seq![v] =~= items);
    } else {
        let rest = items.drop_first();
        lemma_both_stand(b, end + w.len(), seq![0x2Cu8], w + rendered_items(rest, w));
        lemma_items_read_back(b, end + w.len() + 1, rest, w, w, depth);
        assert(seq![v] + rest =~= items);
    }
}

#[verifier::spinoff_prover]
#[verifier::rlimit(40)]
proof fn lemma_pairs_read_back(
    b: Seq<u8>,
    i: int,
    pairs: Seq<(Seq<char>, Json)>,
    gap: Seq<u8>,
    w: Seq<u8>,
    depth: int,
)
    requires
        0 <= depth,
        pairs.len() > 0,
        forall|k: int| 0 <= k < pairs.len() ==> can_stand((#[trigger] pairs[k]).1, depth),
        blank(w),
        blank(gap),
        stands(b, i, gap + rendered_pairs(pairs, w)),
    ensures
        members_at(b, i, depth) == Ok::<(Seq<(Seq<char>, Json)>, int), ParseErrorView>(
            (pairs, i + gap.len() + rendered_pairs(pairs, w).len()),
        ),
    decreases pairs,
{
    let key = quoted(pairs[0].0);
    let v = pairs[0].1;
    let value = rendered(v, w);
    let after = if pairs.len() == 1 {
        seq![0x7Du8]
    } else {
        seq![0x2Cu8] + (w + rendered_pairs(pairs.drop_first(), w))
    };
    let at = i + gap.len();
    let key_end = at + key.len();
    let colon = key_end + w.len();
    let at_value = colon + 1 + w.len();
    let end = at_value + value.len();
    let from_value = value + (w + after);
    let from_colon = seq![0x3Au8] + (w + from_value);
    assert(rendered_pairs(pairs, w) == key + (w + from_colon));
    lemma_both_stand(b, i, gap, key + (w + from_colon));
    lemma_both_stand(b, at, key, w + from_colon);
    lemma_both_stand(b, key_end, w, from_colon);
    lemma_both_stand(b, colon, seq![0x3Au8], w + from_value);
    lemma_both_stand(b, colon + 1, w, from_value);
    lemma_both_stand(b, at_value, value, w + after);
    lemma_quoted_reads_back(b, at, pairs[0].0);
    lemma_no_blank(b[at]);
    lemma_where_white_space_ends(b, i, gap);
    lemma_stands_at(b, colon, seq![0x3Au8], 0);
    lemma_no_blank(0x3A);
    lemma_where_white_space_ends(b, key_end, w);
    lemma_how_a_value_begins(v, w, depth);
    lemma_stands_at(b, at_value, value, 0);
    lemma_no_blank(value[0]);
    lemma_where_white_space_ends(b, colon + 1, w);
    lemma_after_blank(b, end, w, after);
    lemma_value_reads_back(b, at_value, v, w, depth);
    if pairs.len() == 1 {
        assert(seq![(pairs[0].0, v)] =~= pairs);
    } else {
        let rest = pairs.drop_first();
        lemma_both_stand(b, end + w.len(), seq![0x2Cu8], w + rendered_pairs(rest, w));
        lemma_pairs_read_back(b, end + w.len() + 1, rest, w, w, depth);
        assert(seq![(pairs[0].0, v)] + rest =~= pairs);
    }
}

/// A document reads back as the value that it is the text of, however its parts are spaced, and
/// whatever follows the value in it is reported by its place.
pub proof fn lemma_a_document_reads_back(v: Json, w: Seq<u8>, tail: Seq<u8>)
    requires
        can_stand(v, 0),
        blank(w),
        tail.len() > 0 ==> !is_ws(tail[0]),
        ends_a_number(w + tail, 0),
    ensures
        document(w + (rendered(v, w) + (w + tail))) == if tail.len() == 0 {
            Ok::<Json, ParseErrorView>(v)
        } else {
            Err::<Json, ParseErrorView>(
                ParseErrorView::TrailingBytes {
                    at: w.len() + rendered(v, w).len() as int + w.len(),
                },
            )
        },
{
    let t = rendered(v, w);
    let b = w + (t + (w + tail));
    assert(b.subrange(0, b.len() as int) =~= b);
    lemma_both_stand(b, 0, w, t + (w + tail));
    lemma_both_stand(b, w.len() as int, t, w + tail);
    let end: int = w.len() + t.len() as int;
    lemma_both_stand(b, end, w, tail);
    lemma_how_a_value_begins(v, w, 0);
    lemma_stands_at(b, w.len() as int, t, 0);
    lemma_no_blank(t[0]);
    lemma_where_white_space_ends(b, 0, w);
    if w.len() + tail.len() > 0 {
        lemma_stands_at(b, end, w + tail, 0);
    }
    lemma_value_reads_back(b, w.len() as int, v, w, 0);
    if tail.len() > 0 {
        lemma_stands_at(b, end + w.len(), tail, 0);
        lemma_no_blank(tail[0]);
    }
    lemma_where_white_space_ends(b, end, w);
}

/// Values nested beyond 32 levels are refused as too deep.
pub proof fn lemma_too_deep_is_refused(b: Seq<u8>, at: int, depth: int)
    requires
        0 <= at,
        0 <= depth <= 32,
        at + 32 - depth < b.len(),
        forall|k: int| at <= k < at + 32 - depth ==> #[trigger] b[k] == 0x5B,
        !is_ws(b[at + 32 - depth]),
        b[at + 32 - depth] != 0x5D,
    ensures
        value_at(b, at, depth) == Err::<(Json, int), ParseErrorView>(ParseErrorView::TooDeep),
    decreases 32 - depth,
{
    if depth < 32 {
        assert(b[at] == 0x5B);
        assert(at + 1 < b.len());
        if depth < 31 {
            assert(b[at + 1] == 0x5B);
        }
        assert(ws_end(b, at + 1) == at + 1);
        lemma_too_deep_is_refused(b, at + 1, depth + 1);
    }
}

/// No value begins with any byte but those that begin one.
pub proof fn lemma_what_may_begin_a_value(b: Seq<u8>, i: int)
    requires
        0 <= i < b.len(),
        !(48 <= b[i] <= 57),
        !seq![0x7Bu8, 0x5B, 0x22, 0x74, 0x66, 0x6E, 0x2D].contains(b[i]),
    ensures
        value_at(b, i, 0) == Err::<(Json, int), ParseErrorView>(ParseErrorView::NotJson { at: i }),
{
    let known = seq![0x7Bu8, 0x5B, 0x22, 0x74, 0x66, 0x6E, 0x2D];
    assert(known[0] == 0x7B && known[1] == 0x5B && known[2] == 0x22 && known[3] == 0x74 && known[4]
        == 0x66 && known[5] == 0x6E && known[6] == 0x2D);
}

/// A minus sign needs a digit behind it.
pub proof fn lemma_a_minus_needs_a_digit(b: Seq<u8>, i: int)
    requires
        0 <= i < b.len(),
        b[i] == 0x2D,
        i + 1 < b.len() ==> !(48 <= b[i + 1] <= 57),
    ensures
        value_at(b, i, 0) == Err::<(Json, int), ParseErrorView>(
            if i + 1 < b.len() {
                ParseErrorView::NotJson { at: i + 1 }
            } else {
                ParseErrorView::Truncated
            },
        ),
{
}

/// A word that stops short at the end can be waited on, and one that goes wrong is refused where
/// it begins.
pub proof fn lemma_a_word_must_be_whole(b: Seq<u8>, i: int, word: Seq<u8>, n: int)
    requires
        word == seq![0x74u8, 0x72, 0x75, 0x65] || word == seq![0x66u8, 0x61, 0x6C, 0x73, 0x65]
            || word == seq![0x6Eu8, 0x75, 0x6C, 0x6C],
        0 < n < word.len(),
        stands(b, i, word.take(n)),
    ensures
        i + n == b.len() ==> value_at(b, i, 0) == Err::<(Json, int), ParseErrorView>(
            ParseErrorView::Truncated,
        ),
        i + n < b.len() && b[i + n] != word[n] ==> value_at(b, i, 0) == Err::<
            (Json, int),
            ParseErrorView,
        >(ParseErrorView::NotJson { at: i }),
{
    let part = word.take(n);
    let rest = b.skip(i);
    lemma_stands_at(b, i, part, 0);
    assert(part[0] == word[0]);
    if i + n == b.len() {
        assert(rest =~= part);
        assert(!word.is_prefix_of(rest));
        assert(rest.is_prefix_of(word)) by {
            assert(word.subrange(0, rest.len() as int) =~= rest);
        }
    } else if b[i + n] != word[n] {
        assert(rest[n] == b[i + n]);
        assert(!word.is_prefix_of(rest)) by {
            if word.is_prefix_of(rest) {
                assert(rest.subrange(0, word.len() as int)[n] == word[n]);
            }
        }
        assert(!rest.is_prefix_of(word)) by {
            if rest.is_prefix_of(word) {
                assert(word.subrange(0, rest.len() as int)[n] == rest[n]);
            }
        }
    }
}

/// A key needs a colon behind it, and what stands there instead is reported by its place.
pub proof fn lemma_a_key_needs_a_colon(b: Seq<u8>, i: int, key: Seq<char>, c: u8)
    requires
        stands(b, i, seq![0x7Bu8] + (quoted(key) + seq![c])),
        c != 0x3A,
        !is_ws(c),
    ensures
        value_at(b, i, 0) == Err::<(Json, int), ParseErrorView>(
            ParseErrorView::NotJson { at: i + 1 + quoted(key).len() },
        ),
{
    let k = quoted(key);
    lemma_both_stand(b, i, seq![0x7Bu8], k + seq![c]);
    lemma_both_stand(b, i + 1, k, seq![c]);
    lemma_stands_at(b, i, seq![0x7Bu8], 0);
    lemma_quoted_reads_back(b, i + 1, key);
    lemma_stands_at(b, i + 1 + k.len(), seq![c], 0);
}

/// A key is a string, and anything else in its place is reported by its place.
pub proof fn lemma_a_key_is_a_string(b: Seq<u8>, i: int)
    requires
        0 <= i,
        i + 1 < b.len(),
        b[i] == 0x7B,
        b[i + 1] != 0x22,
        b[i + 1] != 0x7D,
        !is_ws(b[i + 1]),
    ensures
        value_at(b, i, 0) == Err::<(Json, int), ParseErrorView>(
            ParseErrorView::NotJson { at: i + 1 },
        ),
{
}

/// Items stand apart by commas, and what stands between two of them instead is reported by its
/// place. So is a comma with no item behind it.
#[verifier::spinoff_prover]
#[verifier::rlimit(40)]
pub proof fn lemma_items_need_a_comma(b: Seq<u8>, i: int, v: Json, c: u8)
    requires
        can_stand(v, 1),
        stands(b, i, seq![0x5Bu8] + (rendered(v, Seq::empty()) + seq![c])),
        c != 0x5D,
        !is_ws(c),
        ends_a_number(b, i + 1 + rendered(v, Seq::empty()).len()),
        c == 0x2C ==> i + 2 + rendered(v, Seq::empty()).len() < b.len() && b[i + 2 + rendered(
            v,
            Seq::empty(),
        ).len()] == 0x5D,
    ensures
        value_at(b, i, 0) == Err::<(Json, int), ParseErrorView>(
            ParseErrorView::NotJson {
                at: if c == 0x2C {
                    i + 2 + rendered(v, Seq::empty()).len()
                } else {
                    i + 1 + rendered(v, Seq::empty()).len()
                },
            },
        ),
{
    let t = rendered(v, Seq::empty());
    lemma_both_stand(b, i, seq![0x5Bu8], t + seq![c]);
    lemma_both_stand(b, i + 1, t, seq![c]);
    lemma_stands_at(b, i, seq![0x5Bu8], 0);
    lemma_how_a_value_begins(v, Seq::empty(), 1);
    lemma_stands_at(b, i + 1, t, 0);
    lemma_stands_at(b, i + 1 + t.len(), seq![c], 0);
    lemma_value_reads_back(b, i + 1, v, Seq::empty(), 1);
    lemma_elements_go_on(b, i + 1, v, i + 1 + t.len(), 1);
    if c == 0x2C {
        lemma_no_value_at_a_bracket(b, i + 2 + t.len(), 1);
    }
    lemma_array_of_elements(b, i);
}

proof fn lemma_elements_go_on(b: Seq<u8>, j: int, v: Json, end: int, depth: int)
    requires
        0 <= j < end < b.len(),
        !is_ws(b[j]),
        !is_ws(b[end]),
        b[end] != 0x5D,
        value_at(b, j, depth) == Ok::<(Json, int), ParseErrorView>((v, end)),
    ensures
        elements_at(b, j, depth) == if b[end] == 0x2C {
            more(seq![v], elements_at(b, end + 1, depth))
        } else {
            Err(ParseErrorView::NotJson { at: end })
        },
{
    assert(ws_end(b, j) == j);
    assert(ws_end(b, end) == end);
}

proof fn lemma_no_value_at_a_bracket(b: Seq<u8>, j: int, depth: int)
    requires
        0 <= j < b.len(),
        b[j] == 0x5D,
        depth < 32,
    ensures
        elements_at(b, j, depth) == Err::<(Seq<Json>, int), ParseErrorView>(
            ParseErrorView::NotJson { at: j },
        ),
{
    assert(ws_end(b, j) == j);
    assert(value_at(b, j, depth) == Err::<(Json, int), ParseErrorView>(
        ParseErrorView::NotJson { at: j },
    ));
}

proof fn lemma_array_of_elements(b: Seq<u8>, i: int)
    requires
        0 <= i,
        i + 1 < b.len(),
        b[i] == 0x5B,
        !is_ws(b[i + 1]),
        b[i + 1] != 0x5D,
        elements_at(b, i + 1, 1) is Err,
    ensures
        value_at(b, i, 0) == Err::<(Json, int), ParseErrorView>(elements_at(b, i + 1, 1)->Err_0),
{
    assert(ws_end(b, i + 1) == i + 1);
}

/// A field is the first pair of its key, and there is none where no pair has the key.
pub proof fn lemma_a_field_is_the_first_of_its_key(
    pairs: Seq<(Seq<char>, Json)>,
    key: Seq<char>,
    at: int,
)
    requires
        0 <= at <= pairs.len(),
        forall|k: int| 0 <= k < at ==> (#[trigger] pairs[k]).0 != key,
        at < pairs.len() ==> pairs[at].0 == key,
    ensures
        field_of(pairs, key) == if at < pairs.len() {
            Some(pairs[at].1)
        } else {
            None
        },
    decreases pairs.len(),
{
    if pairs.len() > 0 && at > 0 {
        assert(pairs[0].0 != key);
        let rest = pairs.drop_first();
        assert forall|k: int| 0 <= k < at - 1 implies (#[trigger] rest[k]).0 != key by {
            assert(pairs[k + 1].0 != key);
        }
        lemma_a_field_is_the_first_of_its_key(rest, key, at - 1);
    }
}

/// A value gives what is asked of it where it is that, and says what was expected where it is
/// not.
pub proof fn lemma_what_may_be_asked_of_a_value(
    field: Seq<char>,
    s: Seq<char>,
    items: Seq<Json>,
    pairs: Seq<(Seq<char>, Json)>,
    v: Json,
)
    ensures
        string_of(Json::String(s), field) == Ok::<Seq<char>, ParseErrorView>(s),
        array_of(Json::Array(items), field) == Ok::<Seq<Json>, ParseErrorView>(items),
        object_of(Json::Object(pairs), field) == Ok::<Seq<(Seq<char>, Json)>, ParseErrorView>(
            pairs,
        ),
        !(v is String) ==> string_of(v, field) == Err::<Seq<char>, ParseErrorView>(
            ParseErrorView::WrongType { field, expected: "a string"@ },
        ),
        !(v is Array) ==> array_of(v, field) == Err::<Seq<Json>, ParseErrorView>(
            ParseErrorView::WrongType { field, expected: "an array"@ },
        ),
        !(v is Object) ==> object_of(v, field) == Err::<Seq<(Seq<char>, Json)>, ParseErrorView>(
            ParseErrorView::WrongType { field, expected: "an object"@ },
        ),
        !(v is Number) ==> number_of(v, field) == Err::<i64, ParseErrorView>(
            ParseErrorView::WrongType { field, expected: "a number"@ },
        ),
        !(v is Number) ==> integer_of(v) is None,
{
}

/// A number is an integer where its text is a whole number that 64 bits hold.
pub proof fn lemma_which_numbers_are_integers(s: Seq<char>, field: Seq<char>)
    ensures
        ({
            let n = text::signed_decimal_of(encode_utf8(s));
            let v = Json::Number(s);
            if n is Some && -0x8000_0000_0000_0000 <= n->Some_0 <= 0x7FFF_FFFF_FFFF_FFFF {
                &&& integer_of(v) is Some
                &&& integer_of(v)->Some_0 == n->Some_0
                &&& number_of(v, field) is Ok
                &&& number_of(v, field)->Ok_0 == n->Some_0
            } else {
                &&& integer_of(v) is None
                &&& number_of(v, field) == Err::<i64, ParseErrorView>(
                    ParseErrorView::BadNumber { field },
                )
            }
        }),
{
}

/// A value shows what it holds, to any depth and in its order.
pub proof fn lemma_what_a_value_shows(
    b: bool,
    s: String,
    items: Vec<Value>,
    pairs: Vec<(String, Value)>,
    i: int,
)
    ensures
        Value::Null@ == Json::Null,
        Value::Bool(b)@ == Json::Bool(b),
        Value::Number(s)@ == Json::Number(s@),
        Value::String(s)@ == Json::String(s@),
        Value::Array(items)@ is Array,
        Value::Array(items)@->Array_0.len() == items@.len(),
        0 <= i < items@.len() ==> Value::Array(items)@->Array_0[i] == items@[i]@,
        Value::Object(pairs)@ is Object,
        Value::Object(pairs)@->Object_0.len() == pairs@.len(),
        0 <= i < pairs@.len() ==> Value::Object(pairs)@->Object_0[i] == (
            pairs@[i].0@,
            pairs@[i].1@,
        ),
        models(items@).len() == items@.len(),
        0 <= i < items@.len() ==> models(items@)[i] == items@[i]@,
        pair_models(pairs@).len() == pairs@.len(),
        0 <= i < pairs@.len() ==> pair_models(pairs@)[i] == (pairs@[i].0@, pairs@[i].1@),
{
    reveal_with_fuel(Value::model, 2);
}

/// What is asked of a parsed value is given where it is that, and nothing is where it is not.
pub proof fn lemma_what_a_value_gives(
    v: Value,
    s: Option<&str>,
    items: Option<&[Value]>,
    pairs: Option<&[(String, Value)]>,
    i: int,
)
    ensures
        call_ensures(Value::as_str, (&v,), s) ==> (match v {
            Value::String(own) => s is Some && s->Some_0@ == own@,
            _ => s is None,
        }),
        call_ensures(Value::as_array, (&v,), items) ==> (match v {
            Value::Array(own) => items is Some && items->Some_0@.len() == own@.len() && (0 <= i
                < own@.len() ==> items->Some_0@[i]@ == own@[i]@),
            _ => items is None,
        }),
        call_ensures(Value::as_object, (&v,), pairs) ==> (match v {
            Value::Object(own) => pairs is Some && pairs->Some_0@.len() == own@.len() && (0 <= i
                < own@.len() ==> pairs->Some_0@[i].0@ == own@[i].0@ && pairs->Some_0@[i].1@
                == own@[i].1@),
            _ => pairs is None,
        }),
{
    if let Value::Array(own) = v {
        if call_ensures(Value::as_array, (&v,), items) {
            lemma_what_a_value_shows(true, arbitrary(), own, arbitrary(), i);
            let given = items->Some_0@;
            assert(v@->Array_0 == models(given));
            assert(0 <= i < given.len() ==> models(given)[i] == given[i]@);
        }
    }
    if let Value::Object(own) = v {
        if call_ensures(Value::as_object, (&v,), pairs) {
            lemma_what_a_value_shows(true, arbitrary(), arbitrary(), own, i);
            let given = pairs->Some_0@;
            assert(v@->Object_0 == pair_models(given));
            assert(0 <= i < given.len() ==> pair_models(given)[i] == (given[i].0@, given[i].1@));
        }
    }
}

} // verus!

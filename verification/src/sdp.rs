//! The format parameters of a media description (`a=fmtp:`): what the audio depacketiser needs to
//! know about a track.
//!
//! ```text
//! a=fmtp:97 profile-level-id=1; mode=AAC-hbr; config=1408;
//!           sizeLength=13; indexlength=3; indexdeltalength=3
//! ```
use crate::text;
use vstd::prelude::*;
use vstd::utf8::*;

verus! {

/// One `key=value` pair.
#[derive(Debug, Clone, PartialEq, Eq)]
pub struct Parameter {
    pub key: String,
    pub value: String,
}

/// A [`Parameter`] as values.
#[verifier::ext_equal]
pub struct ParameterView {
    pub key: Seq<char>,
    pub value: Seq<char>,
}

impl View for Parameter {
    type V = ParameterView;

    open spec fn view(&self) -> ParameterView {
        ParameterView { key: self.key@, value: self.value@ }
    }
}

/// The parameters of an `a=fmtp:` line, in order.
#[derive(Debug, Clone, PartialEq, Eq)]
pub struct Fmtp {
    pub parameters: Vec<Parameter>,
}

impl View for Fmtp {
    type V = Seq<ParameterView>;

    open spec fn view(&self) -> Seq<ParameterView> {
        self.parameters@.map_values(|p: Parameter| p@)
    }
}

/// Where the first `c` at or after `from` is, or the end of the text.
pub open spec fn next(s: Seq<char>, from: int, c: char) -> int
    decreases s.len() - from,
{
    if from >= s.len() || s[from] == c {
        from
    } else {
        next(s, from + 1, c)
    }
}

/// The parameter that a piece of the line stands for: what is before the first `=` and what is
/// after it, or a key alone.
pub open spec fn parameter_of(piece: Seq<char>) -> ParameterView {
    let eq = next(piece, 0, '=');
    ParameterView {
        key: text::trimmed(piece.take(eq)),
        value: if eq < piece.len() {
            text::trimmed(piece.skip(eq + 1))
        } else {
            Seq::empty()
        },
    }
}

/// The parameters from `from` on: the pieces between semicolons, white space aside and empty ones
/// left out.
pub open spec fn parameters_from(s: Seq<char>, from: int) -> Seq<ParameterView>
    decreases s.len() - from,
    when 0 <= from <= s.len()
{
    let end = next(s, from, ';');
    proof {
        lemma_next(s, from, ';');
    }
    let parameter = parameter_of(s.subrange(from, end));
    let first = if parameter.key.len() == 0 {
        Seq::empty()
    } else {
        seq![parameter]
    };
    if end < s.len() {
        first + parameters_from(s, end + 1)
    } else {
        first
    }
}

/// Where [`next`] lies.
pub proof fn lemma_next(s: Seq<char>, from: int, c: char)
    requires
        0 <= from <= s.len(),
    ensures
        from <= next(s, from, c) <= s.len(),
        next(s, from, c) < s.len() ==> s[next(s, from, c)] == c,
    decreases s.len() - from,
{
    if from < s.len() && s[from] != c {
        lemma_next(s, from + 1, c);
    }
}

/// The value of a key, whatever the case of its letters: that of the first parameter with it.
pub open spec fn value_of(parameters: Seq<ParameterView>, key: Seq<char>) -> Option<Seq<char>>
    decreases parameters.len(),
{
    if parameters.len() == 0 {
        None
    } else if text::upper_text(parameters.first().key) == text::upper_text(key) {
        Some(parameters.first().value)
    } else {
        value_of(parameters.drop_first(), key)
    }
}

/// A number of bits that a parameter gives, if it gives one.
pub open spec fn width_of(parameters: Seq<ParameterView>, key: Seq<char>) -> Option<u32> {
    match value_of(parameters, key) {
        None => None,
        Some(value) => match text::signed_decimal_of(encode_utf8(value)) {
            Some(n) => if 0 <= n <= u32::MAX {
                Some(n as u32)
            } else {
                None
            },
            None => None,
        },
    }
}

/// Where the first `c` at or after `from` is.
fn find(s: &str, n: usize, from: usize, c: char) -> (at: usize)
    requires
        n == s@.len(),
        from <= n,
    ensures
        at == next(s@, from as int, c),
        from <= at <= n,
{
    let mut at: usize = from;
    while at < n && s.get_char(at) != c
        invariant
            n == s@.len(),
            from <= at <= n,
            next(s@, from as int, c) == next(s@, at as int, c),
        decreases n - at,
    {
        at = at + 1;
    }
    at
}

impl Fmtp {
    /// Read the parameters of an `a=fmtp:` line, what follows the payload type in it.
    pub fn parse(line: &str) -> (f: Fmtp)
        ensures
            f@ == parameters_from(line@, 0),
    {
        let n: usize = line.unicode_len();
        let mut f = Fmtp { parameters: Vec::new() };
        let mut from: usize = 0;
        assert(f@ + parameters_from(line@, 0) =~= parameters_from(line@, 0));
        loop
            invariant_except_break
                n == line@.len(),
                from <= n,
                f@ + parameters_from(line@, from as int) == parameters_from(line@, 0),
            ensures
                f@ == parameters_from(line@, 0),
            decreases n - from,
        {
            let ghost before = f@;
            let end: usize = find(line, n, from, ';');
            let piece = line.substring_char(from, end);
            let len: usize = piece.unicode_len();
            let eq: usize = find(piece, len, 0, '=');
            let key = text::trim(piece.substring_char(0, eq));
            assert(piece@.subrange(0, eq as int) =~= piece@.take(eq as int));
            if key.unicode_len() > 0 {
                let value = if eq < len {
                    assert(piece@.subrange(eq + 1, len as int) =~= piece@.skip(eq + 1));
                    String::from_str(text::trim(piece.substring_char(eq + 1, len)))
                } else {
                    String::new()
                };
                let parameter = Parameter { key: String::from_str(key), value };
                assert(parameter@ =~= parameter_of(piece@));
                f.parameters.push(parameter);
                assert(f@ =~= before.push(parameter@));
            }
            assert(piece@ == line@.subrange(from as int, end as int));
            if end >= n {
                assert(f@ =~= before + parameters_from(line@, from as int));
                break;
            }
            assert(f@ + parameters_from(line@, end + 1) =~= before + parameters_from(
                line@,
                from as int,
            ));
            from = end + 1;
        }
        f
    }

    /// The value of a key, whatever the case of its letters.
    pub fn get(&self, key: &str) -> (r: Option<&str>)
        ensures
            match r {
                Some(value) => value_of(self@, key@) == Some(value@),
                None => value_of(self@, key@) is None,
            },
    {
        assert(self@.skip(0) =~= self@);
        for i in 0..self.parameters.len()
            invariant
                value_of(self@, key@) == value_of(self@.skip(i as int), key@),
        {
            let ghost rest = self@.skip(i as int);
            assert(rest.first() == self.parameters@[i as int]@);
            assert(rest.drop_first() =~= self@.skip(i + 1));
            if text::same_text_ignoring_case(self.parameters[i].key.as_str(), key) {
                return Some(self.parameters[i].value.as_str());
            }
        }
        None
    }

    fn width(&self, key: &str) -> (r: Option<u32>)
        ensures
            r == width_of(self@, key@),
    {
        match self.get(key) {
            None => None,
            Some(value) => match text::parse_i64(value.as_bytes()) {
                Some(n) => {
                    if 0 <= n && n <= u32::MAX as i64 {
                        Some(n as u32)
                    } else {
                        None
                    }
                },
                None => None,
            },
        }
    }

    /// Bits of AU size per AU header.
    pub fn size_length(&self) -> (r: Option<u32>)
        ensures
            r == width_of(self@, "sizeLength"@),
    {
        self.width("sizeLength")
    }

    /// Bits of AU index in the first AU header.
    pub fn index_length(&self) -> (r: Option<u32>)
        ensures
            r == width_of(self@, "indexLength"@),
    {
        self.width("indexLength")
    }

    /// Bits of index delta in every AU header after the first.
    pub fn index_delta_length(&self) -> (r: Option<u32>)
        ensures
            r == width_of(self@, "indexDeltaLength"@),
    {
        self.width("indexDeltaLength")
    }
}

/// A parameter as it is written: the key, an equals sign and the value.
pub open spec fn written(p: ParameterView) -> Seq<char> {
    p.key + seq!['='] + p.value
}

/// Parameters as they are written: one after the other, with semicolons between.
pub open spec fn all_written(parameters: Seq<ParameterView>) -> Seq<char>
    decreases parameters.len(),
{
    if parameters.len() == 0 {
        Seq::empty()
    } else if parameters.len() == 1 {
        written(parameters[0])
    } else {
        written(parameters[0]) + seq![';'] + all_written(parameters.drop_first())
    }
}

/// Whether a parameter can be written: a key, no semicolon in it, no equals sign in the key, and
/// nothing around key and value that would be trimmed off.
pub open spec fn writable(p: ParameterView) -> bool {
    &&& p.key.len() > 0
    &&& !text::is_white_space(p.key[0]) && !text::is_white_space(p.key.last())
    &&& p.value.len() > 0 ==> !text::is_white_space(p.value[0]) && !text::is_white_space(
        p.value.last(),
    )
    &&& forall|i: int| 0 <= i < p.key.len() ==> #[trigger] p.key[i] != ';' && p.key[i] != '='
    &&& forall|i: int| 0 <= i < p.value.len() ==> #[trigger] p.value[i] != ';'
}

proof fn lemma_next_is_first(s: Seq<char>, from: int, at: int, c: char)
    requires
        0 <= from <= at <= s.len(),
        forall|i: int| from <= i < at ==> #[trigger] s[i] != c,
        at < s.len() ==> s[at] == c,
    ensures
        next(s, from, c) == at,
    decreases at - from,
{
    if from < at {
        assert(s[from] != c);
        lemma_next_is_first(s, from + 1, at, c);
    }
}

proof fn lemma_a_parameter_reads_back(p: ParameterView)
    requires
        writable(p),
    ensures
        parameter_of(written(p)) == p,
{
    let piece = written(p);
    let eq = p.key.len() as int;
    assert forall|i: int| 0 <= i < eq implies #[trigger] piece[i] != '=' by {
        assert(piece[i] == p.key[i]);
    }
    assert(piece[eq] == '=');
    lemma_next_is_first(piece, 0, eq, '=');
    let none = Seq::<char>::empty();
    text::lemma_trimming_takes_what_is_around(none, p.key, none);
    text::lemma_trimming_takes_what_is_around(none, p.value, none);
    assert(piece.take(eq) =~= none + p.key + none);
    assert(piece.skip(eq + 1) =~= none + p.value + none);
}

/// Parameters read back as they were written, in order.
pub proof fn lemma_parameters_read_back(parameters: Seq<ParameterView>)
    requires
        forall|i: int| 0 <= i < parameters.len() ==> writable(#[trigger] parameters[i]),
    ensures
        parameters_from(all_written(parameters), 0) == parameters,
{
    let s = all_written(parameters);
    if parameters.len() == 0 {
        assert(s.subrange(0, 0) =~= Seq::empty());
        lemma_next_is_first(s, 0, 0, ';');
        lemma_next_is_first(Seq::empty(), 0, 0, '=');
        let none = Seq::<char>::empty();
        text::lemma_trimming_takes_what_is_around(none, none, none);
        assert(none + none + none =~= none);
        assert(none.take(0) =~= none);
        assert(parameters_from(s, 0) =~= parameters);
    } else {
        assert(Seq::<char>::empty() + s =~= s);
        lemma_parameters_read_back_from(Seq::empty(), parameters);
    }
}

proof fn lemma_parameters_read_back_from(front: Seq<char>, parameters: Seq<ParameterView>)
    requires
        parameters.len() > 0,
        forall|i: int| 0 <= i < parameters.len() ==> writable(#[trigger] parameters[i]),
    ensures
        parameters_from(front + all_written(parameters), front.len() as int) == parameters,
    decreases parameters.len(),
{
    let s = front + all_written(parameters);
    let from = front.len() as int;
    let p = parameters[0];
    let own = written(p);
    let end = from + own.len();
    assert(writable(p));
    assert forall|i: int| from <= i < end implies #[trigger] s[i] != ';' by {
        let k = i - from;
        assert(s[i] == own[k]);
        if k < p.key.len() {
            assert(own[k] == p.key[k]);
        } else if k > p.key.len() {
            assert(own[k] == p.value[k - p.key.len() - 1]);
        }
    }
    assert(s.subrange(from, end) =~= own);
    lemma_a_parameter_reads_back(p);
    if parameters.len() == 1 {
        assert(s.len() == end);
        lemma_next_is_first(s, from, end, ';');
        assert(parameters_from(s, from) =~= parameters);
    } else {
        let later = parameters.drop_first();
        assert forall|i: int| 0 <= i < later.len() implies writable(#[trigger] later[i]) by {
            assert(later[i] == parameters[i + 1]);
        }
        assert(s[end] == ';');
        lemma_next_is_first(s, from, end, ';');
        let passed = front + own + seq![';'];
        lemma_parameters_read_back_from(passed, later);
        assert(s =~= passed + all_written(later));
        assert(passed.len() == end + 1);
        assert(seq![p] + later =~= parameters);
    }
}

/// A value is that of the first parameter whose key is the same but for upper and lower case.
pub proof fn lemma_which_value_is_found(parameters: Seq<ParameterView>, key: Seq<char>, i: int)
    requires
        0 <= i < parameters.len(),
        text::upper_text(parameters[i].key) == text::upper_text(key),
        forall|k: int|
            0 <= k < i ==> text::upper_text((#[trigger] parameters[k]).key) != text::upper_text(
                key,
            ),
    ensures
        value_of(parameters, key) == Some(parameters[i].value),
    decreases i,
{
    if i > 0 {
        assert(text::upper_text(parameters[0].key) != text::upper_text(key));
        let later = parameters.drop_first();
        assert forall|k: int| 0 <= k < i - 1 implies text::upper_text((#[trigger] later[k]).key)
            != text::upper_text(key) by {
            assert(later[k] == parameters[k + 1]);
        }
        lemma_which_value_is_found(later, key, i - 1);
    }
}

/// No value is found under a key that no parameter has.
pub proof fn lemma_no_value_without_its_key(parameters: Seq<ParameterView>, key: Seq<char>)
    requires
        forall|k: int|
            0 <= k < parameters.len() ==> text::upper_text((#[trigger] parameters[k]).key)
                != text::upper_text(key),
    ensures
        value_of(parameters, key) is None,
        width_of(parameters, key) is None,
    decreases parameters.len(),
{
    if parameters.len() > 0 {
        let later = parameters.drop_first();
        assert(text::upper_text(parameters[0].key) != text::upper_text(key));
        assert forall|k: int| 0 <= k < later.len() implies text::upper_text((#[trigger] later[k]).key)
            != text::upper_text(key) by {
            assert(later[k] == parameters[k + 1]);
        }
        lemma_no_value_without_its_key(later, key);
    }
}

/// A width is the number that its value is written as, if 32 bits can hold it.
pub proof fn lemma_a_width_is_its_number(parameters: Seq<ParameterView>, key: Seq<char>, n: int)
    requires
        0 <= n,
        value_of(parameters, key) == Some(text::decimal_text(n)),
    ensures
        width_of(parameters, key) == (if n <= u32::MAX {
            Some(n as u32)
        } else {
            None
        }),
{
    let digits = text::decimal_text(n);
    text::lemma_decimal_reads_back(n);
    assert(is_ascii_chars(digits)) by {
        assert forall|i: int| 0 <= i < digits.len() implies (#[trigger] digits[i] as u32) < 128 by {
            assert('0' <= digits[i] <= '9');
        }
    }
    is_ascii_chars_encode_utf8(digits);
    assert(encode_utf8(digits) =~= digits.map_values(|c: char| c as u8));
}

} // verus!

//! A small JSON layer: a value model, a canonical writer, and a strict
//! parser. The component codec builds on it; the writer and parser are exact
//! inverses on well-formed values.

use vstd::prelude::*;
use crate::text::{
    dec_digit_char, dec_rep, dec_val, hex_digit_char_lower, hex_seq_val, hex_val, int_rep, is_dec_digit,
    is_hex_digit, push_char, write_dec_i64, hex_digit_lower,
};

verus! {

broadcast use vstd::string::group_string_axioms;

/// A JSON value: the integer-only fragment that the wire schema uses.
#[derive(Debug, PartialEq)]
pub enum JsonValue {
    /// The JSON `null`.
    Null,
    /// A boolean.
    Bool(bool),
    /// An integer number.
    Int(i64),
    /// A string.
    Str(String),
    /// An ordered array.
    Arr(Vec<JsonValue>),
    /// An object: an ordered list of key-value members.
    Obj(Vec<(String, JsonValue)>),
}

/// The mathematical value of a JSON value.
#[verifier::ext_equal]
pub enum JsonV {
    /// The JSON `null`.
    Null,
    /// A boolean.
    Bool(bool),
    /// An integer number.
    Int(int),
    /// A string.
    Str(Seq<char>),
    /// An ordered array.
    Arr(Seq<JsonV>),
    /// An object: an ordered list of key-value members.
    Obj(Seq<(Seq<char>, JsonV)>),
}

/// The mathematical value of a JSON value.
pub open spec fn json_view(v: JsonValue) -> JsonV
    decreases v,
{
    match v {
        JsonValue::Null => JsonV::Null,
        JsonValue::Bool(b) => JsonV::Bool(b),
        JsonValue::Int(n) => JsonV::Int(n as int),
        JsonValue::Str(s) => JsonV::Str(s@),
        JsonValue::Arr(items) => JsonV::Arr(jsons_view(items@)),
        JsonValue::Obj(members) => JsonV::Obj(members_view(members@)),
    }
}

/// The mathematical values of a sequence of JSON values.
pub open spec fn jsons_view(s: Seq<JsonValue>) -> Seq<JsonV>
    decreases s,
{
    if s.len() == 0 {
        Seq::empty()
    } else {
        jsons_view(s.drop_last()).push(json_view(s.last()))
    }
}

/// The mathematical values of a sequence of JSON object members.
pub open spec fn members_view(s: Seq<(String, JsonValue)>) -> Seq<(Seq<char>, JsonV)>
    decreases s,
{
    if s.len() == 0 {
        Seq::empty()
    } else {
        members_view(s.drop_last()).push((s.last().0@, json_view(s.last().1)))
    }
}

/// A sequence of JSON values is viewed element for element.
pub broadcast proof fn lemma_jsons_view(s: Seq<JsonValue>)
    ensures
        (#[trigger] jsons_view(s)).len() == s.len(),
        forall|i: int| 0 <= i < s.len() ==> jsons_view(s)[i] == json_view(s[i]),
    decreases s,
{
    if s.len() > 0 {
        lemma_jsons_view(s.drop_last());
    }
}

/// A sequence of members is viewed element for element.
pub broadcast proof fn lemma_members_view(s: Seq<(String, JsonValue)>)
    ensures
        (#[trigger] members_view(s)).len() == s.len(),
        forall|i: int|
            0 <= i < s.len() ==> members_view(s)[i] == (s[i].0@, json_view(s[i].1)),
    decreases s,
{
    if s.len() > 0 {
        lemma_members_view(s.drop_last());
    }
}

impl View for JsonValue {
    type V = JsonV;

    open spec fn view(&self) -> JsonV {
        json_view(*self)
    }
}

/// A machine-representable JSON value: every integer fits a 64-bit signed
/// machine word.
pub open spec fn wf_json(v: JsonV) -> bool
    decreases v,
{
    match v {
        JsonV::Null => true,
        JsonV::Bool(_) => true,
        JsonV::Int(n) => i64::MIN <= n <= i64::MAX,
        JsonV::Str(_) => true,
        JsonV::Arr(items) => forall|i: int| 0 <= i < items.len() ==> wf_json(#[trigger] items[i]),
        JsonV::Obj(members) => forall|i: int|
            0 <= i < members.len() ==> wf_json(#[trigger] members[i].1),
    }
}

/// The escape of one string character: `"` and `\` take a backslash, control
/// characters become `\u00XX`, and every other character stands for itself.
pub open spec fn escape_char(c: char) -> Seq<char> {
    if c == '"' {
        seq!['\\', '"']
    } else if c == '\\' {
        seq!['\\', '\\']
    } else if (c as u32) < 0x20 {
        seq![
            '\\',
            'u',
            '0',
            '0',
            hex_digit_char_lower(((c as u32) / 16) as nat),
            hex_digit_char_lower(((c as u32) % 16) as nat),
        ]
    } else {
        seq![c]
    }
}

/// The escaped body of a string.
pub open spec fn escape_seq(s: Seq<char>) -> Seq<char>
    decreases s.len(),
{
    if s.len() == 0 {
        Seq::empty()
    } else {
        escape_seq(s.drop_last()) + escape_char(s.last())
    }
}

/// The printed form of a string: quoted and escaped.
pub open spec fn print_string(s: Seq<char>) -> Seq<char> {
    seq!['"'] + escape_seq(s) + seq!['"']
}

/// The canonical printed form of a JSON value: no whitespace, members in
/// their stored order.
pub open spec fn print_json(v: JsonV) -> Seq<char>
    decreases v, 1int,
{
    match v {
        JsonV::Null => "null"@,
        JsonV::Bool(b) => if b {
            "true"@
        } else {
            "false"@
        },
        JsonV::Int(n) => int_rep(n),
        JsonV::Str(s) => print_string(s),
        JsonV::Arr(items) => seq!['['] + print_items(items) + seq![']'],
        JsonV::Obj(members) => seq!['{'] + print_members(members) + seq!['}'],
    }
}

/// The printed items of an array, separated by commas.
pub open spec fn print_items(items: Seq<JsonV>) -> Seq<char>
    decreases items, 0int,
{
    if items.len() == 0 {
        Seq::empty()
    } else if items.len() == 1 {
        print_json(items[0])
    } else {
        print_json(items[0]) + seq![','] + print_items(items.drop_first())
    }
}

/// The printed members of an object, separated by commas.
pub open spec fn print_members(members: Seq<(Seq<char>, JsonV)>) -> Seq<char>
    decreases members, 0int,
{
    if members.len() == 0 {
        Seq::empty()
    } else if members.len() == 1 {
        print_string(members[0].0) + seq![':'] + print_json(members[0].1)
    } else {
        print_string(members[0].0) + seq![':'] + print_json(members[0].1) + seq![',']
            + print_members(members.drop_first())
    }
}

/// Appends the escaped, quoted form of `s` to `out`.
pub(crate) fn write_string(s: &str, out: &mut String)
    ensures
        final(out)@ == old(out)@ + print_string(s@),
{
    push_char(out, '"');
    let n = s.unicode_len();
    let ghost base = old(out)@;
    let mut i: usize = 0;
    while i < n
        invariant
            i <= n,
            n == s@.len(),
            out@ == base + seq!['"'] + escape_seq(s@.subrange(0, i as int)),
        decreases n - i,
    {
        let c = s.get_char(i);
        let code = c as u32;
        if c == '"' {
            push_char(out, '\\');
            push_char(out, '"');
        } else if c == '\\' {
            push_char(out, '\\');
            push_char(out, '\\');
        } else if code < 0x20 {
            push_char(out, '\\');
            push_char(out, 'u');
            push_char(out, '0');
            push_char(out, '0');
            push_char(out, hex_digit_lower((code / 16) as u64));
            push_char(out, hex_digit_lower((code % 16) as u64));
        } else {
            push_char(out, c);
        }
        proof {
            assert(s@.subrange(0, (i + 1) as int).drop_last() =~= s@.subrange(0, i as int));
            assert(s@.subrange(0, (i + 1) as int).last() == s@[i as int]);
            assert(out@ =~= base + seq!['"'] + escape_seq(s@.subrange(0, (i + 1) as int)));
        }
        i = i + 1;
    }
    push_char(out, '"');
    proof {
        assert(s@.subrange(0, n as int) =~= s@);
        assert(out@ =~= base + print_string(s@));
    }
}

/// Appends the canonical printed form of `v` to `out`.
pub(crate) fn write_json(v: &JsonValue, out: &mut String)
    ensures
        final(out)@ == old(out)@ + print_json(v@),
    decreases v, 1int,
{
    broadcast use lemma_jsons_view, lemma_members_view;

    match v {
        JsonValue::Null => {
            out.append("null");
        },
        JsonValue::Bool(b) => {
            if *b {
                out.append("true");
            } else {
                out.append("false");
            }
        },
        JsonValue::Int(n) => {
            write_dec_i64(*n, out);
        },
        JsonValue::Str(s) => {
            write_string(s.as_str(), out);
        },
        JsonValue::Arr(items) => {
            push_char(out, '[');
            write_items(items, 0, out);
            push_char(out, ']');
            proof {
                assert(jsons_view(items@).subrange(0, jsons_view(items@).len() as int)
                    =~= jsons_view(items@));
                assert(out@ =~= old(out)@ + print_json(v@));
            }
        },
        JsonValue::Obj(members) => {
            push_char(out, '{');
            write_members(members, 0, out);
            push_char(out, '}');
            proof {
                assert(members_view(members@).subrange(0, members_view(members@).len() as int)
                    =~= members_view(members@));
                assert(out@ =~= old(out)@ + print_json(v@));
            }
        },
    }
}

/// Appends the printed items of `items[idx..]`, comma separated.
fn write_items(items: &Vec<JsonValue>, idx: usize, out: &mut String)
    requires
        idx <= items@.len(),
    ensures
        final(out)@ == old(out)@ + print_items(
            jsons_view(items@).subrange(idx as int, items@.len() as int),
        ),
    decreases items@, 0int, items@.len() - idx,
{
    broadcast use lemma_jsons_view;

    let ghost suffix = jsons_view(items@).subrange(idx as int, items@.len() as int);
    if idx < items.len() {
        proof {
            assert(decreases_to!(items@ => items@[idx as int]));
        }
        write_json(&items[idx], out);
        if idx + 1 < items.len() {
            push_char(out, ',');
        }
        write_items(items, idx + 1, out);
        proof {
            let rest = jsons_view(items@).subrange((idx + 1) as int, items@.len() as int);
            assert(suffix[0] == json_view(items@[idx as int]));
            assert(suffix.drop_first() =~= rest);
            assert(out@ =~= old(out)@ + print_items(suffix));
        }
    } else {
        proof {
            assert(suffix =~= Seq::<JsonV>::empty());
            assert(out@ =~= old(out)@ + print_items(suffix));
        }
    }
}

/// Appends the printed members of `members[idx..]`, comma separated.
fn write_members(members: &Vec<(String, JsonValue)>, idx: usize, out: &mut String)
    requires
        idx <= members@.len(),
    ensures
        final(out)@ == old(out)@ + print_members(
            members_view(members@).subrange(idx as int, members@.len() as int),
        ),
    decreases members@, 0int, members@.len() - idx,
{
    broadcast use lemma_members_view;

    let ghost suffix = members_view(members@).subrange(idx as int, members@.len() as int);
    if idx < members.len() {
        let pair = &members[idx];
        write_string(pair.0.as_str(), out);
        push_char(out, ':');
        proof {
            assert(decreases_to!(members@ => members@[idx as int]));
            assert(decreases_to!(members@[idx as int] => members@[idx as int].1));
        }
        write_json(&pair.1, out);
        if idx + 1 < members.len() {
            push_char(out, ',');
        }
        write_members(members, idx + 1, out);
        proof {
            let rest = members_view(members@).subrange((idx + 1) as int, members@.len() as int);
            assert(suffix[0] == (members@[idx as int].0@, json_view(members@[idx as int].1)));
            assert(suffix.drop_first() =~= rest);
            assert(out@ =~= old(out)@ + print_members(suffix));
        }
    } else {
        proof {
            assert(suffix =~= Seq::<(Seq<char>, JsonV)>::empty());
            assert(out@ =~= old(out)@ + print_members(suffix));
        }
    }
}

/// The canonical text of a JSON value.
pub fn json_to_string(v: &JsonValue) -> (r: String)
    ensures
        r@ == print_json(v@),
{
    let mut out = String::new();
    write_json(v, &mut out);
    out
}

/// JSON insignificant whitespace.
pub open spec fn is_json_ws(c: char) -> bool {
    c == ' ' || c == '\t' || c == '\n' || c == '\r'
}

/// The first position at or after `i` holding no whitespace.
pub open spec fn skip_ws(s: Seq<char>, i: int) -> int
    decreases s.len() - i, 0int,
{
    if 0 <= i && i < s.len() && is_json_ws(s[i]) {
        skip_ws(s, i + 1)
    } else {
        i
    }
}

/// The first position at or after `i` holding no decimal digit.
pub open spec fn digits_end(s: Seq<char>, i: int) -> int
    decreases s.len() - i, 0int,
{
    if 0 <= i && i < s.len() && is_dec_digit(s[i]) {
        digits_end(s, i + 1)
    } else {
        i
    }
}

/// The value of a sequence of decimal digits, most significant first.
pub open spec fn dec_seq_val(s: Seq<char>) -> nat
    decreases s.len(),
{
    if s.len() == 0 {
        0
    } else {
        dec_seq_val(s.drop_last()) * 10 + dec_val(s.last())
    }
}

/// Whether the word `w` stands at position `i` of `s`.
pub open spec fn begins_with(s: Seq<char>, i: int, w: Seq<char>) -> bool {
    0 <= i && i + w.len() <= s.len() && s.subrange(i, i + w.len()) == w
}

/// The character with the given code; specified only for valid code points.
pub open spec fn char_from_code(v: u32) -> char {
    v as char
}

/// The string content and the position after the closing quote, parsed from
/// just after an opening quote: standard JSON escapes, `\uXXXX` for
/// non-surrogate code points, and a strict refusal of raw control characters.
pub open spec fn parse_string_rest(s: Seq<char>, i: int) -> Option<(Seq<char>, int)>
    decreases s.len() - i, 0int,
{
    if !(0 <= i < s.len()) {
        None
    } else if s[i] == '"' {
        Some((Seq::empty(), i + 1))
    } else if s[i] == '\\' {
        if i + 1 < s.len() {
            let e = s[i + 1];
            if e == '"' || e == '\\' || e == '/' {
                match parse_string_rest(s, i + 2) {
                    Some((rest, j)) => Some((seq![e] + rest, j)),
                    None => None,
                }
            } else if e == 'b' || e == 'f' || e == 'n' || e == 'r' || e == 't' {
                let c = if e == 'b' {
                    '\u{8}'
                } else if e == 'f' {
                    '\u{c}'
                } else if e == 'n' {
                    '\n'
                } else if e == 'r' {
                    '\r'
                } else {
                    '\t'
                };
                match parse_string_rest(s, i + 2) {
                    Some((rest, j)) => Some((seq![c] + rest, j)),
                    None => None,
                }
            } else if e == 'u' {
                if i + 6 <= s.len() && (forall|k: int|
                    i + 2 <= k < i + 6 ==> is_hex_digit(#[trigger] s[k])) {
                    let v = hex_seq_val(s.subrange(i + 2, i + 6));
                    if 0xD800 <= v < 0xE000 {
                        None
                    } else {
                        match parse_string_rest(s, i + 6) {
                            Some((rest, j)) => Some(
                                (seq![char_from_code(v as u32)] + rest, j),
                            ),
                            None => None,
                        }
                    }
                } else {
                    None
                }
            } else {
                None
            }
        } else {
            None
        }
    } else if (s[i] as u32) < 0x20 {
        None
    } else {
        match parse_string_rest(s, i + 1) {
            Some((rest, j)) => Some((seq![s[i]] + rest, j)),
            None => None,
        }
    }
}

/// The number starting at `i`: an optional minus sign and one or more
/// digits, within the range of a 64-bit signed machine word.
pub open spec fn parse_number(s: Seq<char>, i: int) -> Option<(JsonV, int)> {
    if !(0 <= i < s.len()) {
        None
    } else {
        let neg = s[i] == '-';
        let d0 = if neg {
            i + 1
        } else {
            i
        };
        let e = digits_end(s, d0);
        if e <= d0 {
            None
        } else {
            let m = dec_seq_val(s.subrange(d0, e));
            if neg {
                if m <= 0x8000000000000000 {
                    Some((JsonV::Int(-(m as int)), e))
                } else {
                    None
                }
            } else {
                if m <= 0x7FFFFFFFFFFFFFFF {
                    Some((JsonV::Int(m as int), e))
                } else {
                    None
                }
            }
        }
    }
}

/// The JSON value starting exactly at `i` (no leading whitespace), with the
/// position after it.
pub open spec fn parse_value(s: Seq<char>, i: int) -> Option<(JsonV, int)>
    decreases s.len() - i, 1int,
{
    if !(0 <= i < s.len()) {
        None
    } else {
        let c = s[i];
        if c == 'n' {
            if begins_with(s, i, "null"@) {
                Some((JsonV::Null, i + 4))
            } else {
                None
            }
        } else if c == 't' {
            if begins_with(s, i, "true"@) {
                Some((JsonV::Bool(true), i + 4))
            } else {
                None
            }
        } else if c == 'f' {
            if begins_with(s, i, "false"@) {
                Some((JsonV::Bool(false), i + 5))
            } else {
                None
            }
        } else if c == '-' || is_dec_digit(c) {
            parse_number(s, i)
        } else if c == '"' {
            match parse_string_rest(s, i + 1) {
                Some((content, j)) => Some((JsonV::Str(content), j)),
                None => None,
            }
        } else if c == '[' {
            let j = skip_ws(s, i + 1);
            if !(i + 1 <= j <= s.len()) {
                None
            } else if j < s.len() && s[j] == ']' {
                Some((JsonV::Arr(Seq::empty()), j + 1))
            } else {
                match parse_items(s, i + 1) {
                    Some((items, e)) => Some((JsonV::Arr(items), e)),
                    None => None,
                }
            }
        } else if c == '{' {
            let j = skip_ws(s, i + 1);
            if !(i + 1 <= j <= s.len()) {
                None
            } else if j < s.len() && s[j] == '}' {
                Some((JsonV::Obj(Seq::empty()), j + 1))
            } else {
                match parse_members(s, i + 1) {
                    Some((members, e)) => Some((JsonV::Obj(members), e)),
                    None => None,
                }
            }
        } else {
            None
        }
    }
}

/// One or more comma-separated values followed by `]`, starting after the
/// `[` or after a comma.
pub open spec fn parse_items(s: Seq<char>, i: int) -> Option<(Seq<JsonV>, int)>
    decreases s.len() - i, 2int,
{
    let j = skip_ws(s, i);
    if !(0 <= i <= j <= s.len()) {
        None
    } else {
        match parse_value(s, j) {
            None => None,
            Some((v, k)) => if !(j < k <= s.len()) {
                None
            } else {
                let m = skip_ws(s, k);
                if !(k <= m <= s.len()) {
                    None
                } else if m < s.len() && s[m] == ',' {
                    match parse_items(s, m + 1) {
                        Some((rest, e)) => Some((seq![v] + rest, e)),
                        None => None,
                    }
                } else if m < s.len() && s[m] == ']' {
                    Some((seq![v], m + 1))
                } else {
                    None
                }
            },
        }
    }
}

/// One or more comma-separated `"key": value` members followed by `}`,
/// starting after the `{` or after a comma.
pub open spec fn parse_members(s: Seq<char>, i: int) -> Option<(Seq<(Seq<char>, JsonV)>, int)>
    decreases s.len() - i, 2int,
{
    let j = skip_ws(s, i);
    if !(0 <= i <= j <= s.len()) {
        None
    } else if !(j < s.len() && s[j] == '"') {
        None
    } else {
        match parse_string_rest(s, j + 1) {
            None => None,
            Some((key, k)) => if !(j + 1 < k <= s.len()) {
                None
            } else {
                let m = skip_ws(s, k);
                if !(k <= m <= s.len() && m < s.len() && s[m] == ':') {
                    None
                } else {
                    let n2 = skip_ws(s, m + 1);
                    if !(m + 1 <= n2 <= s.len()) {
                        None
                    } else {
                        match parse_value(s, n2) {
                            None => None,
                            Some((v, q)) => if !(n2 < q <= s.len()) {
                                None
                            } else {
                                let r = skip_ws(s, q);
                                if !(q <= r <= s.len()) {
                                    None
                                } else if r < s.len() && s[r] == ',' {
                                    match parse_members(s, r + 1) {
                                        Some((rest, e)) => Some((seq![(key, v)] + rest, e)),
                                        None => None,
                                    }
                                } else if r < s.len() && s[r] == '}' {
                                    Some((seq![(key, v)], r + 1))
                                } else {
                                    None
                                }
                            },
                        }
                    }
                }
            },
        }
    }
}

/// The single JSON value denoted by the whole text, surrounding whitespace
/// aside; `None` when the text is not such a value.
pub open spec fn spec_parse_json(s: Seq<char>) -> Option<JsonV> {
    let i = skip_ws(s, 0);
    match parse_value(s, i) {
        None => None,
        Some((v, j)) => if 0 <= j <= s.len() && skip_ws(s, j) == s.len() {
            Some(v)
        } else {
            None
        },
    }
}

/// Every character of a decimal representation is a digit, and there is at
/// least one.
pub proof fn lemma_dec_rep_digits(n: nat)
    ensures
        dec_rep(n).len() >= 1,
        forall|k: int| 0 <= k < dec_rep(n).len() ==> is_dec_digit(#[trigger] dec_rep(n)[k]),
    decreases n,
{
    if n >= 10 {
        lemma_dec_rep_digits(n / 10);
        assert forall|k: int| 0 <= k < dec_rep(n).len() implies is_dec_digit(
            #[trigger] dec_rep(n)[k],
        ) by {
            if k < dec_rep(n / 10).len() {
                assert(dec_rep(n)[k] == dec_rep(n / 10)[k]);
            } else {
                assert(dec_rep(n)[k] == dec_digit_char(n % 10));
            }
        }
    }
}

/// Reading back the decimal representation gives the number itself.
pub proof fn lemma_dec_seq_val_rep(n: nat)
    ensures
        dec_seq_val(dec_rep(n)) == n,
    decreases n,
{
    if n < 10 {
        assert(dec_rep(n).drop_last() =~= Seq::<char>::empty());
        assert(dec_seq_val(Seq::<char>::empty()) == 0);
        assert(dec_rep(n).last() == dec_digit_char(n));
        assert(dec_val(dec_digit_char(n)) == n);
    } else {
        lemma_dec_seq_val_rep(n / 10);
        assert(dec_rep(n).drop_last() =~= dec_rep(n / 10));
        assert(dec_rep(n).last() == dec_digit_char(n % 10));
        assert(dec_val(dec_digit_char(n % 10)) == n % 10);
        vstd::arithmetic::div_mod::lemma_fundamental_div_mod(n as int, 10);
    }
}

/// A run of digits followed by a non-digit (or the end) scans to exactly its
/// end.
pub proof fn lemma_digits_end_range(s: Seq<char>, i: int, j: int)
    requires
        0 <= i <= j <= s.len(),
        forall|m: int| i <= m < j ==> is_dec_digit(#[trigger] s[m]),
        j == s.len() || !is_dec_digit(s[j]),
    ensures
        digits_end(s, i) == j,
    decreases j - i,
{
    if i < j {
        lemma_digits_end_range(s, i + 1, j);
    }
}

/// Skipping whitespace at a non-whitespace position stays put.
pub proof fn lemma_skip_ws_at(s: Seq<char>, i: int)
    requires
        i >= s.len() || !is_json_ws(s[i]),
    ensures
        skip_ws(s, i) == i,
{
}

/// The escaped body decomposes from the left.
pub proof fn lemma_escape_cons(s: Seq<char>)
    requires
        s.len() >= 1,
    ensures
        escape_seq(s) == escape_char(s[0]) + escape_seq(s.drop_first()),
    decreases s.len(),
{
    if s.len() == 1 {
        assert(s.drop_last() =~= Seq::<char>::empty());
        assert(s.drop_first() =~= Seq::<char>::empty());
        assert(escape_seq(s) =~= escape_char(s[0]) + escape_seq(s.drop_first()));
    } else {
        lemma_escape_cons(s.drop_last());
        assert(s.drop_last()[0] == s[0]);
        assert(s.drop_last().drop_first() =~= s.drop_first().drop_last());
        assert(s.drop_first().last() == s.last());
        assert(escape_seq(s) =~= escape_char(s[0]) + escape_seq(s.drop_first()));
    }
}

/// A character that can start a printed JSON value.
pub open spec fn starts_value(c: char) -> bool {
    c == 'n' || c == 't' || c == 'f' || c == '-' || is_dec_digit(c) || c == '"' || c == '['
        || c == '{'
}

/// A printed value is nonempty and starts with a value-starting character.
pub proof fn lemma_print_start(v: JsonV)
    ensures
        print_json(v).len() >= 1,
        starts_value(print_json(v)[0]),
{
    reveal_strlit("null");
    reveal_strlit("true");
    reveal_strlit("false");
    match v {
        JsonV::Int(n) => {
            if n >= 0 {
                lemma_dec_rep_digits(n as nat);
            } else {
                lemma_dec_rep_digits((-n) as nat);
            }
        },
        _ => {},
    }
}

/// A subrange known to equal `p` fixes each of its characters.
pub proof fn lemma_subrange_index(s: Seq<char>, i: int, p: Seq<char>, k: int)
    requires
        0 <= i,
        i + p.len() <= s.len(),
        s.subrange(i, i + p.len()) == p,
        0 <= k < p.len(),
    ensures
        s[i + k] == p[k],
{
    assert(s.subrange(i, i + p.len())[k] == p[k]);
}

/// A subrange known to equal `p` fixes each of its subranges.
pub proof fn lemma_subrange_sub(s: Seq<char>, i: int, p: Seq<char>, a: int, b: int)
    requires
        0 <= i,
        i + p.len() <= s.len(),
        s.subrange(i, i + p.len()) == p,
        0 <= a <= b <= p.len(),
    ensures
        s.subrange(i + a, i + b) == p.subrange(a, b),
{
    assert forall|k: int| 0 <= k < b - a implies s.subrange(i + a, i + b)[k] == p.subrange(
        a,
        b,
    )[k] by {
        assert(s.subrange(i, i + p.len())[a + k] == p[a + k]);
    }
    assert(s.subrange(i + a, i + b) =~= p.subrange(a, b));
}

/// A lowercase hexadecimal digit character is a hexadecimal digit with its
/// own value.
pub proof fn lemma_hex_digit_char(d: nat)
    requires
        d < 16,
    ensures
        is_hex_digit(hex_digit_char_lower(d)),
        hex_val(hex_digit_char_lower(d)) == d,
{
}

/// Parsing from inside a printed string body returns exactly the original
/// content and stops after the closing quote.
#[verifier::rlimit(50)]
#[verifier::spinoff_prover]
pub proof fn lemma_parse_print_string_body(content: Seq<char>, s: Seq<char>, i: int)
    requires
        0 <= i,
        i + escape_seq(content).len() + 1 <= s.len(),
        s.subrange(i, i + escape_seq(content).len()) == escape_seq(content),
        s[i + escape_seq(content).len()] == '"',
    ensures
        parse_string_rest(s, i) == Some((content, i + escape_seq(content).len() + 1)),
    decreases content.len(),
{
    if content.len() == 0 {
        assert(escape_seq(content).len() == 0);
    } else {
        let c = content[0];
        let rest = content.drop_first();
        lemma_escape_cons(content);
        let ec = escape_char(c);
        let er = escape_seq(rest);
        let es = escape_seq(content);
        assert(es == ec + er);
        assert(es.subrange(0, ec.len() as int) =~= ec);
        assert(es.subrange(ec.len() as int, es.len() as int) =~= er);
        lemma_subrange_sub(s, i, es, 0, ec.len() as int);
        lemma_subrange_sub(s, i, es, ec.len() as int, es.len() as int);
        let i2 = i + ec.len();
        lemma_parse_print_string_body(rest, s, i2);
        assert(seq![c] + rest =~= content);
        if c == '"' || c == '\\' {
            lemma_subrange_index(s, i, ec, 0);
            lemma_subrange_index(s, i, ec, 1);
            assert(s[i] == '\\');
            assert(s[i + 1] == c);
        } else if (c as u32) < 0x20 {
            let code = c as u32;
            let h1 = hex_digit_char_lower((code / 16) as nat);
            let h2 = hex_digit_char_lower((code % 16) as nat);
            lemma_subrange_index(s, i, ec, 0);
            lemma_subrange_index(s, i, ec, 1);
            lemma_subrange_index(s, i, ec, 2);
            lemma_subrange_index(s, i, ec, 3);
            lemma_subrange_index(s, i, ec, 4);
            lemma_subrange_index(s, i, ec, 5);
            assert(s[i] == '\\' && s[i + 1] == 'u' && s[i + 2] == '0' && s[i + 3] == '0' && s[i
                + 4] == h1 && s[i + 5] == h2);
            lemma_hex_digit_char((code / 16) as nat);
            lemma_hex_digit_char((code % 16) as nat);
            assert(is_hex_digit('0') && hex_val('0') == 0);
            assert forall|k: int| i + 2 <= k < i + 6 implies is_hex_digit(#[trigger] s[k]) by {}
            let g3 = s.subrange(i + 2, i + 6);
            let g2 = s.subrange(i + 2, i + 5);
            let g1 = s.subrange(i + 2, i + 4);
            let g0 = s.subrange(i + 2, i + 3);
            assert(hex_seq_val(Seq::<char>::empty()) == 0);
            assert(g0.drop_last() =~= Seq::<char>::empty());
            assert(g1.drop_last() =~= g0);
            assert(g2.drop_last() =~= g1);
            assert(g3.drop_last() =~= g2);
            assert(hex_seq_val(g0) == 0);
            assert(hex_seq_val(g1) == 0);
            assert(hex_seq_val(g2) == code / 16);
            assert(hex_seq_val(g3) == (code / 16) * 16 + code % 16);
            vstd::arithmetic::div_mod::lemma_fundamental_div_mod(code as int, 16);
            assert(hex_seq_val(g3) == code);
            assert(!(0xD800 <= code < 0xE000));
            vstd::utf8::char_u32_cast(c, code);
            assert(char_from_code(code as u32) == c);
        } else {
            lemma_subrange_index(s, i, ec, 0);
            assert(s[i] == c);
        }
    }
}

/// Parsing a printed value at its position returns exactly that value and
/// stops right after it.
#[verifier::rlimit(100)]
#[verifier::spinoff_prover]
pub proof fn lemma_parse_print_value(v: JsonV, s: Seq<char>, i: int)
    requires
        wf_json(v),
        0 <= i,
        i + print_json(v).len() <= s.len(),
        s.subrange(i, i + print_json(v).len()) == print_json(v),
        v is Int ==> i + print_json(v).len() == s.len() || !is_dec_digit(
            s[i + print_json(v).len()],
        ),
    ensures
        parse_value(s, i) == Some((v, i + print_json(v).len())),
    decreases v, 1int,
{
    lemma_print_start(v);
    let p = print_json(v);
    let pl = p.len() as int;
    lemma_subrange_index(s, i, p, 0);
    reveal_strlit("null");
    reveal_strlit("true");
    reveal_strlit("false");
    match v {
        JsonV::Null => {
            assert(begins_with(s, i, "null"@));
            assert(parse_value(s, i) =~~= Some((v, i + print_json(v).len())));
        },
        JsonV::Bool(b) => {
            if b {
                assert(begins_with(s, i, "true"@));
            } else {
                assert(begins_with(s, i, "false"@));
            }
            assert(parse_value(s, i) =~~= Some((v, i + print_json(v).len())));
        },
        JsonV::Int(n) => {
            if n >= 0 {
                lemma_dec_rep_digits(n as nat);
                assert(p == dec_rep(n as nat));
                assert forall|m: int| i <= m < i + pl implies is_dec_digit(#[trigger] s[m]) by {
                    lemma_subrange_index(s, i, p, m - i);
                }
                lemma_digits_end_range(s, i, i + pl);
                lemma_dec_seq_val_rep(n as nat);
                assert(s.subrange(i, i + pl) == dec_rep(n as nat));
                assert(!is_dec_digit('-'));
                assert(s[i] != '-');
            } else {
                lemma_dec_rep_digits((-n) as nat);
                let d = dec_rep((-n) as nat);
                assert(p == seq!['-'] + d);
                assert(p.subrange(1, pl) =~= d);
                lemma_subrange_sub(s, i, p, 1, pl);
                assert(s[i] == '-');
                assert forall|m: int| i + 1 <= m < i + pl implies is_dec_digit(
                    #[trigger] s[m],
                ) by {
                    lemma_subrange_index(s, i + 1, d, m - i - 1);
                }
                lemma_digits_end_range(s, i + 1, i + pl);
                lemma_dec_seq_val_rep((-n) as nat);
                assert(s.subrange(i + 1, i + pl) == d);
                assert(dec_seq_val(d) == -n);
            }
            assert(parse_value(s, i) =~~= Some((v, i + print_json(v).len())));
        },
        JsonV::Str(content) => {
            let es = escape_seq(content);
            assert(p == seq!['"'] + es + seq!['"']);
            assert(p.subrange(1, 1 + es.len() as int) =~= es);
            lemma_subrange_sub(s, i, p, 1, 1 + es.len() as int);
            lemma_subrange_index(s, i, p, pl - 1);
            assert(p[pl - 1] == '"');
            assert(s[i] == '"');
            lemma_parse_print_string_body(content, s, i + 1);
            assert(parse_value(s, i) =~~= Some((v, i + print_json(v).len())));
        },
        JsonV::Arr(items) => {
            let pi = print_items(items);
            assert(p == seq!['['] + pi + seq![']']);
            assert(s[i] == '[');
            assert(p.subrange(1, 1 + pi.len() as int) =~= pi);
            lemma_subrange_sub(s, i, p, 1, 1 + pi.len() as int);
            lemma_subrange_index(s, i, p, pl - 1);
            assert(p[pl - 1] == ']');
            assert(s[i + 1 + pi.len()] == ']');
            if items.len() == 0 {
                assert(pi.len() == 0);
                assert(s[i + 1] == ']');
                lemma_skip_ws_at(s, i + 1);
                assert(items =~= Seq::<JsonV>::empty());
                assert(parse_value(s, i) == Some((JsonV::Arr(Seq::empty()), i + 2)));
                assert(parse_value(s, i) =~~= Some((v, i + print_json(v).len())));
            } else {
                lemma_print_start(items[0]);
                assert(pi[0] == print_json(items[0])[0]);
                lemma_subrange_index(s, i + 1, pi, 0);
                assert(s[i + 1] == print_json(items[0])[0]);
                lemma_skip_ws_at(s, i + 1);
                assert(s[i + 1] != ']');
                lemma_parse_print_items(items, s, i + 1);
                assert(skip_ws(s, i + 1) == i + 1);
                assert(i + 1 + pi.len() + 1 == i + pl);
                assert(parse_items(s, i + 1) == Some((items, i + pl)));
                assert(parse_value(s, i) == Some((JsonV::Arr(items), i + pl)));
            }
            assert(parse_value(s, i) =~~= Some((v, i + print_json(v).len())));
        },
        JsonV::Obj(members) => {
            let pm = print_members(members);
            assert(p == seq!['{'] + pm + seq!['}']);
            assert(s[i] == '{');
            assert(p.subrange(1, 1 + pm.len() as int) =~= pm);
            lemma_subrange_sub(s, i, p, 1, 1 + pm.len() as int);
            lemma_subrange_index(s, i, p, pl - 1);
            assert(p[pl - 1] == '}');
            assert(s[i + 1 + pm.len()] == '}');
            if members.len() == 0 {
                assert(pm.len() == 0);
                assert(s[i + 1] == '}');
                lemma_skip_ws_at(s, i + 1);
                assert(members =~= Seq::<(Seq<char>, JsonV)>::empty());
                assert(parse_value(s, i) == Some((JsonV::Obj(Seq::empty()), i + 2)));
            } else {
                assert(pm[0] == '"') by {
                    assert(print_string(members[0].0)[0] == '"');
                }
                lemma_subrange_index(s, i + 1, pm, 0);
                assert(s[i + 1] == '"');
                lemma_skip_ws_at(s, i + 1);
                assert(s[i + 1] != '}');
                lemma_parse_print_members(members, s, i + 1);
                assert(skip_ws(s, i + 1) == i + 1);
                assert(i + 1 + pm.len() + 1 == i + pl);
                assert(parse_members(s, i + 1) == Some((members, i + pl)));
                assert(parse_value(s, i) == Some((JsonV::Obj(members), i + pl)));
            }
            assert(parse_value(s, i) =~~= Some((v, i + print_json(v).len())));
        },
    }
}

/// Parsing printed array items from after the opening bracket returns exactly
/// those items and stops after the closing bracket.
#[verifier::rlimit(100)]
#[verifier::spinoff_prover]
pub proof fn lemma_parse_print_items(items: Seq<JsonV>, s: Seq<char>, i: int)
    requires
        items.len() >= 1,
        forall|k: int| 0 <= k < items.len() ==> wf_json(#[trigger] items[k]),
        0 <= i,
        i + print_items(items).len() + 1 <= s.len(),
        s.subrange(i, i + print_items(items).len()) == print_items(items),
        s[i + print_items(items).len()] == ']',
    ensures
        parse_items(s, i) == Some((items, i + print_items(items).len() + 1)),
    decreases items, 0int,
{
    let v0 = items[0];
    let p0 = print_json(v0);
    let pi = print_items(items);
    lemma_print_start(v0);
    if items.len() == 1 {
        assert(pi == p0);
        lemma_subrange_index(s, i, pi, 0);
        lemma_skip_ws_at(s, i);
        assert(!is_dec_digit(']'));
        lemma_parse_print_value(v0, s, i);
        let k = i + p0.len();
        assert(s[k as int] == ']');
        lemma_skip_ws_at(s, k as int);
        assert(seq![v0] =~= items);
    } else {
        let rest = items.drop_first();
        let pr = print_items(rest);
        assert(pi == p0 + seq![','] + pr);
        assert(pi.subrange(0, p0.len() as int) =~= p0);
        lemma_subrange_sub(s, i, pi, 0, p0.len() as int);
        let k = i + p0.len();
        lemma_subrange_index(s, i, pi, p0.len() as int);
        assert(pi[p0.len() as int] == ',');
        assert(s[k as int] == ',');
        assert(pi.subrange(p0.len() + 1 as int, pi.len() as int) =~= pr);
        lemma_subrange_sub(s, i, pi, p0.len() + 1 as int, pi.len() as int);
        lemma_subrange_index(s, i, pi, 0);
        lemma_skip_ws_at(s, i);
        assert(!is_dec_digit(','));
        lemma_parse_print_value(v0, s, i);
        lemma_skip_ws_at(s, k as int);
        lemma_parse_print_items(rest, s, k + 1);
        assert(seq![v0] + rest =~= items);
    }
}

/// Parsing printed object members from after the opening brace returns
/// exactly those members and stops after the closing brace.
#[verifier::rlimit(100)]
#[verifier::spinoff_prover]
pub proof fn lemma_parse_print_members(members: Seq<(Seq<char>, JsonV)>, s: Seq<char>, i: int)
    requires
        members.len() >= 1,
        forall|k: int| 0 <= k < members.len() ==> wf_json(#[trigger] members[k].1),
        0 <= i,
        i + print_members(members).len() + 1 <= s.len(),
        s.subrange(i, i + print_members(members).len()) == print_members(members),
        s[i + print_members(members).len()] == '}',
    ensures
        parse_members(s, i) == Some((members, i + print_members(members).len() + 1)),
    decreases members, 0int,
{
    let key0 = members[0].0;
    let v0 = members[0].1;
    let ps = print_string(key0);
    let p0 = print_json(v0);
    let pm = print_members(members);
    let head = ps + seq![':'] + p0;
    lemma_print_start(v0);
    // the head of the printed members: "key":value
    assert(pm.subrange(0, head.len() as int) =~= head) by {
        if members.len() == 1 {
            assert(pm == head);
        } else {
            assert(pm == head + seq![','] + print_members(members.drop_first()));
        }
    }
    lemma_subrange_sub(s, i, pm, 0, head.len() as int);
    // the key string: s[i] == '"', body, closing quote
    let es = escape_seq(key0);
    assert(head.subrange(0, ps.len() as int) =~= ps);
    lemma_subrange_sub(s, i, head, 0, ps.len() as int);
    assert(ps == seq!['"'] + es + seq!['"']);
    assert(ps.subrange(1, 1 + es.len() as int) =~= es);
    lemma_subrange_sub(s, i, ps, 1, 1 + es.len() as int);
    lemma_subrange_index(s, i, ps, 0);
    assert(s[i] == '"');
    lemma_skip_ws_at(s, i);
    lemma_subrange_index(s, i, ps, ps.len() - 1);
    assert(ps[ps.len() - 1] == '"');
    assert(s[i + ps.len() - 1] == '"');
    lemma_parse_print_string_body(key0, s, i + 1);
    let k = i + ps.len();
    assert(parse_string_rest(s, i + 1) == Some((key0, k)));
    // the colon
    lemma_subrange_index(s, i, head, ps.len() as int);
    assert(head[ps.len() as int] == ':');
    assert(s[k] == ':');
    lemma_skip_ws_at(s, k);
    // the value
    assert(head.subrange(ps.len() + 1 as int, head.len() as int) =~= p0);
    lemma_subrange_sub(s, i, head, ps.len() + 1 as int, head.len() as int);
    lemma_subrange_index(s, k + 1, p0, 0);
    lemma_skip_ws_at(s, k + 1);
    let q = k + 1 + p0.len();
    // what follows the value: a comma or the closing brace
    if members.len() == 1 {
        assert(pm == head);
        assert(s[q] == '}');
        assert(!is_dec_digit('}'));
        lemma_parse_print_value(v0, s, k + 1);
        lemma_skip_ws_at(s, q);
        assert(seq![(key0, v0)] =~= members);
    } else {
        let rest = members.drop_first();
        let pr = print_members(rest);
        assert(pm == head + seq![','] + pr);
        lemma_subrange_index(s, i, pm, head.len() as int);
        assert(pm[head.len() as int] == ',');
        assert(s[q] == ',');
        assert(!is_dec_digit(','));
        lemma_parse_print_value(v0, s, k + 1);
        lemma_skip_ws_at(s, q);
        assert(pm.subrange(head.len() + 1 as int, pm.len() as int) =~= pr);
        lemma_subrange_sub(s, i, pm, head.len() + 1 as int, pm.len() as int);
        lemma_parse_print_members(rest, s, q + 1);
        assert(seq![(key0, v0)] + rest =~= members);
    }
}

/// The round trip at the text level: parsing the canonical printed text of a
/// machine-representable JSON value gives back exactly that value.
pub proof fn lemma_parse_print_json(v: JsonV)
    requires
        wf_json(v),
    ensures
        spec_parse_json(print_json(v)) == Some(v),
{
    let s = print_json(v);
    lemma_print_start(v);
    lemma_skip_ws_at(s, 0);
    assert(s.subrange(0, s.len() as int) =~= s);
    lemma_parse_print_value(v, s, 0);
    lemma_skip_ws_at(s, s.len() as int);
}

/// Relies on `char::from_u32`: `Some` exactly for valid code points (not a
/// surrogate and at most `0x10FFFF`), whose code is the argument.
#[verifier::external_body]
fn char_from_u32(v: u32) -> (r: Option<char>)
    ensures
        match r {
            Some(c) => c as u32 == v,
            None => !(v < 0xD800 || (0xE000 <= v && v <= 0x10FFFF)),
        },
{
    char::from_u32(v)
}

/// Exact whitespace skip.
fn skip_ws_exec(s: &Vec<char>, i: usize) -> (r: usize)
    requires
        i <= s@.len(),
    ensures
        r as int == skip_ws(s@, i as int),
        i <= r <= s@.len(),
{
    let mut j = i;
    while j < s.len() && (s[j] == ' ' || s[j] == '\t' || s[j] == '\n' || s[j] == '\r')
        invariant
            i <= j <= s@.len(),
            skip_ws(s@, i as int) == skip_ws(s@, j as int),
        decreases s@.len() - j,
    {
        j = j + 1;
    }
    j
}

/// Exact string-body parse, from just after an opening quote.
fn parse_string_rest_exec(s: &Vec<char>, i: usize) -> (r: Result<(String, usize), ()>)
    requires
        i <= s@.len(),
    ensures
        match r {
            Ok((content, j)) => parse_string_rest(s@, i as int) == Some((content@, j as int))
                && i < j <= s@.len(),
            Err(()) => parse_string_rest(s@, i as int) is None,
        },
{
    let mut acc = String::new();
    let mut k = i;
    proof {
        match parse_string_rest(s@, i as int) {
            Some((rest, j)) => {
                assert(acc@ + rest =~= rest);
            },
            None => {},
        }
    }
    loop
        invariant
            i <= k <= s@.len(),
            match parse_string_rest(s@, k as int) {
                Some((rest, j)) => parse_string_rest(s@, i as int) == Some((acc@ + rest, j)),
                None => parse_string_rest(s@, i as int) is None,
            },
        decreases s@.len() - k,
    {
        let n = s.len();
        if k >= n {
            return Err(());
        }
        let c = s[k];
        if c == '"' {
            proof {
                assert(acc@ + Seq::<char>::empty() =~= acc@);
            }
            return Ok((acc, k + 1));
        }
        let ghost acc0 = acc@;
        if c == '\\' {
            if k + 1 >= n {
                return Err(());
            }
            let e = s[k + 1];
            if e == '"' || e == '\\' || e == '/' {
                push_char(&mut acc, e);
                proof {
                    match parse_string_rest(s@, (k + 2) as int) {
                        Some((rest, j)) => {
                            assert(acc@ + rest =~= acc0 + (seq![e] + rest));
                        },
                        None => {},
                    }
                }
                k = k + 2;
            } else if e == 'b' || e == 'f' || e == 'n' || e == 'r' || e == 't' {
                let c2 = if e == 'b' {
                    '\u{8}'
                } else if e == 'f' {
                    '\u{c}'
                } else if e == 'n' {
                    '\n'
                } else if e == 'r' {
                    '\r'
                } else {
                    '\t'
                };
                push_char(&mut acc, c2);
                proof {
                    match parse_string_rest(s@, (k + 2) as int) {
                        Some((rest, j)) => {
                            assert(acc@ + rest =~= acc0 + (seq![c2] + rest));
                        },
                        None => {},
                    }
                }
                k = k + 2;
            } else if e == 'u' {
                if n - k < 6 {
                    return Err(());
                }
                let d0 = s[k + 2];
                let d1 = s[k + 3];
                let d2 = s[k + 4];
                let d3 = s[k + 5];
                if !(crate::text::is_hex_digit_exec(d0) && crate::text::is_hex_digit_exec(d1)
                    && crate::text::is_hex_digit_exec(d2) && crate::text::is_hex_digit_exec(
                    d3,
                )) {
                    return Err(());
                }
                let v: u32 = ((crate::text::hex_val_exec(d0) * 16 + crate::text::hex_val_exec(d1))
                    * 16 + crate::text::hex_val_exec(d2)) * 16 + crate::text::hex_val_exec(d3);
                proof {
                    let g3 = s@.subrange(k + 2, k + 6);
                    let g2 = s@.subrange(k + 2, k + 5);
                    let g1 = s@.subrange(k + 2, k + 4);
                    let g0 = s@.subrange(k + 2, k + 3);
                    assert(hex_seq_val(Seq::<char>::empty()) == 0);
                    assert(g0.drop_last() =~= Seq::<char>::empty());
                    assert(g1.drop_last() =~= g0);
                    assert(g2.drop_last() =~= g1);
                    assert(g3.drop_last() =~= g2);
                    assert(g0.last() == s@[k + 2]);
                    assert(g1.last() == s@[k + 3]);
                    assert(g2.last() == s@[k + 4]);
                    assert(g3.last() == s@[k + 5]);
                    assert(hex_seq_val(g0) == hex_val(s@[k + 2]));
                    assert(hex_seq_val(g1) == hex_seq_val(g0) * 16 + hex_val(s@[k + 3]));
                    assert(hex_seq_val(g2) == hex_seq_val(g1) * 16 + hex_val(s@[k + 4]));
                    assert(hex_seq_val(g3) == hex_seq_val(g2) * 16 + hex_val(s@[k + 5]));
                    assert(hex_seq_val(g3) == v);
                }
                if 0xD800 <= v && v < 0xE000 {
                    return Err(());
                }
                match char_from_u32(v) {
                    Some(c2) => {
                        proof {
                            vstd::utf8::char_u32_cast(c2, v);
                            assert(char_from_code(v) == c2);
                        }
                        push_char(&mut acc, c2);
                        proof {
                            match parse_string_rest(s@, (k + 6) as int) {
                                Some((rest, j)) => {
                                    assert(acc@ + rest =~= acc0 + (seq![c2] + rest));
                                },
                                None => {},
                            }
                        }
                        k = k + 6;
                    },
                    None => {
                        proof {
                            assert(false);
                        }
                        return Err(());
                    },
                }
            } else {
                return Err(());
            }
        } else if (c as u32) < 0x20 {
            return Err(());
        } else {
            push_char(&mut acc, c);
            proof {
                match parse_string_rest(s@, (k + 1) as int) {
                    Some((rest, j)) => {
                        assert(acc@ + rest =~= acc0 + (seq![c] + rest));
                    },
                    None => {},
                }
            }
            k = k + 1;
        }
    }
}

/// Exact number parse.
fn parse_number_exec(s: &Vec<char>, i: usize) -> (r: Result<(JsonValue, usize), ()>)
    requires
        i < s@.len(),
    ensures
        match r {
            Ok((v, j)) => parse_number(s@, i as int) == Some((v@, j as int)) && i < j
                <= s@.len(),
            Err(()) => parse_number(s@, i as int) is None,
        },
{
    let n = s.len();
    let neg = s[i] == '-';
    let d0: usize = if neg {
        i + 1
    } else {
        i
    };
    let mut k = d0;
    let mut mag: u128 = 0;
    let mut sat = false;
    let ghost sq = s@;
    while k < n && crate::text::is_dec_digit_exec(s[k])
        invariant
            d0 <= k <= sq.len(),
            sq == s@,
            d0 <= sq.len(),
            n == sq.len(),
            digits_end(sq, d0 as int) == digits_end(sq, k as int),
            !sat ==> mag == dec_seq_val(sq.subrange(d0 as int, k as int)),
            !sat ==> mag <= 0x8000000000000000,
            sat ==> dec_seq_val(sq.subrange(d0 as int, k as int)) > 0x8000000000000000,
        decreases sq.len() - k,
    {
        let d = crate::text::dec_val_exec(s[k]);
        proof {
            assert(sq.subrange(d0 as int, (k + 1) as int).drop_last() =~= sq.subrange(
                d0 as int,
                k as int,
            ));
            assert(sq.subrange(d0 as int, (k + 1) as int).last() == sq[k as int]);
        }
        if !sat {
            let nm: u128 = mag * 10 + (d as u128);
            if nm > 0x8000000000000000 {
                sat = true;
                proof {
                    assert(dec_seq_val(sq.subrange(d0 as int, (k + 1) as int)) == nm);
                }
            } else {
                mag = nm;
            }
        }
        k = k + 1;
    }
    proof {
        assert(digits_end(sq, k as int) == k);
    }
    if k == d0 {
        return Err(());
    }
    if sat {
        return Err(());
    }
    if neg {
        let v: i64 = if mag == 0x8000000000000000 {
            i64::MIN
        } else {
            -(mag as i64)
        };
        Ok((JsonValue::Int(v), k))
    } else {
        if mag > 0x7FFFFFFFFFFFFFFF {
            return Err(());
        }
        Ok((JsonValue::Int(mag as i64), k))
    }
}

/// Exact value parse at a non-whitespace position.
fn parse_value_exec(s: &Vec<char>, i: usize) -> (r: Result<(JsonValue, usize), ()>)
    requires
        i <= s@.len(),
    ensures
        match r {
            Ok((v, j)) => parse_value(s@, i as int) == Some((v@, j as int)) && i < j <= s@.len(),
            Err(()) => parse_value(s@, i as int) is None,
        },
    decreases s@.len() - i, 1int,
{
    broadcast use lemma_jsons_view, lemma_members_view;

    let n = s.len();
    if i >= n {
        return Err(());
    }
    let c = s[i];
    if c == 'n' {
        if n - i >= 4 && s[i + 1] == 'u' && s[i + 2] == 'l' && s[i + 3] == 'l' {
            proof {
                reveal_strlit("null");
                assert(s@.subrange(i as int, i + 4) =~= "null"@);
            }
            Ok((JsonValue::Null, i + 4))
        } else {
            proof {
                reveal_strlit("null");
                if i + 4 <= s@.len() {
                    assert(s@.subrange(i as int, i + 4)[1] == s@[i + 1]);
                    assert(s@.subrange(i as int, i + 4)[2] == s@[i + 2]);
                    assert(s@.subrange(i as int, i + 4)[3] == s@[i + 3]);
                }
            }
            Err(())
        }
    } else if c == 't' {
        if n - i >= 4 && s[i + 1] == 'r' && s[i + 2] == 'u' && s[i + 3] == 'e' {
            proof {
                reveal_strlit("true");
                assert(s@.subrange(i as int, i + 4) =~= "true"@);
            }
            Ok((JsonValue::Bool(true), i + 4))
        } else {
            proof {
                reveal_strlit("true");
                if i + 4 <= s@.len() {
                    assert(s@.subrange(i as int, i + 4)[1] == s@[i + 1]);
                    assert(s@.subrange(i as int, i + 4)[2] == s@[i + 2]);
                    assert(s@.subrange(i as int, i + 4)[3] == s@[i + 3]);
                }
            }
            Err(())
        }
    } else if c == 'f' {
        if n - i >= 5 && s[i + 1] == 'a' && s[i + 2] == 'l' && s[i + 3] == 's' && s[i + 4] == 'e' {
            proof {
                reveal_strlit("false");
                assert(s@.subrange(i as int, i + 5) =~= "false"@);
            }
            Ok((JsonValue::Bool(false), i + 5))
        } else {
            proof {
                reveal_strlit("false");
                if i + 5 <= s@.len() {
                    assert(s@.subrange(i as int, i + 5)[1] == s@[i + 1]);
                    assert(s@.subrange(i as int, i + 5)[2] == s@[i + 2]);
                    assert(s@.subrange(i as int, i + 5)[3] == s@[i + 3]);
                    assert(s@.subrange(i as int, i + 5)[4] == s@[i + 4]);
                }
            }
            Err(())
        }
    } else if c == '-' || crate::text::is_dec_digit_exec(c) {
        parse_number_exec(s, i)
    } else if c == '"' {
        match parse_string_rest_exec(s, i + 1) {
            Ok((content, j)) => Ok((JsonValue::Str(content), j)),
            Err(()) => Err(()),
        }
    } else if c == '[' {
        let j = skip_ws_exec(s, i + 1);
        if j < n && s[j] == ']' {
            let items: Vec<JsonValue> = Vec::new();
            proof {
                assert(jsons_view(items@) =~= Seq::<JsonV>::empty());
            }
            Ok((JsonValue::Arr(items), j + 1))
        } else {
            match parse_items_exec(s, i + 1) {
                Ok((items, e)) => Ok((JsonValue::Arr(items), e)),
                Err(()) => Err(()),
            }
        }
    } else if c == '{' {
        let j = skip_ws_exec(s, i + 1);
        if j < n && s[j] == '}' {
            let members: Vec<(String, JsonValue)> = Vec::new();
            proof {
                assert(members_view(members@) =~= Seq::<(Seq<char>, JsonV)>::empty());
            }
            Ok((JsonValue::Obj(members), j + 1))
        } else {
            match parse_members_exec(s, i + 1) {
                Ok((members, e)) => Ok((JsonValue::Obj(members), e)),
                Err(()) => Err(()),
            }
        }
    } else {
        Err(())
    }
}

/// Exact array-items parse, from just after the `[` or a comma.
fn parse_items_exec(s: &Vec<char>, i: usize) -> (r: Result<(Vec<JsonValue>, usize), ()>)
    requires
        i <= s@.len(),
    ensures
        match r {
            Ok((items, e)) => parse_items(s@, i as int) == Some((jsons_view(items@), e as int))
                && i < e <= s@.len(),
            Err(()) => parse_items(s@, i as int) is None,
        },
    decreases s@.len() - i, 2int,
{
    broadcast use lemma_jsons_view;

    let mut acc: Vec<JsonValue> = Vec::new();
    let mut k = i;
    proof {
        match parse_items(s@, i as int) {
            Some((rest, e)) => {
                assert(jsons_view(acc@) =~= Seq::<JsonV>::empty());
                assert(jsons_view(acc@) + rest =~= rest);
            },
            None => {
                assert(jsons_view(acc@) =~= Seq::<JsonV>::empty());
            },
        }
    }
    loop
        invariant
            i <= k <= s@.len(),
            match parse_items(s@, k as int) {
                Some((rest, e)) => parse_items(s@, i as int) == Some(
                    (jsons_view(acc@) + rest, e),
                ),
                None => parse_items(s@, i as int) is None,
            },
        decreases s@.len() - k,
    {
        let j = skip_ws_exec(s, k);
        match parse_value_exec(s, j) {
            Err(()) => {
                return Err(());
            },
            Ok((v, n2)) => {
                let ghost vv = v@;
                let ghost acc0 = acc@;
                let m = skip_ws_exec(s, n2);
                acc.push(v);
                proof {
                    assert(acc@.drop_last() =~= acc0);
                    assert(jsons_view(acc@) =~= jsons_view(acc0).push(vv));
                }
                if m < s.len() && s[m] == ',' {
                    proof {
                        match parse_items(s@, (m + 1) as int) {
                            Some((rest, e)) => {
                                assert(jsons_view(acc@) + rest =~= jsons_view(acc0) + (seq![vv]
                                    + rest));
                            },
                            None => {},
                        }
                    }
                    k = m + 1;
                } else if m < s.len() && s[m] == ']' {
                    proof {
                        assert(jsons_view(acc0) + seq![vv] =~= jsons_view(acc@));
                    }
                    return Ok((acc, m + 1));
                } else {
                    return Err(());
                }
            },
        }
    }
}

/// Exact object-members parse, from just after the `{` or a comma.
fn parse_members_exec(s: &Vec<char>, i: usize) -> (r: Result<(Vec<(String, JsonValue)>, usize), ()>)
    requires
        i <= s@.len(),
    ensures
        match r {
            Ok((members, e)) => parse_members(s@, i as int) == Some(
                (members_view(members@), e as int),
            ) && i < e <= s@.len(),
            Err(()) => parse_members(s@, i as int) is None,
        },
    decreases s@.len() - i, 2int,
{
    broadcast use lemma_members_view;

    let mut acc: Vec<(String, JsonValue)> = Vec::new();
    let mut k = i;
    proof {
        match parse_members(s@, i as int) {
            Some((rest, e)) => {
                assert(members_view(acc@) =~= Seq::<(Seq<char>, JsonV)>::empty());
                assert(members_view(acc@) + rest =~= rest);
            },
            None => {
                assert(members_view(acc@) =~= Seq::<(Seq<char>, JsonV)>::empty());
            },
        }
    }
    loop
        invariant
            i <= k <= s@.len(),
            match parse_members(s@, k as int) {
                Some((rest, e)) => parse_members(s@, i as int) == Some(
                    (members_view(acc@) + rest, e),
                ),
                None => parse_members(s@, i as int) is None,
            },
        decreases s@.len() - k,
    {
        let j = skip_ws_exec(s, k);
        if !(j < s.len() && s[j] == '"') {
            return Err(());
        }
        match parse_string_rest_exec(s, j + 1) {
            Err(()) => {
                return Err(());
            },
            Ok((key, k2)) => {
                let m = skip_ws_exec(s, k2);
                if !(m < s.len() && s[m] == ':') {
                    return Err(());
                }
                let n2 = skip_ws_exec(s, m + 1);
                match parse_value_exec(s, n2) {
                    Err(()) => {
                        return Err(());
                    },
                    Ok((v, q)) => {
                        let ghost acc0 = acc@;
                        let ghost keyv = key@;
                        let ghost vv = v@;
                        let r2 = skip_ws_exec(s, q);
                        acc.push((key, v));
                        proof {
                            assert(acc@.drop_last() =~= acc0);
                            assert(members_view(acc@) =~= members_view(acc0).push((keyv, vv)));
                        }
                        if r2 < s.len() && s[r2] == ',' {
                            proof {
                                match parse_members(s@, (r2 + 1) as int) {
                                    Some((rest, e)) => {
                                        assert(members_view(acc@) + rest =~= members_view(acc0)
                                            + (seq![(keyv, vv)] + rest));
                                    },
                                    None => {},
                                }
                            }
                            k = r2 + 1;
                        } else if r2 < s.len() && s[r2] == '}' {
                            proof {
                                assert(members_view(acc0) + seq![(keyv, vv)] =~= members_view(
                                    acc@,
                                ));
                            }
                            return Ok((acc, r2 + 1));
                        } else {
                            return Err(());
                        }
                    },
                }
            },
        }
    }
}

/// Parses a whole text as one JSON value, surrounding whitespace aside.
pub fn parse_json(text: &str) -> (r: Result<JsonValue, ()>)
    ensures
        match r {
            Ok(v) => spec_parse_json(text@) == Some(v@),
            Err(()) => spec_parse_json(text@) is None,
        },
{
    let chars = crate::text::str_chars(text);
    let i = skip_ws_exec(&chars, 0);
    match parse_value_exec(&chars, i) {
        Err(()) => Err(()),
        Ok((v, j)) => {
            let e = skip_ws_exec(&chars, j);
            if e == chars.len() {
                Ok(v)
            } else {
                Err(())
            }
        },
    }
}

} // verus!

//! Character- and string-level helpers shared by the markup tokenizer and the
//! JSON codec: exact string equality, character classification, and decimal /
//! hexadecimal digit encodings.

use vstd::prelude::*;
use vstd::string::StrSliceExecFns;

verus! {

/// Relies on `String::push`: appends the given `char` to the end of the string.
#[verifier::external_body]
pub(crate) fn push_char(s: &mut String, c: char)
    ensures
        final(s)@ == old(s)@.push(c),
{
    s.push(c);
}

/// Exact character-for-character equality of two string slices.
pub fn str_eq(a: &str, b: &str) -> (r: bool)
    ensures
        r == (a@ == b@),
{
    let alen = a.unicode_len();
    let blen = b.unicode_len();
    if alen != blen {
        return false;
    }
    let mut i: usize = 0;
    while i < alen
        invariant
            i <= alen,
            alen == a@.len(),
            alen == b@.len(),
            forall|j: int| 0 <= j < i ==> a@[j] == b@[j],
        decreases alen - i,
    {
        if a.get_char(i) != b.get_char(i) {
            return false;
        }
        i = i + 1;
    }
    proof {
        assert(a@ =~= b@);
    }
    true
}

/// The characters of a string slice, collected into a vector.
pub fn str_chars(s: &str) -> (r: Vec<char>)
    ensures
        r@ == s@,
{
    let len = s.unicode_len();
    let mut r: Vec<char> = Vec::new();
    let mut i: usize = 0;
    while i < len
        invariant
            i <= len,
            len == s@.len(),
            r@ == s@.subrange(0, i as int),
        decreases len - i,
    {
        r.push(s.get_char(i));
        proof {
            assert(r@ =~= s@.subrange(0, (i + 1) as int));
        }
        i = i + 1;
    }
    proof {
        assert(r@ =~= s@);
    }
    r
}

/// Builds the string of the characters `v[lo..hi]`.
pub(crate) fn substring_chars(v: &Vec<char>, lo: usize, hi: usize) -> (r: String)
    requires
        lo <= hi <= v@.len(),
    ensures
        r@ == v@.subrange(lo as int, hi as int),
{
    let mut r = String::new();
    let mut i: usize = lo;
    while i < hi
        invariant
            lo <= i <= hi <= v@.len(),
            r@ == v@.subrange(lo as int, i as int),
        decreases hi - i,
    {
        push_char(&mut r, v[i]);
        proof {
            assert(r@ =~= v@.subrange(lo as int, (i + 1) as int));
        }
        i = i + 1;
    }
    r
}

/// Whether `c` is an ASCII decimal digit.
pub open spec fn is_dec_digit(c: char) -> bool {
    48 <= c as u32 <= 57
}

/// The numeric value of a decimal digit character.
pub open spec fn dec_val(c: char) -> nat {
    (c as u32 - 48) as nat
}

/// Whether `c` is an ASCII hexadecimal digit (either case).
pub open spec fn is_hex_digit(c: char) -> bool {
    (48 <= c as u32 <= 57) || (97 <= c as u32 <= 102) || (65 <= c as u32 <= 70)
}

/// The numeric value of a hexadecimal digit character (either case).
pub open spec fn hex_val(c: char) -> nat {
    if 48 <= c as u32 <= 57 {
        (c as u32 - 48) as nat
    } else if 97 <= c as u32 <= 102 {
        (c as u32 - 87) as nat
    } else {
        (c as u32 - 55) as nat
    }
}

/// The decimal digit character for a value below ten.
pub open spec fn dec_digit_char(d: nat) -> char {
    if d == 0 { '0' } else if d == 1 { '1' } else if d == 2 { '2' }
    else if d == 3 { '3' } else if d == 4 { '4' } else if d == 5 { '5' }
    else if d == 6 { '6' } else if d == 7 { '7' } else if d == 8 { '8' }
    else { '9' }
}

/// The lowercase hexadecimal digit character for a value below sixteen.
pub open spec fn hex_digit_char_lower(d: nat) -> char {
    if d < 10 { dec_digit_char(d) }
    else if d == 10 { 'a' } else if d == 11 { 'b' } else if d == 12 { 'c' }
    else if d == 13 { 'd' } else if d == 14 { 'e' } else { 'f' }
}

/// The uppercase hexadecimal digit character for a value below sixteen.
pub open spec fn hex_digit_char_upper(d: nat) -> char {
    if d < 10 { dec_digit_char(d) }
    else if d == 10 { 'A' } else if d == 11 { 'B' } else if d == 12 { 'C' }
    else if d == 13 { 'D' } else if d == 14 { 'E' } else { 'F' }
}

/// Exact decimal digit character.
pub(crate) fn dec_digit(d: u64) -> (c: char)
    requires
        d < 10,
    ensures
        c == dec_digit_char(d as nat),
{
    if d == 0 { '0' } else if d == 1 { '1' } else if d == 2 { '2' }
    else if d == 3 { '3' } else if d == 4 { '4' } else if d == 5 { '5' }
    else if d == 6 { '6' } else if d == 7 { '7' } else if d == 8 { '8' }
    else { '9' }
}

/// Exact lowercase hexadecimal digit character.
pub(crate) fn hex_digit_lower(d: u64) -> (c: char)
    requires
        d < 16,
    ensures
        c == hex_digit_char_lower(d as nat),
{
    if d < 10 { dec_digit(d) }
    else if d == 10 { 'a' } else if d == 11 { 'b' } else if d == 12 { 'c' }
    else if d == 13 { 'd' } else if d == 14 { 'e' } else { 'f' }
}

/// Exact uppercase hexadecimal digit character.
pub(crate) fn hex_digit_upper(d: u64) -> (c: char)
    requires
        d < 16,
    ensures
        c == hex_digit_char_upper(d as nat),
{
    if d < 10 { dec_digit(d) }
    else if d == 10 { 'A' } else if d == 11 { 'B' } else if d == 12 { 'C' }
    else if d == 13 { 'D' } else if d == 14 { 'E' } else { 'F' }
}

/// Exact decimal-digit test.
pub(crate) fn is_dec_digit_exec(c: char) -> (r: bool)
    ensures
        r == is_dec_digit(c),
{
    let v = c as u32;
    48 <= v && v <= 57
}

/// Exact decimal digit value.
pub(crate) fn dec_val_exec(c: char) -> (r: u32)
    requires
        is_dec_digit(c),
    ensures
        r == dec_val(c),
        r < 10,
{
    c as u32 - 48
}

/// Exact hexadecimal-digit test.
pub(crate) fn is_hex_digit_exec(c: char) -> (r: bool)
    ensures
        r == is_hex_digit(c),
{
    let v = c as u32;
    (48 <= v && v <= 57) || (97 <= v && v <= 102) || (65 <= v && v <= 70)
}

/// The value of a sequence of hexadecimal digits, most significant first.
pub open spec fn hex_seq_val(s: Seq<char>) -> nat
    decreases s.len(),
{
    if s.len() == 0 {
        0
    } else {
        hex_seq_val(s.drop_last()) * 16 + hex_val(s.last())
    }
}

/// The decimal representation of a natural number, most significant digit
/// first, with no leading zeros (a single `'0'` for zero).
pub open spec fn dec_rep(n: nat) -> Seq<char>
    decreases n,
{
    if n < 10 {
        seq![dec_digit_char(n)]
    } else {
        dec_rep(n / 10) + seq![dec_digit_char(n % 10)]
    }
}

/// The decimal representation of an integer: a leading `'-'` for negatives.
pub open spec fn int_rep(i: int) -> Seq<char> {
    if i >= 0 {
        dec_rep(i as nat)
    } else {
        seq!['-'] + dec_rep((-i) as nat)
    }
}

/// Appends the decimal representation of `n` to `out`.
pub(crate) fn write_dec_u64(n: u64, out: &mut String)
    ensures
        final(out)@ == old(out)@ + dec_rep(n as nat),
    decreases n,
{
    if n < 10 {
        push_char(out, dec_digit(n));
        proof {
            assert(final(out)@ =~= old(out)@ + dec_rep(n as nat));
        }
    } else {
        write_dec_u64(n / 10, out);
        push_char(out, dec_digit(n % 10));
        proof {
            assert(final(out)@ =~= old(out)@ + dec_rep(n as nat));
        }
    }
}

/// Appends the decimal representation of `n` to `out`, with a sign when
/// negative.
pub(crate) fn write_dec_i64(n: i64, out: &mut String)
    ensures
        final(out)@ == old(out)@ + int_rep(n as int),
{
    if n >= 0 {
        write_dec_u64(n as u64, out);
    } else {
        push_char(out, '-');
        let mag: u64 = ((-(n + 1)) as u64) + 1;
        write_dec_u64(mag, out);
        proof {
            assert(final(out)@ =~= old(out)@ + int_rep(n as int));
        }
    }
}

/// The six-character uppercase hexadecimal representation of a value below
/// `0x1000000`.
pub open spec fn hex6_upper(v: nat) -> Seq<char> {
    seq![
        hex_digit_char_upper((v / 0x100000) % 16),
        hex_digit_char_upper((v / 0x10000) % 16),
        hex_digit_char_upper((v / 0x1000) % 16),
        hex_digit_char_upper((v / 0x100) % 16),
        hex_digit_char_upper((v / 0x10) % 16),
        hex_digit_char_upper(v % 16),
    ]
}

/// Appends exactly six uppercase hexadecimal digits of `v % 0x1000000`.
pub(crate) fn write_hex6_upper(v: u32, out: &mut String)
    ensures
        final(out)@ == old(out)@ + hex6_upper((v as nat) % 0x1000000),
{
    let m: u32 = v % 0x1000000;
    push_char(out, hex_digit_upper(((m / 0x100000) % 16) as u64));
    push_char(out, hex_digit_upper(((m / 0x10000) % 16) as u64));
    push_char(out, hex_digit_upper(((m / 0x1000) % 16) as u64));
    push_char(out, hex_digit_upper(((m / 0x100) % 16) as u64));
    push_char(out, hex_digit_upper(((m / 0x10) % 16) as u64));
    push_char(out, hex_digit_upper((m % 16) as u64));
    proof {
        assert(final(out)@ =~= old(out)@ + hex6_upper((v as nat) % 0x1000000));
    }
}

/// Exact hexadecimal digit value.
pub(crate) fn hex_val_exec(c: char) -> (r: u32)
    requires
        is_hex_digit(c),
    ensures
        r == hex_val(c),
        r < 16,
{
    let v = c as u32;
    if 48 <= v && v <= 57 {
        v - 48
    } else if 97 <= v && v <= 102 {
        v - 87
    } else {
        v - 55
    }
}

} // verus!

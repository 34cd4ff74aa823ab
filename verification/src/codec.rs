//! The wire codec: a component tree encoded as the exact JSON object schema,
//! and decoded back. Encoding then decoding returns the original tree.

use vstd::prelude::*;
use crate::component::{
    color_string, component_view, components_view, empty_component_v, named_color_of_name,
    valid_hex_color, wf_color, wf_component, wf_contents, wf_hover, ClickEvent, ClickV, ColorV,
    Component, ComponentV, ContentsV, DisplayEntityData, DisplayItemData, EntityDataV,
    EntityMessage, EntityMsgV, HoverEvent, HoverV, ItemV, KeyMessage, KeyV, MessageContents,
    NamedColor, NbtMessage, NbtV, ScoreV, ScoreboardMessage, TextColor, TranslatedMessage,
    TranslatedV,
};
use crate::component::hover_view;
use crate::json::{
    json_view, jsons_view, lemma_members_view, members_view, wf_json, JsonV, JsonValue,
};
use crate::text::{
    hex_digit_char_lower, hex_digit_lower, hex_seq_val, hex_val, is_hex_digit, push_char,
    str_chars, str_eq, substring_chars, is_hex_digit_exec, hex_val_exec,
};

verus! {

broadcast use vstd::string::group_string_axioms;

/// Why a wire document failed to decode.
#[derive(Debug, Clone, Copy, PartialEq, Eq, Structural)]
pub enum DecodeError {
    /// The text is not a JSON value.
    Syntax,
    /// A field has the wrong JSON type, or an unknown field is present.
    WrongShape,
    /// A field appears twice in one object.
    DuplicateField,
    /// An action discriminator names no known action.
    UnknownDiscriminator,
    /// A color string is neither a named color nor `#` plus six hex digits.
    MalformedColor,
    /// A malformed unique-identifier string.
    MalformedId,
    /// Not exactly one contents payload present, an auxiliary contents field
    /// without its payload, or not exactly one NBT source.
    ContentsMismatch,
}

/// Exactly `digits` lowercase hexadecimal digits of `v`, most significant
/// first.
pub open spec fn hex_fixed(v: nat, digits: nat) -> Seq<char>
    decreases digits,
{
    if digits == 0 {
        Seq::empty()
    } else {
        hex_fixed(v / 16, (digits - 1) as nat).push(hex_digit_char_lower(v % 16))
    }
}

/// The hyphenated lowercase text of a 128-bit unique identifier: five groups
/// of 8, 4, 4, 4 and 12 hex digits.
pub open spec fn uuid_rep(id: u128) -> Seq<char> {
    let n = id as nat;
    hex_fixed(n / 0x1000000000000000000000000, 8) + seq!['-'] + hex_fixed(
        (n / 0x100000000000000000000) % 0x10000,
        4,
    ) + seq!['-'] + hex_fixed((n / 0x10000000000000000) % 0x10000, 4) + seq!['-'] + hex_fixed(
        (n / 0x1000000000000) % 0x10000,
        4,
    ) + seq!['-'] + hex_fixed(n % 0x1000000000000, 12)
}

/// Whether `s` has the hyphenated identifier form: 36 characters, hyphens at
/// the four fixed positions, hex digits everywhere else.
pub open spec fn valid_uuid_text(s: Seq<char>) -> bool {
    &&& s.len() == 36
    &&& s[8] == '-' && s[13] == '-' && s[18] == '-' && s[23] == '-'
    &&& forall|k: int|
        0 <= k < 36 && k != 8 && k != 13 && k != 18 && k != 23 ==> is_hex_digit(#[trigger] s[k])
}

/// The 32 hex digits of a hyphenated identifier, hyphens removed.
pub open spec fn uuid_digits(s: Seq<char>) -> Seq<char> {
    s.subrange(0, 8) + s.subrange(9, 13) + s.subrange(14, 18) + s.subrange(19, 23) + s.subrange(
        24,
        36,
    )
}

/// The identifier denoted by a hyphenated identifier text, if well-formed;
/// hex digits of either case are accepted.
pub open spec fn spec_parse_uuid(s: Seq<char>) -> Option<u128> {
    if valid_uuid_text(s) {
        Some(hex_seq_val(uuid_digits(s)) as u128)
    } else {
        None
    }
}

/// Appends exactly `digits` lowercase hex digits of `v`.
fn write_hex_fixed(v: u64, digits: u64, out: &mut String)
    ensures
        final(out)@ == old(out)@ + hex_fixed(v as nat, digits as nat),
    decreases digits,
{
    if digits == 0 {
        proof {
            assert(final(out)@ =~= old(out)@ + hex_fixed(v as nat, 0));
        }
    } else {
        write_hex_fixed(v / 16, digits - 1, out);
        push_char(out, hex_digit_lower(v % 16));
        proof {
            assert(final(out)@ =~= old(out)@ + hex_fixed(v as nat, digits as nat));
        }
    }
}

/// The hyphenated lowercase text of an identifier.
pub fn uuid_to_string(id: u128) -> (r: String)
    ensures
        r@ == uuid_rep(id),
{
    let mut out = String::new();
    let g1: u64 = (id / 0x1000000000000000000000000) as u64;
    let g2: u64 = ((id / 0x100000000000000000000) % 0x10000) as u64;
    let g3: u64 = ((id / 0x10000000000000000) % 0x10000) as u64;
    let g4: u64 = ((id / 0x1000000000000) % 0x10000) as u64;
    let g5: u64 = (id % 0x1000000000000) as u64;
    write_hex_fixed(g1, 8, &mut out);
    push_char(&mut out, '-');
    write_hex_fixed(g2, 4, &mut out);
    push_char(&mut out, '-');
    write_hex_fixed(g3, 4, &mut out);
    push_char(&mut out, '-');
    write_hex_fixed(g4, 4, &mut out);
    push_char(&mut out, '-');
    write_hex_fixed(g5, 12, &mut out);
    proof {
        assert(out@ =~= uuid_rep(id));
    }
    out
}

/// Sixteen to the given power.
pub open spec fn pow16(d: nat) -> nat
    decreases d,
{
    if d == 0 {
        1
    } else {
        16 * pow16((d - 1) as nat)
    }
}

/// Sixteen to a larger power is at least as large.
proof fn lemma_pow16_le(a: nat, b: nat)
    requires
        a <= b,
    ensures
        pow16(a) <= pow16(b),
    decreases b,
{
    if a < b {
        lemma_pow16_le(a, (b - 1) as nat);
        assert(pow16((b - 1) as nat) >= 1) by {
            lemma_pow16_pos((b - 1) as nat);
        }
    }
}

/// Sixteen to any power is positive.
proof fn lemma_pow16_pos(d: nat)
    ensures
        pow16(d) >= 1,
    decreases d,
{
    if d > 0 {
        lemma_pow16_pos((d - 1) as nat);
    }
}

/// The value of sixteen to the thirty-second power.
proof fn lemma_pow16_32()
    ensures
        pow16(32) == 0x100000000000000000000000000000000,
{
    reveal_with_fuel(pow16, 33);
}

/// How many of the first `k` characters of a hyphenated identifier are hex
/// digits: all but the hyphens at the four fixed positions.
pub open spec fn digit_count(k: int) -> int {
    k - (if k > 8 { 1int } else { 0 }) - (if k > 13 { 1int } else { 0 }) - (if k > 18 {
        1int
    } else {
        0
    }) - (if k > 23 { 1int } else { 0 })
}

/// The digit at stripped position `digit_count(k)` is the character at `k`.
proof fn lemma_uuid_digit_index(s: Seq<char>, k: int)
    requires
        s.len() == 36,
        0 <= k < 36,
        k != 8 && k != 13 && k != 18 && k != 23,
    ensures
        0 <= digit_count(k) < 32,
        uuid_digits(s)[digit_count(k)] == s[k],
{
}

/// Parses a hyphenated identifier text back into its 128-bit value.
pub fn uuid_from_string(s: &String) -> (r: Option<u128>)
    ensures
        r == spec_parse_uuid(s@),
{
    let chars = str_chars(s.as_str());
    if chars.len() != 36 {
        return None;
    }
    if !(chars[8] == '-' && chars[13] == '-' && chars[18] == '-' && chars[23] == '-') {
        return None;
    }
    let mut acc: u128 = 0;
    let mut k: usize = 0;
    let ghost digits = uuid_digits(s@);
    proof {
        assert(digits.subrange(0, 0) =~= Seq::<char>::empty());
        assert(digits.len() == 32);
    }
    while k < 36
        invariant
            k <= 36,
            chars@ == s@,
            chars@.len() == 36,
            digits == uuid_digits(s@),
            digits.len() == 32,
            chars@[8] == '-' && chars@[13] == '-' && chars@[18] == '-' && chars@[23] == '-',
            forall|m: int|
                0 <= m < k && m != 8 && m != 13 && m != 18 && m != 23 ==> is_hex_digit(
                    #[trigger] chars@[m],
                ),
            0 <= digit_count(k as int) <= 32,
            acc == hex_seq_val(digits.subrange(0, digit_count(k as int))),
            acc < pow16(digit_count(k as int) as nat),
        decreases 36 - k,
    {
        let c = chars[k];
        if k == 8 || k == 13 || k == 18 || k == 23 {
            proof {
                assert(digit_count((k + 1) as int) == digit_count(k as int));
            }
        } else {
            if !is_hex_digit_exec(c) {
                return None;
            }
            let d = hex_val_exec(c);
            proof {
                let dc = digit_count(k as int);
                lemma_uuid_digit_index(s@, k as int);
                assert(digits[dc] == chars@[k as int]);
                assert(digits.subrange(0, dc + 1).drop_last() =~= digits.subrange(0, dc));
                assert(digits.subrange(0, dc + 1).last() == digits[dc]);
                assert(digit_count((k + 1) as int) == dc + 1);
                lemma_pow16_le((dc + 1) as nat, 32);
                lemma_pow16_32();
                assert(pow16((dc + 1) as nat) == 16 * pow16(dc as nat));
            }
            acc = acc * 16 + (d as u128);
        }
        k = k + 1;
    }
    proof {
        assert(digit_count(36) == 32);
        assert(digits.subrange(0, 32) =~= digits);
        assert(valid_uuid_text(s@));
    }
    Some(acc)
}

/// Reading back the printed identifier gives the identifier itself.
#[verifier::rlimit(100)]
pub proof fn lemma_uuid_roundtrip(id: u128)
    ensures
        spec_parse_uuid(uuid_rep(id)) == Some(id),
{
    let n = id as nat;
    let g1 = n / 0x1000000000000000000000000;
    let g2 = (n / 0x100000000000000000000) % 0x10000;
    let g3 = (n / 0x10000000000000000) % 0x10000;
    let g4 = (n / 0x1000000000000) % 0x10000;
    let g5 = n % 0x1000000000000;
    let s = uuid_rep(id);
    lemma_hex_fixed_len_digits(g1, 8);
    lemma_hex_fixed_len_digits(g2, 4);
    lemma_hex_fixed_len_digits(g3, 4);
    lemma_hex_fixed_len_digits(g4, 4);
    lemma_hex_fixed_len_digits(g5, 12);
    assert(s.len() == 36);
    assert(s[8] == '-' && s[13] == '-' && s[18] == '-' && s[23] == '-');
    assert(s.subrange(0, 8) =~= hex_fixed(g1, 8));
    assert(s.subrange(9, 13) =~= hex_fixed(g2, 4));
    assert(s.subrange(14, 18) =~= hex_fixed(g3, 4));
    assert(s.subrange(19, 23) =~= hex_fixed(g4, 4));
    assert(s.subrange(24, 36) =~= hex_fixed(g5, 12));
    assert forall|k: int|
        0 <= k < 36 && k != 8 && k != 13 && k != 18 && k != 23 implies is_hex_digit(
        #[trigger] s[k],
    ) by {}
    assert(valid_uuid_text(s));
    let ds = uuid_digits(s);
    assert(ds == hex_fixed(g1, 8) + s.subrange(9, 13) + s.subrange(14, 18) + s.subrange(19, 23)
        + s.subrange(24, 36));
    lemma_hex_seq_val_fixed(g1, 8);
    lemma_hex_seq_val_fixed(g2, 4);
    lemma_hex_seq_val_fixed(g3, 4);
    lemma_hex_seq_val_fixed(g4, 4);
    lemma_hex_seq_val_fixed(g5, 12);
    lemma_hex_seq_val_concat(hex_fixed(g1, 8), hex_fixed(g2, 4));
    let h12 = hex_fixed(g1, 8) + hex_fixed(g2, 4);
    lemma_hex_seq_val_concat(h12, hex_fixed(g3, 4));
    let h123 = h12 + hex_fixed(g3, 4);
    lemma_hex_seq_val_concat(h123, hex_fixed(g4, 4));
    let h1234 = h123 + hex_fixed(g4, 4);
    lemma_hex_seq_val_concat(h1234, hex_fixed(g5, 12));
    assert(ds =~= h1234 + hex_fixed(g5, 12));
    reveal_with_fuel(pow16, 13);
    assert(pow16(4) == 0x10000);
    assert(pow16(12) == 0x1000000000000);
    // the group values are below the group bounds
    assert(g1 < 0x100000000) by {
        assert(n < 0x100000000000000000000000000000000);
        vstd::arithmetic::div_mod::lemma_multiply_divide_lt(
            n as int,
            0x1000000000000000000000000,
            0x100000000,
        );
    }
    assert(pow16(8) == 0x100000000);
    // reassemble the value group by group
    assert(g1 % 0x100000000 == g1) by {
        vstd::arithmetic::div_mod::lemma_small_mod(g1, 0x100000000);
    }
    assert(g2 < 0x10000 && g3 < 0x10000 && g4 < 0x10000 && g5 < 0x1000000000000) by {
        vstd::arithmetic::div_mod::lemma_mod_division_less_than_divisor(
            (n / 0x100000000000000000000) as int,
            0x10000,
        );
        vstd::arithmetic::div_mod::lemma_mod_division_less_than_divisor(
            (n / 0x10000000000000000) as int,
            0x10000,
        );
        vstd::arithmetic::div_mod::lemma_mod_division_less_than_divisor(
            (n / 0x1000000000000) as int,
            0x10000,
        );
        vstd::arithmetic::div_mod::lemma_mod_division_less_than_divisor(n as int, 0x1000000000000);
    }
    assert(g2 % 0x10000 == g2 && g3 % 0x10000 == g3 && g4 % 0x10000 == g4) by {
        vstd::arithmetic::div_mod::lemma_small_mod(g2, 0x10000);
        vstd::arithmetic::div_mod::lemma_small_mod(g3, 0x10000);
        vstd::arithmetic::div_mod::lemma_small_mod(g4, 0x10000);
    }
    assert(g5 % 0x1000000000000 == g5) by {
        vstd::arithmetic::div_mod::lemma_small_mod(g5, 0x1000000000000);
    }
    assert((g1 * 0x10000 + g2) == n / 0x100000000000000000000) by {
        lemma_group_step(n, 0x100000000000000000000, 0x10000);
    }
    assert(((n / 0x100000000000000000000) * 0x10000 + g3) == n / 0x10000000000000000) by {
        lemma_group_step(n, 0x10000000000000000, 0x10000);
    }
    assert(((n / 0x10000000000000000) * 0x10000 + g4) == n / 0x1000000000000) by {
        lemma_group_step(n, 0x1000000000000, 0x10000);
    }
    assert(((n / 0x1000000000000) * 0x1000000000000 + g5) == n) by {
        vstd::arithmetic::div_mod::lemma_fundamental_div_mod(n as int, 0x1000000000000);
        vstd::arithmetic::mul::lemma_mul_is_commutative(
            0x1000000000000,
            (n / 0x1000000000000) as int,
        );
    }
    assert(hex_seq_val(ds) == n);
}

/// One step of regrouping: the quotient by `q * b` times `b`, plus the next
/// group, is the quotient by `q`.
proof fn lemma_group_step(n: nat, q: nat, b: nat)
    requires
        q > 0,
        b > 0,
    ensures
        (n / (q * b)) * b + (n / q) % b == n / q,
{
    vstd::arithmetic::div_mod::lemma_div_denominator(n as int, q as int, b as int);
    vstd::arithmetic::div_mod::lemma_fundamental_div_mod((n / q) as int, b as int);
    vstd::arithmetic::mul::lemma_mul_is_commutative(b as int, ((n / q) / b) as int);
}

/// A fixed-width hex rendering has that width, and all its characters are
/// hex digits with the rendered value.
proof fn lemma_hex_fixed_len_digits(v: nat, d: nat)
    ensures
        hex_fixed(v, d).len() == d,
        forall|k: int| 0 <= k < d ==> is_hex_digit(#[trigger] hex_fixed(v, d)[k]),
    decreases d,
{
    if d > 0 {
        lemma_hex_fixed_len_digits(v / 16, (d - 1) as nat);
        crate::json::lemma_hex_digit_char((v % 16) as nat);
        assert forall|k: int| 0 <= k < d implies is_hex_digit(#[trigger] hex_fixed(v, d)[k]) by {
            if k < d - 1 {
                assert(hex_fixed(v, d)[k] == hex_fixed(v / 16, (d - 1) as nat)[k]);
            } else {
                assert(hex_fixed(v, d)[k] == hex_digit_char_lower(v % 16));
            }
        }
    }
}

/// Reading back a fixed-width hex rendering gives the value modulo the
/// width's range.
proof fn lemma_hex_seq_val_fixed(v: nat, d: nat)
    ensures
        hex_seq_val(hex_fixed(v, d)) == v % pow16(d),
    decreases d,
{
    if d == 0 {
        assert(pow16(0) == 1);
        assert(v % 1 == 0) by {
            vstd::arithmetic::div_mod::lemma_mod_division_less_than_divisor(v as int, 1);
        }
    } else {
        lemma_hex_seq_val_fixed(v / 16, (d - 1) as nat);
        let hf = hex_fixed(v, d);
        assert(hf.drop_last() =~= hex_fixed(v / 16, (d - 1) as nat));
        assert(hf.last() == hex_digit_char_lower(v % 16));
        crate::json::lemma_hex_digit_char((v % 16) as nat);
        assert(hex_seq_val(hf) == ((v / 16) % pow16((d - 1) as nat)) * 16 + v % 16);
        lemma_pow16_pos((d - 1) as nat);
        vstd::arithmetic::div_mod::lemma_breakdown(
            v as int,
            16,
            pow16((d - 1) as nat) as int,
        );
        assert(pow16(d) == 16 * pow16((d - 1) as nat));
        vstd::arithmetic::mul::lemma_mul_is_commutative(
            16,
            ((v / 16) % pow16((d - 1) as nat)) as int,
        );
    }
}

/// One optional object member: a singleton when present, nothing when
/// absent. Absent fields never serialize.
pub open spec fn opt_member(key: Seq<char>, v: Option<JsonV>) -> Seq<(Seq<char>, JsonV)> {
    match v {
        Some(j) => seq![(key, j)],
        None => Seq::empty(),
    }
}

/// An optional boolean as an optional JSON value.
pub open spec fn opt_bool_json(o: Option<bool>) -> Option<JsonV> {
    match o {
        Some(b) => Some(JsonV::Bool(b)),
        None => None,
    }
}

/// An optional string as an optional JSON value.
pub open spec fn opt_str_json(o: Option<Seq<char>>) -> Option<JsonV> {
    match o {
        Some(s) => Some(JsonV::Str(s)),
        None => None,
    }
}

/// The wire discriminator of a click action.
pub open spec fn click_action_name(e: ClickV) -> Seq<char> {
    match e {
        ClickV::OpenUrl(_) => "open_url"@,
        ClickV::RunCommand(_) => "run_command"@,
        ClickV::SuggestCommand(_) => "suggest_command"@,
        ClickV::ChangePage(_) => "change_page"@,
        ClickV::CopyToClipboard(_) => "copy_to_clipboard"@,
    }
}

/// The string payload of a click action.
pub open spec fn click_value(e: ClickV) -> Seq<char> {
    match e {
        ClickV::OpenUrl(s) => s,
        ClickV::RunCommand(s) => s,
        ClickV::SuggestCommand(s) => s,
        ClickV::ChangePage(s) => s,
        ClickV::CopyToClipboard(s) => s,
    }
}

/// A click event on the wire: an object with an explicit `action`
/// discriminator and a `value` payload.
pub open spec fn encode_click(e: ClickV) -> JsonV {
    JsonV::Obj(
        seq![
            ("action"@, JsonV::Str(click_action_name(e))),
            ("value"@, JsonV::Str(click_value(e))),
        ],
    )
}

/// Item data on the wire: the id, then the optional count and tag.
pub open spec fn encode_item(it: ItemV) -> JsonV {
    JsonV::Obj(
        seq![("id"@, JsonV::Str(it.id))] + opt_member(
            "count"@,
            match it.count {
                Some(c) => Some(JsonV::Int(c as int)),
                None => None,
            },
        ) + opt_member("tag"@, opt_str_json(it.tag)),
    )
}

/// Scoreboard contents on the wire: the holder and objective, then the
/// optional resolved value.
pub open spec fn encode_score(sc: ScoreV) -> JsonV {
    JsonV::Obj(
        seq![("name"@, JsonV::Str(sc.name)), ("objective"@, JsonV::Str(sc.objective))]
            + opt_member("value"@, opt_str_json(sc.value)),
    )
}

/// Entity data on the wire: the optional display name, the type, and the
/// identifier as a hyphenated string.
pub open spec fn encode_entity_data(e: EntityDataV) -> JsonV
    decreases e,
{
    JsonV::Obj(
        opt_member(
            "name"@,
            match e.name {
                Some(n) => Some(encode_component(*n)),
                None => None,
            },
        ) + seq![
            ("type"@, JsonV::Str(e.entity_type)),
            ("id"@, JsonV::Str(uuid_rep(e.id))),
        ],
    )
}

/// A hover event on the wire: an explicit `action` discriminator and a
/// `contents` payload of the matching shape.
pub open spec fn encode_hover(h: HoverV) -> JsonV
    decreases h,
{
    match h {
        HoverV::ShowText(c) => JsonV::Obj(
            seq![
                ("action"@, JsonV::Str("show_text"@)),
                ("contents"@, encode_component(*c)),
            ],
        ),
        HoverV::ShowItem(it) => JsonV::Obj(
            seq![("action"@, JsonV::Str("show_item"@)), ("contents"@, encode_item(it))],
        ),
        HoverV::ShowEntity(e) => JsonV::Obj(
            seq![
                ("action"@, JsonV::Str("show_entity"@)),
                ("contents"@, encode_entity_data(e)),
            ],
        ),
    }
}

/// The members contributed by the contents union, flattened into the node's
/// own object under the variant's field names.
#[verifier::opaque]
pub open spec fn contents_members(m: ContentsV) -> Seq<(Seq<char>, JsonV)>
    decreases m,
{
    match m {
        ContentsV::Plain(t) => seq![("text"@, JsonV::Str(t))],
        ContentsV::Translate(t) => seq![("translate"@, JsonV::Str(t.translate))] + opt_member(
            "with"@,
            match t.with {
                Some(w) => Some(JsonV::Arr(encode_components(w))),
                None => None,
            },
        ),
        ContentsV::Score(sc) => seq![("score"@, encode_score(sc))],
        ContentsV::Entity(e) => seq![("selector"@, JsonV::Str(e.selector))] + opt_member(
            "separator"@,
            match e.separator {
                Some(sep) => Some(encode_component(*sep)),
                None => None,
            },
        ),
        ContentsV::Keybind(k) => seq![("keybind"@, JsonV::Str(k.keybind))],
        ContentsV::Nbt(n) => seq![("nbt"@, JsonV::Str(n.nbt))] + opt_member(
            "interpret"@,
            opt_bool_json(n.interpret),
        ) + opt_member(
            "separator"@,
            match n.separator {
                Some(sep) => Some(encode_component(*sep)),
                None => None,
            },
        ) + opt_member("block"@, opt_str_json(n.block)) + opt_member(
            "entity"@,
            opt_str_json(n.entity),
        ) + opt_member("storage"@, opt_str_json(n.storage)),
    }
}

/// The members of a component's wire object, in canonical order: children,
/// the six flags, the color, the flattened contents, the insertion, and the
/// two events. Absent fields are omitted entirely.
pub open spec fn component_members(c: ComponentV) -> Seq<(Seq<char>, JsonV)>
    decreases c, 1int,
{
    opt_member(
        "extra"@,
        match c.extra {
            Some(ch) => Some(JsonV::Arr(encode_components(ch))),
            None => None,
        },
    ) + format_members(c) + contents_members(c.contents) + tail_members(c)
}

/// A component on the wire: one JSON object.
pub open spec fn encode_component(c: ComponentV) -> JsonV
    decreases c, 2int,
{
    JsonV::Obj(component_members(c))
}

/// A sequence of components on the wire, element for element.
pub open spec fn encode_components(s: Seq<ComponentV>) -> Seq<JsonV>
    decreases s,
{
    if s.len() == 0 {
        Seq::empty()
    } else {
        encode_components(s.drop_last()).push(encode_component(s.last()))
    }
}

/// Encoded component sequences go element for element.
pub broadcast proof fn lemma_encode_components(s: Seq<ComponentV>)
    ensures
        (#[trigger] encode_components(s)).len() == s.len(),
        forall|i: int| 0 <= i < s.len() ==> encode_components(s)[i] == encode_component(s[i]),
    decreases s,
{
    if s.len() > 0 {
        lemma_encode_components(s.drop_last());
    }
}

/// Appends one member to an object under construction.
fn push_member(ms: &mut Vec<(String, JsonValue)>, key: &str, val: JsonValue)
    ensures
        members_view(final(ms)@) == members_view(old(ms)@) + seq![(key@, val@)],
{
    let ghost m0 = members_view(ms@);
    let ghost vv = val@;
    ms.push((key.to_owned(), val));
    proof {
        assert(ms@.drop_last() =~= old(ms)@);
        assert(members_view(ms@) =~= m0 + seq![(key@, vv)]);
    }
}

/// Builds the wire object of a click event.
fn encode_click_exec(e: &ClickEvent) -> (r: JsonValue)
    ensures
        r@ == encode_click(e@),
{
    let mut ms: Vec<(String, JsonValue)> = Vec::new();
    proof {
        assert(members_view(ms@) =~= Seq::<(Seq<char>, JsonV)>::empty());
    }
    let action: &str = match e {
        ClickEvent::OpenUrl(_) => "open_url",
        ClickEvent::RunCommand(_) => "run_command",
        ClickEvent::SuggestCommand(_) => "suggest_command",
        ClickEvent::ChangePage(_) => "change_page",
        ClickEvent::CopyToClipboard(_) => "copy_to_clipboard",
    };
    let value: String = match e {
        ClickEvent::OpenUrl(s) => s.clone(),
        ClickEvent::RunCommand(s) => s.clone(),
        ClickEvent::SuggestCommand(s) => s.clone(),
        ClickEvent::ChangePage(s) => s.clone(),
        ClickEvent::CopyToClipboard(s) => s.clone(),
    };
    proof {
        assert(action@ == click_action_name(e@));
        assert(value@ == click_value(e@));
    }
    push_member(&mut ms, "action", JsonValue::Str(action.to_owned()));
    push_member(&mut ms, "value", JsonValue::Str(value));
    proof {
        assert(members_view(ms@) =~= seq![
            ("action"@, JsonV::Str(click_action_name(e@))),
            ("value"@, JsonV::Str(click_value(e@))),
        ]);
    }
    let r = JsonValue::Obj(ms);
    proof {
        assert(r@ == encode_click(e@));
    }
    r
}

/// Builds the wire object of item data.
fn encode_item_exec(it: &DisplayItemData) -> (r: JsonValue)
    ensures
        r@ == encode_item(it@),
{
    let mut ms: Vec<(String, JsonValue)> = Vec::new();
    proof {
        assert(members_view(ms@) =~= Seq::<(Seq<char>, JsonV)>::empty());
    }
    push_member(&mut ms, "id", JsonValue::Str(it.id.clone()));
    match it.count {
        Some(c) => {
            push_member(&mut ms, "count", JsonValue::Int(c as i64));
        },
        None => {},
    }
    match &it.tag {
        Some(t) => {
            push_member(&mut ms, "tag", JsonValue::Str(t.clone()));
        },
        None => {},
    }
    proof {
        assert(members_view(ms@) =~= seq![("id"@, JsonV::Str(it@.id))] + opt_member(
            "count"@,
            match it@.count {
                Some(c) => Some(JsonV::Int(c as int)),
                None => None,
            },
        ) + opt_member("tag"@, opt_str_json(it@.tag)));
    }
    let r = JsonValue::Obj(ms);
    proof {
        assert(r@ == encode_item(it@));
    }
    r
}

/// Builds the wire object of scoreboard contents.
fn encode_score_exec(sc: &ScoreboardMessage) -> (r: JsonValue)
    ensures
        r@ == encode_score(sc@),
{
    let mut ms: Vec<(String, JsonValue)> = Vec::new();
    proof {
        assert(members_view(ms@) =~= Seq::<(Seq<char>, JsonV)>::empty());
    }
    push_member(&mut ms, "name", JsonValue::Str(sc.name.clone()));
    push_member(&mut ms, "objective", JsonValue::Str(sc.objective.clone()));
    match &sc.value {
        Some(v) => {
            push_member(&mut ms, "value", JsonValue::Str(v.clone()));
        },
        None => {},
    }
    proof {
        assert(members_view(ms@) =~= seq![
            ("name"@, JsonV::Str(sc@.name)),
            ("objective"@, JsonV::Str(sc@.objective)),
        ] + opt_member("value"@, opt_str_json(sc@.value)));
    }
    let r = JsonValue::Obj(ms);
    proof {
        assert(r@ == encode_score(sc@));
    }
    r
}

/// Builds the wire object of entity data.
fn encode_entity_data_exec(e: &DisplayEntityData) -> (r: JsonValue)
    ensures
        r@ == encode_entity_data(e@),
    decreases e, 1int,
{
    let mut ms: Vec<(String, JsonValue)> = Vec::new();
    proof {
        assert(members_view(ms@) =~= Seq::<(Seq<char>, JsonV)>::empty());
    }
    match &e.name {
        Some(n) => {
            let j = encode_component_exec(n);
            push_member(&mut ms, "name", j);
        },
        None => {},
    }
    push_member(&mut ms, "type", JsonValue::Str(e.entity_type.clone()));
    push_member(&mut ms, "id", JsonValue::Str(uuid_to_string(e.id)));
    proof {
        assert(members_view(ms@) =~= opt_member(
            "name"@,
            match e@.name {
                Some(n) => Some(encode_component(*n)),
                None => None,
            },
        ) + seq![
            ("type"@, JsonV::Str(e@.entity_type)),
            ("id"@, JsonV::Str(uuid_rep(e@.id))),
        ]);
    }
    let r = JsonValue::Obj(ms);
    proof {
        assert(r@ == encode_entity_data(e@));
    }
    r
}

/// Builds the wire object of a hover event.
fn encode_hover_exec(h: &HoverEvent) -> (r: JsonValue)
    ensures
        r@ == encode_hover(h@),
    decreases h, 1int,
{
    let mut ms: Vec<(String, JsonValue)> = Vec::new();
    proof {
        assert(members_view(ms@) =~= Seq::<(Seq<char>, JsonV)>::empty());
    }
    match h {
        HoverEvent::ShowText { contents } => {
            push_member(&mut ms, "action", JsonValue::Str("show_text".to_owned()));
            let j = encode_component_exec(&**contents);
            push_member(&mut ms, "contents", j);
            proof {
                assert(members_view(ms@) =~= seq![
                    ("action"@, JsonV::Str("show_text"@)),
                    ("contents"@, encode_component(component_view(**contents))),
                ]);
            }
        },
        HoverEvent::ShowItem { contents } => {
            push_member(&mut ms, "action", JsonValue::Str("show_item".to_owned()));
            let j = encode_item_exec(contents);
            push_member(&mut ms, "contents", j);
            proof {
                assert(members_view(ms@) =~= seq![
                    ("action"@, JsonV::Str("show_item"@)),
                    ("contents"@, encode_item(contents@)),
                ]);
            }
        },
        HoverEvent::ShowEntity { contents } => {
            push_member(&mut ms, "action", JsonValue::Str("show_entity".to_owned()));
            let j = encode_entity_data_exec(&**contents);
            push_member(&mut ms, "contents", j);
            proof {
                assert(members_view(ms@) =~= seq![
                    ("action"@, JsonV::Str("show_entity"@)),
                    ("contents"@, encode_entity_data((**contents)@)),
                ]);
            }
        },
    }
    let r = JsonValue::Obj(ms);
    proof {
        assert(r@ == encode_hover(h@));
    }
    r
}

/// An optional owned string as an optional JSON string value.
pub open spec fn opt_view_str(o: Option<String>) -> Option<Seq<char>> {
    match o {
        Some(s) => Some(s@),
        None => None,
    }
}

/// Appends one optional boolean member.
fn push_opt_bool(ms: &mut Vec<(String, JsonValue)>, key: &str, o: Option<bool>)
    ensures
        members_view(final(ms)@) == members_view(old(ms)@) + opt_member(key@, opt_bool_json(o)),
{
    match o {
        Some(b) => {
            push_member(ms, key, JsonValue::Bool(b));
        },
        None => {
            proof {
                assert(members_view(ms@) =~= members_view(ms@) + opt_member(
                    key@,
                    opt_bool_json(o),
                ));
            }
        },
    }
}

/// Appends one optional string member.
fn push_opt_str(ms: &mut Vec<(String, JsonValue)>, key: &str, o: &Option<String>)
    ensures
        members_view(final(ms)@) == members_view(old(ms)@) + opt_member(
            key@,
            opt_str_json(opt_view_str(*o)),
        ),
{
    match o {
        Some(t) => {
            push_member(ms, key, JsonValue::Str(t.clone()));
        },
        None => {
            proof {
                assert(members_view(ms@) =~= members_view(ms@) + opt_member(
                    key@,
                    opt_str_json(opt_view_str(*o)),
                ));
            }
        },
    }
}

/// Appends one optional separator member: an encoded component.
fn push_opt_separator(ms: &mut Vec<(String, JsonValue)>, o: &Option<Component>)
    ensures
        members_view(final(ms)@) == members_view(old(ms)@) + opt_member(
            "separator"@,
            match *o {
                Some(sep) => Some(encode_component(component_view(sep))),
                None => None,
            },
        ),
    decreases o, 0int,
{
    match o {
        Some(sep) => {
            let j = encode_component_exec(sep);
            push_member(ms, "separator", j);
        },
        None => {
            proof {
                assert(members_view(ms@) =~= members_view(ms@) + opt_member(
                    "separator"@,
                    None::<JsonV>,
                ));
            }
        },
    }
}

/// Appends the members contributed by the contents union.
#[verifier::rlimit(100)]
#[verifier::spinoff_prover]
fn encode_contents_push(m: &MessageContents, ms: &mut Vec<(String, JsonValue)>)
    ensures
        members_view(final(ms)@) == members_view(old(ms)@) + contents_members(m@),
    decreases m, 0int,
{
    proof {
        reveal(contents_members);
    }
    let ghost m0 = members_view(ms@);
    match m {
        MessageContents::Plain { text } => {
            push_member(ms, "text", JsonValue::Str(text.clone()));
            proof {
                assert(members_view(ms@) =~= m0 + contents_members(m@));
            }
        },
        MessageContents::Translate(t) => {
            push_member(ms, "translate", JsonValue::Str(t.translate.clone()));
            match &t.with {
                Some(w) => {
                    let arr = encode_components_exec(w);
                    push_member(ms, "with", JsonValue::Arr(arr));
                },
                None => {},
            }
            proof {
                assert(members_view(ms@) =~= m0 + contents_members(m@));
            }
        },
        MessageContents::Score { score } => {
            let j = encode_score_exec(score);
            push_member(ms, "score", j);
            proof {
                assert(members_view(ms@) =~= m0 + contents_members(m@));
            }
        },
        MessageContents::Entity(e) => {
            push_member(ms, "selector", JsonValue::Str(e.selector.clone()));
            push_opt_separator(ms, &e.separator);
            proof {
                assert(members_view(ms@) =~= m0 + contents_members(m@));
            }
        },
        MessageContents::Keybind(k) => {
            push_member(ms, "keybind", JsonValue::Str(k.keybind.clone()));
            proof {
                assert(members_view(ms@) =~= m0 + contents_members(m@));
            }
        },
        MessageContents::Nbt(n) => {
            let nb: &NbtMessage = &**n;
            push_member(ms, "nbt", JsonValue::Str(nb.nbt.clone()));
            push_opt_bool(ms, "interpret", nb.interpret);
            push_opt_separator(ms, &nb.separator);
            push_opt_str(ms, "block", &nb.block);
            push_opt_str(ms, "entity", &nb.entity);
            push_opt_str(ms, "storage", &nb.storage);
            proof {
                assert(members_view(ms@) =~= m0 + contents_members(m@));
            }
        },
    }
}

/// Encodes each component of a vector.
fn encode_components_exec(v: &Vec<Component>) -> (r: Vec<JsonValue>)
    ensures
        jsons_view(r@) == encode_components(components_view(v@)),
    decreases v@, 0int,
{
    broadcast use crate::json::lemma_jsons_view, crate::component::lemma_components_view,
        lemma_encode_components;

    let mut r: Vec<JsonValue> = Vec::new();
    let mut i: usize = 0;
    while i < v.len()
        invariant
            i <= v@.len(),
            r@.len() == i,
            forall|j: int|
                0 <= j < i ==> json_view(r@[j]) == encode_component(component_view(v@[j])),
        decreases v@.len() - i,
    {
        proof {
            assert(decreases_to!(v@ => v@[i as int]));
        }
        let j = encode_component_exec(&v[i]);
        r.push(j);
        i = i + 1;
    }
    proof {
        assert(jsons_view(r@) =~= encode_components(components_view(v@)));
    }
    r
}

/// The members contributed by the six formatting flags and the color, in
/// canonical order.
#[verifier::opaque]
pub open spec fn format_members(c: ComponentV) -> Seq<(Seq<char>, JsonV)> {
    opt_member("bold"@, opt_bool_json(c.bold)) + opt_member("italic"@, opt_bool_json(c.italic))
        + opt_member("obfuscated"@, opt_bool_json(c.obfuscated)) + opt_member(
        "strikethrough"@,
        opt_bool_json(c.strikethrough),
    ) + opt_member("underlined"@, opt_bool_json(c.underlined)) + opt_member(
        "reset"@,
        opt_bool_json(c.reset),
    ) + opt_member(
        "color"@,
        match c.color {
            Some(col) => Some(JsonV::Str(color_string(col))),
            None => None,
        },
    )
}

/// The members contributed by the insertion and the two events, in canonical
/// order.
#[verifier::opaque]
pub open spec fn tail_members(c: ComponentV) -> Seq<(Seq<char>, JsonV)>
    decreases c, 0int,
{
    opt_member("insertion"@, opt_str_json(c.insertion)) + opt_member(
        "clickEvent"@,
        match c.click_event {
            Some(e) => Some(encode_click(e)),
            None => None,
        },
    ) + opt_member(
        "hoverEvent"@,
        match c.hover_event {
            Some(h) => Some(encode_hover(h)),
            None => None,
        },
    )
}

/// Appends the flag and color members of a component.
#[verifier::rlimit(100)]
#[verifier::spinoff_prover]
fn push_format_members(c: &Component, ms: &mut Vec<(String, JsonValue)>)
    ensures
        members_view(final(ms)@) == members_view(old(ms)@) + format_members(c@),
{
    proof {
        reveal(format_members);
    }
    let ghost m0 = members_view(ms@);
    push_opt_bool(ms, "bold", c.bold);
    push_opt_bool(ms, "italic", c.italic);
    push_opt_bool(ms, "obfuscated", c.obfuscated);
    push_opt_bool(ms, "strikethrough", c.strikethrough);
    push_opt_bool(ms, "underlined", c.underlined);
    push_opt_bool(ms, "reset", c.reset);
    match &c.color {
        Some(col) => {
            let cs: String = match col {
                TextColor::Named(n) => n.name().to_owned(),
                TextColor::Hex(s) => s.clone(),
            };
            push_member(ms, "color", JsonValue::Str(cs));
        },
        None => {},
    }
    proof {
        assert(members_view(ms@) =~= m0 + format_members(c@));
    }
}

/// Appends the insertion and event members of a component.
#[verifier::rlimit(100)]
#[verifier::spinoff_prover]
fn push_tail_members(c: &Component, ms: &mut Vec<(String, JsonValue)>)
    ensures
        members_view(final(ms)@) == members_view(old(ms)@) + tail_members(c@),
    decreases c, 0int,
{
    proof {
        reveal(tail_members);
    }
    let ghost m0 = members_view(ms@);
    push_opt_str(ms, "insertion", &c.insertion);
    match &c.click_event {
        Some(e) => {
            let j = encode_click_exec(e);
            push_member(ms, "clickEvent", j);
        },
        None => {},
    }
    match &c.hover_event {
        Some(h) => {
            proof {
                assert(decreases_to!(c => c.hover_event));
                assert(decreases_to!(c.hover_event => c.hover_event->0));
            }
            let j = encode_hover_exec(h);
            push_member(ms, "hoverEvent", j);
        },
        None => {},
    }
    proof {
        assert(members_view(ms@) =~= m0 + tail_members(c@));
    }
}

/// Builds the wire object of a component: the exact schema, with absent
/// fields omitted and the contents flattened into the same object.
#[verifier::rlimit(100)]
#[verifier::spinoff_prover]
pub fn encode_component_exec(c: &Component) -> (r: JsonValue)
    ensures
        r@ == encode_component(c@),
    decreases c, 1int,
{
    let mut ms: Vec<(String, JsonValue)> = Vec::new();
    proof {
        assert(members_view(ms@) =~= Seq::<(Seq<char>, JsonV)>::empty());
    }
    match &c.extra {
        Some(ch) => {
            let arr = encode_components_exec(ch);
            push_member(&mut ms, "extra", JsonValue::Arr(arr));
        },
        None => {},
    }
    let ghost d1 = opt_member(
        "extra"@,
        match c@.extra {
            Some(chv) => Some(JsonV::Arr(encode_components(chv))),
            None => None,
        },
    );
    proof {
        assert(members_view(ms@) =~= d1);
    }
    push_format_members(c, &mut ms);
    encode_contents_push(&c.contents, &mut ms);
    push_tail_members(c, &mut ms);
    let r = JsonValue::Obj(ms);
    proof {
        assert(members_view(ms@) == d1 + format_members(c@) + contents_members(c@.contents)
            + tail_members(c@));
        assert(r@ == encode_component(c@));
    }
    r
}

/// The color denoted by a wire color string: a named color, else a valid
/// hex string; anything else is rejected, never defaulted.
pub open spec fn decode_color(s: Seq<char>) -> Result<ColorV, DecodeError> {
    if named_color_of_name(s) is Some {
        Ok(ColorV::Named(named_color_of_name(s)->0))
    } else if valid_hex_color(s) {
        Ok(ColorV::Hex(s))
    } else {
        Err(DecodeError::MalformedColor)
    }
}

/// The slots filled while reading a click event object.
#[verifier::ext_equal]
pub struct ClickStV {
    /// The `action` discriminator.
    pub action: Option<Seq<char>>,
    /// The `value` payload.
    pub value: Option<Seq<char>>,
}

/// One member of a click event object into its slot.
#[verifier::opaque]
pub open spec fn click_step(st: ClickStV, key: Seq<char>, v: JsonV) -> Result<
    ClickStV,
    DecodeError,
> {
    if key == "action"@ {
        match v {
            JsonV::Str(s) => if st.action is None {
                Ok(ClickStV { action: Some(s), ..st })
            } else {
                Err(DecodeError::DuplicateField)
            },
            _ => Err(DecodeError::WrongShape),
        }
    } else if key == "value"@ {
        match v {
            JsonV::Str(s) => if st.value is None {
                Ok(ClickStV { value: Some(s), ..st })
            } else {
                Err(DecodeError::DuplicateField)
            },
            _ => Err(DecodeError::WrongShape),
        }
    } else {
        Err(DecodeError::WrongShape)
    }
}

/// All members of a click event object, in order.
pub open spec fn click_fold(st: ClickStV, ms: Seq<(Seq<char>, JsonV)>) -> Result<
    ClickStV,
    DecodeError,
>
    decreases ms.len(),
{
    if ms.len() == 0 {
        Ok(st)
    } else {
        match click_step(st, ms[0].0, ms[0].1) {
            Ok(st2) => click_fold(st2, ms.drop_first()),
            Err(e) => Err(e),
        }
    }
}

/// A click event from its wire object: both fields required, the action
/// dispatched by its discriminator.
pub open spec fn decode_click(v: JsonV) -> Result<ClickV, DecodeError> {
    match v {
        JsonV::Obj(ms) => match click_fold(ClickStV { action: None, value: None }, ms) {
            Ok(st) => match (st.action, st.value) {
                (Some(a), Some(val)) => if a == "open_url"@ {
                    Ok(ClickV::OpenUrl(val))
                } else if a == "run_command"@ {
                    Ok(ClickV::RunCommand(val))
                } else if a == "suggest_command"@ {
                    Ok(ClickV::SuggestCommand(val))
                } else if a == "change_page"@ {
                    Ok(ClickV::ChangePage(val))
                } else if a == "copy_to_clipboard"@ {
                    Ok(ClickV::CopyToClipboard(val))
                } else {
                    Err(DecodeError::UnknownDiscriminator)
                },
                _ => Err(DecodeError::WrongShape),
            },
            Err(e) => Err(e),
        },
        _ => Err(DecodeError::WrongShape),
    }
}

/// The slots filled while reading a scoreboard object.
#[verifier::ext_equal]
pub struct ScoreStV {
    /// The score holder.
    pub name: Option<Seq<char>>,
    /// The objective.
    pub objective: Option<Seq<char>>,
    /// The optional resolved value.
    pub value: Option<Seq<char>>,
}

/// One member of a scoreboard object into its slot.
#[verifier::opaque]
pub open spec fn score_step(st: ScoreStV, key: Seq<char>, v: JsonV) -> Result<
    ScoreStV,
    DecodeError,
> {
    if key == "name"@ {
        match v {
            JsonV::Str(s) => if st.name is None {
                Ok(ScoreStV { name: Some(s), ..st })
            } else {
                Err(DecodeError::DuplicateField)
            },
            _ => Err(DecodeError::WrongShape),
        }
    } else if key == "objective"@ {
        match v {
            JsonV::Str(s) => if st.objective is None {
                Ok(ScoreStV { objective: Some(s), ..st })
            } else {
                Err(DecodeError::DuplicateField)
            },
            _ => Err(DecodeError::WrongShape),
        }
    } else if key == "value"@ {
        match v {
            JsonV::Str(s) => if st.value is None {
                Ok(ScoreStV { value: Some(s), ..st })
            } else {
                Err(DecodeError::DuplicateField)
            },
            _ => Err(DecodeError::WrongShape),
        }
    } else {
        Err(DecodeError::WrongShape)
    }
}

/// All members of a scoreboard object, in order.
pub open spec fn score_fold(st: ScoreStV, ms: Seq<(Seq<char>, JsonV)>) -> Result<
    ScoreStV,
    DecodeError,
>
    decreases ms.len(),
{
    if ms.len() == 0 {
        Ok(st)
    } else {
        match score_step(st, ms[0].0, ms[0].1) {
            Ok(st2) => score_fold(st2, ms.drop_first()),
            Err(e) => Err(e),
        }
    }
}

/// Scoreboard contents from their wire object: name and objective required.
pub open spec fn decode_score(v: JsonV) -> Result<ScoreV, DecodeError> {
    match v {
        JsonV::Obj(ms) => match score_fold(
            ScoreStV { name: None, objective: None, value: None },
            ms,
        ) {
            Ok(st) => match (st.name, st.objective) {
                (Some(n), Some(o)) => Ok(ScoreV { name: n, objective: o, value: st.value }),
                _ => Err(DecodeError::WrongShape),
            },
            Err(e) => Err(e),
        },
        _ => Err(DecodeError::WrongShape),
    }
}

/// The slots filled while reading an item data object.
#[verifier::ext_equal]
pub struct ItemStV {
    /// The namespaced id.
    pub id: Option<Seq<char>>,
    /// The optional count.
    pub count: Option<i32>,
    /// The optional data tag.
    pub tag: Option<Seq<char>>,
}

/// One member of an item data object into its slot.
#[verifier::opaque]
pub open spec fn item_step(st: ItemStV, key: Seq<char>, v: JsonV) -> Result<
    ItemStV,
    DecodeError,
> {
    if key == "id"@ {
        match v {
            JsonV::Str(s) => if st.id is None {
                Ok(ItemStV { id: Some(s), ..st })
            } else {
                Err(DecodeError::DuplicateField)
            },
            _ => Err(DecodeError::WrongShape),
        }
    } else if key == "count"@ {
        match v {
            JsonV::Int(n) => if st.count is None {
                if i32::MIN <= n <= i32::MAX {
                    Ok(ItemStV { count: Some(n as i32), ..st })
                } else {
                    Err(DecodeError::WrongShape)
                }
            } else {
                Err(DecodeError::DuplicateField)
            },
            _ => Err(DecodeError::WrongShape),
        }
    } else if key == "tag"@ {
        match v {
            JsonV::Str(s) => if st.tag is None {
                Ok(ItemStV { tag: Some(s), ..st })
            } else {
                Err(DecodeError::DuplicateField)
            },
            _ => Err(DecodeError::WrongShape),
        }
    } else {
        Err(DecodeError::WrongShape)
    }
}

/// All members of an item data object, in order.
pub open spec fn item_fold(st: ItemStV, ms: Seq<(Seq<char>, JsonV)>) -> Result<
    ItemStV,
    DecodeError,
>
    decreases ms.len(),
{
    if ms.len() == 0 {
        Ok(st)
    } else {
        match item_step(st, ms[0].0, ms[0].1) {
            Ok(st2) => item_fold(st2, ms.drop_first()),
            Err(e) => Err(e),
        }
    }
}

/// Item data from its wire object: the id is required.
pub open spec fn decode_item(v: JsonV) -> Result<ItemV, DecodeError> {
    match v {
        JsonV::Obj(ms) => match item_fold(ItemStV { id: None, count: None, tag: None }, ms) {
            Ok(st) => match st.id {
                Some(id) => Ok(ItemV { id, count: st.count, tag: st.tag }),
                None => Err(DecodeError::WrongShape),
            },
            Err(e) => Err(e),
        },
        _ => Err(DecodeError::WrongShape),
    }
}

/// The slots filled while reading an entity data object.
#[verifier::ext_equal]
pub struct EntStV {
    /// The optional display name, already decoded.
    pub name: Option<ComponentV>,
    /// The entity type.
    pub entity_type: Option<Seq<char>>,
    /// The unique identifier.
    pub id: Option<u128>,
}

/// One member of an entity data object into its slot; the display name is
/// decoded in place.
#[verifier::opaque]
pub open spec fn ent_step(st: EntStV, key: Seq<char>, v: JsonV) -> Result<EntStV, DecodeError>
    decreases v, 1int,
{
    if key == "name"@ {
        if st.name is None {
            match decode_component(v) {
                Ok(c) => Ok(EntStV { name: Some(c), ..st }),
                Err(e) => Err(e),
            }
        } else {
            Err(DecodeError::DuplicateField)
        }
    } else if key == "type"@ {
        match v {
            JsonV::Str(s) => if st.entity_type is None {
                Ok(EntStV { entity_type: Some(s), ..st })
            } else {
                Err(DecodeError::DuplicateField)
            },
            _ => Err(DecodeError::WrongShape),
        }
    } else if key == "id"@ {
        match v {
            JsonV::Str(s) => if st.id is None {
                match spec_parse_uuid(s) {
                    Some(u) => Ok(EntStV { id: Some(u), ..st }),
                    None => Err(DecodeError::MalformedId),
                }
            } else {
                Err(DecodeError::DuplicateField)
            },
            _ => Err(DecodeError::WrongShape),
        }
    } else {
        Err(DecodeError::WrongShape)
    }
}

/// All members of an entity data object, in order.
pub open spec fn ent_fold(st: EntStV, ms: Seq<(Seq<char>, JsonV)>) -> Result<
    EntStV,
    DecodeError,
>
    decreases ms, 0int,
{
    if ms.len() == 0 {
        Ok(st)
    } else {
        match ent_step(st, ms[0].0, ms[0].1) {
            Ok(st2) => ent_fold(st2, ms.drop_first()),
            Err(e) => Err(e),
        }
    }
}

/// Entity data from its wire object: the type and the identifier required,
/// the display name optional.
pub open spec fn decode_entity_data(v: JsonV) -> Result<EntityDataV, DecodeError>
    decreases v, 1int,
{
    match v {
        JsonV::Obj(ms) => match ent_fold(
            EntStV { name: None, entity_type: None, id: None },
            ms,
        ) {
            Ok(st) => match (st.entity_type, st.id) {
                (Some(t), Some(u)) => Ok(
                    EntityDataV {
                        name: match st.name {
                            Some(n) => Some(Box::new(n)),
                            None => None,
                        },
                        entity_type: t,
                        id: u,
                    },
                ),
                _ => Err(DecodeError::WrongShape),
            },
            Err(e) => Err(e),
        },
        _ => Err(DecodeError::WrongShape),
    }
}

/// A hover event from its wire object: exactly the `action` discriminator and
/// the `contents` payload, in either order, the payload decoded by the
/// discriminator's shape.
pub open spec fn decode_hover(v: JsonV) -> Result<HoverV, DecodeError>
    decreases v, 3int,
{
    match v {
        JsonV::Obj(ms) => if ms.len() == 2 && ms[0].0 == "action"@ && ms[1].0 == "contents"@ {
            decode_hover_parts(ms[0].1, ms[1].1)
        } else if ms.len() == 2 && ms[0].0 == "contents"@ && ms[1].0 == "action"@ {
            decode_hover_parts(ms[1].1, ms[0].1)
        } else {
            Err(DecodeError::WrongShape)
        },
        _ => Err(DecodeError::WrongShape),
    }
}

/// A hover event from its discriminator and payload values.
pub open spec fn decode_hover_parts(av: JsonV, cv: JsonV) -> Result<HoverV, DecodeError>
    decreases cv, 2int,
{
    match av {
        JsonV::Str(a) => if a == "show_text"@ {
            match decode_component(cv) {
                Ok(c) => Ok(HoverV::ShowText(Box::new(c))),
                Err(e) => Err(e),
            }
        } else if a == "show_item"@ {
            match decode_item(cv) {
                Ok(it) => Ok(HoverV::ShowItem(it)),
                Err(e) => Err(e),
            }
        } else if a == "show_entity"@ {
            match decode_entity_data(cv) {
                Ok(e) => Ok(HoverV::ShowEntity(e)),
                Err(e) => Err(e),
            }
        } else {
            Err(DecodeError::UnknownDiscriminator)
        },
        _ => Err(DecodeError::WrongShape),
    }
}

/// The slots filled while reading a component object; nested components are
/// decoded in place.
#[verifier::ext_equal]
pub struct CompStV {
    /// The decoded children.
    pub extra: Option<Seq<ComponentV>>,
    /// The bold flag.
    pub bold: Option<bool>,
    /// The italic flag.
    pub italic: Option<bool>,
    /// The obfuscated flag.
    pub obfuscated: Option<bool>,
    /// The strikethrough flag.
    pub strikethrough: Option<bool>,
    /// The underlined flag.
    pub underlined: Option<bool>,
    /// The reset flag.
    pub reset: Option<bool>,
    /// The decoded color.
    pub color: Option<ColorV>,
    /// Literal text contents.
    pub text: Option<Seq<char>>,
    /// A translation key.
    pub translate: Option<Seq<char>>,
    /// Decoded translation arguments.
    pub with: Option<Seq<ComponentV>>,
    /// Decoded scoreboard contents.
    pub score: Option<ScoreV>,
    /// An entity selector.
    pub selector: Option<Seq<char>>,
    /// A keybind identifier.
    pub keybind: Option<Seq<char>>,
    /// An NBT path.
    pub nbt: Option<Seq<char>>,
    /// The NBT interpret flag.
    pub interpret: Option<bool>,
    /// The decoded separator component.
    pub separator: Option<ComponentV>,
    /// The NBT block source.
    pub block: Option<Seq<char>>,
    /// The NBT entity source.
    pub entity: Option<Seq<char>>,
    /// The NBT storage source.
    pub storage: Option<Seq<char>>,
    /// The insertion text.
    pub insertion: Option<Seq<char>>,
    /// The decoded click event.
    pub click: Option<ClickV>,
    /// The decoded hover event.
    pub hover: Option<HoverV>,
}

/// The empty component slots.
pub open spec fn comp_st_empty() -> CompStV {
    CompStV {
        extra: None,
        bold: None,
        italic: None,
        obfuscated: None,
        strikethrough: None,
        underlined: None,
        reset: None,
        color: None,
        text: None,
        translate: None,
        with: None,
        score: None,
        selector: None,
        keybind: None,
        nbt: None,
        interpret: None,
        separator: None,
        block: None,
        entity: None,
        storage: None,
        insertion: None,
        click: None,
        hover: None,
    }
}

/// One member of a component object into its slot, nested values decoded in
/// place; unknown fields and duplicates are rejected.
#[verifier::opaque]
pub open spec fn comp_step(st: CompStV, key: Seq<char>, v: JsonV) -> Result<
    CompStV,
    DecodeError,
>
    decreases v, 4int,
{
    if key == "extra"@ {
        match v {
            JsonV::Arr(items) => if st.extra is None {
                match decode_components(items) {
                    Ok(cs) => Ok(CompStV { extra: Some(cs), ..st }),
                    Err(e) => Err(e),
                }
            } else {
                Err(DecodeError::DuplicateField)
            },
            _ => Err(DecodeError::WrongShape),
        }
    } else if key == "bold"@ {
        match v {
            JsonV::Bool(b) => if st.bold is None {
                Ok(CompStV { bold: Some(b), ..st })
            } else {
                Err(DecodeError::DuplicateField)
            },
            _ => Err(DecodeError::WrongShape),
        }
    } else if key == "italic"@ {
        match v {
            JsonV::Bool(b) => if st.italic is None {
                Ok(CompStV { italic: Some(b), ..st })
            } else {
                Err(DecodeError::DuplicateField)
            },
            _ => Err(DecodeError::WrongShape),
        }
    } else if key == "obfuscated"@ {
        match v {
            JsonV::Bool(b) => if st.obfuscated is None {
                Ok(CompStV { obfuscated: Some(b), ..st })
            } else {
                Err(DecodeError::DuplicateField)
            },
            _ => Err(DecodeError::WrongShape),
        }
    } else if key == "strikethrough"@ {
        match v {
            JsonV::Bool(b) => if st.strikethrough is None {
                Ok(CompStV { strikethrough: Some(b), ..st })
            } else {
                Err(DecodeError::DuplicateField)
            },
            _ => Err(DecodeError::WrongShape),
        }
    } else if key == "underlined"@ {
        match v {
            JsonV::Bool(b) => if st.underlined is None {
                Ok(CompStV { underlined: Some(b), ..st })
            } else {
                Err(DecodeError::DuplicateField)
            },
            _ => Err(DecodeError::WrongShape),
        }
    } else if key == "reset"@ {
        match v {
            JsonV::Bool(b) => if st.reset is None {
                Ok(CompStV { reset: Some(b), ..st })
            } else {
                Err(DecodeError::DuplicateField)
            },
            _ => Err(DecodeError::WrongShape),
        }
    } else if key == "color"@ {
        match v {
            JsonV::Str(s) => if st.color is None {
                match decode_color(s) {
                    Ok(col) => Ok(CompStV { color: Some(col), ..st }),
                    Err(e) => Err(e),
                }
            } else {
                Err(DecodeError::DuplicateField)
            },
            _ => Err(DecodeError::WrongShape),
        }
    } else if key == "text"@ {
        match v {
            JsonV::Str(s) => if st.text is None {
                Ok(CompStV { text: Some(s), ..st })
            } else {
                Err(DecodeError::DuplicateField)
            },
            _ => Err(DecodeError::WrongShape),
        }
    } else if key == "translate"@ {
        match v {
            JsonV::Str(s) => if st.translate is None {
                Ok(CompStV { translate: Some(s), ..st })
            } else {
                Err(DecodeError::DuplicateField)
            },
            _ => Err(DecodeError::WrongShape),
        }
    } else if key == "with"@ {
        match v {
            JsonV::Arr(items) => if st.with is None {
                match decode_components(items) {
                    Ok(cs) => Ok(CompStV { with: Some(cs), ..st }),
                    Err(e) => Err(e),
                }
            } else {
                Err(DecodeError::DuplicateField)
            },
            _ => Err(DecodeError::WrongShape),
        }
    } else if key == "score"@ {
        if st.score is None {
            match decode_score(v) {
                Ok(sc) => Ok(CompStV { score: Some(sc), ..st }),
                Err(e) => Err(e),
            }
        } else {
            Err(DecodeError::DuplicateField)
        }
    } else if key == "selector"@ {
        match v {
            JsonV::Str(s) => if st.selector is None {
                Ok(CompStV { selector: Some(s), ..st })
            } else {
                Err(DecodeError::DuplicateField)
            },
            _ => Err(DecodeError::WrongShape),
        }
    } else if key == "keybind"@ {
        match v {
            JsonV::Str(s) => if st.keybind is None {
                Ok(CompStV { keybind: Some(s), ..st })
            } else {
                Err(DecodeError::DuplicateField)
            },
            _ => Err(DecodeError::WrongShape),
        }
    } else if key == "nbt"@ {
        match v {
            JsonV::Str(s) => if st.nbt is None {
                Ok(CompStV { nbt: Some(s), ..st })
            } else {
                Err(DecodeError::DuplicateField)
            },
            _ => Err(DecodeError::WrongShape),
        }
    } else if key == "interpret"@ {
        match v {
            JsonV::Bool(b) => if st.interpret is None {
                Ok(CompStV { interpret: Some(b), ..st })
            } else {
                Err(DecodeError::DuplicateField)
            },
            _ => Err(DecodeError::WrongShape),
        }
    } else if key == "separator"@ {
        if st.separator is None {
            match decode_component(v) {
                Ok(c) => Ok(CompStV { separator: Some(c), ..st }),
                Err(e) => Err(e),
            }
        } else {
            Err(DecodeError::DuplicateField)
        }
    } else if key == "block"@ {
        match v {
            JsonV::Str(s) => if st.block is None {
                Ok(CompStV { block: Some(s), ..st })
            } else {
                Err(DecodeError::DuplicateField)
            },
            _ => Err(DecodeError::WrongShape),
        }
    } else if key == "entity"@ {
        match v {
            JsonV::Str(s) => if st.entity is None {
                Ok(CompStV { entity: Some(s), ..st })
            } else {
                Err(DecodeError::DuplicateField)
            },
            _ => Err(DecodeError::WrongShape),
        }
    } else if key == "storage"@ {
        match v {
            JsonV::Str(s) => if st.storage is None {
                Ok(CompStV { storage: Some(s), ..st })
            } else {
                Err(DecodeError::DuplicateField)
            },
            _ => Err(DecodeError::WrongShape),
        }
    } else if key == "insertion"@ {
        match v {
            JsonV::Str(s) => if st.insertion is None {
                Ok(CompStV { insertion: Some(s), ..st })
            } else {
                Err(DecodeError::DuplicateField)
            },
            _ => Err(DecodeError::WrongShape),
        }
    } else if key == "clickEvent"@ {
        if st.click is None {
            match decode_click(v) {
                Ok(e) => Ok(CompStV { click: Some(e), ..st }),
                Err(e) => Err(e),
            }
        } else {
            Err(DecodeError::DuplicateField)
        }
    } else if key == "hoverEvent"@ {
        if st.hover is None {
            match decode_hover(v) {
                Ok(h) => Ok(CompStV { hover: Some(h), ..st }),
                Err(e) => Err(e),
            }
        } else {
            Err(DecodeError::DuplicateField)
        }
    } else {
        Err(DecodeError::WrongShape)
    }
}

/// All members of a component object, in order.
pub open spec fn comp_fold(st: CompStV, ms: Seq<(Seq<char>, JsonV)>) -> Result<
    CompStV,
    DecodeError,
>
    decreases ms, 0int,
{
    if ms.len() == 0 {
        Ok(st)
    } else {
        match comp_step(st, ms[0].0, ms[0].1) {
            Ok(st2) => comp_fold(st2, ms.drop_first()),
            Err(e) => Err(e),
        }
    }
}

/// Assembles the contents union from the filled slots: exactly one payload
/// marker must be present, each auxiliary field only beside its payload, and
/// NBT contents name exactly one source.
#[verifier::opaque]
pub open spec fn assemble_contents(st: CompStV) -> Result<ContentsV, DecodeError> {
    if st.text is Some {
        if st.translate is None && st.with is None && st.score is None && st.selector is None
            && st.keybind is None && st.nbt is None && st.interpret is None && st.separator
            is None && st.block is None && st.entity is None && st.storage is None {
            Ok(ContentsV::Plain(st.text->0))
        } else {
            Err(DecodeError::ContentsMismatch)
        }
    } else if st.translate is Some {
        if st.score is None && st.selector is None && st.keybind is None && st.nbt is None
            && st.interpret is None && st.separator is None && st.block is None && st.entity
            is None && st.storage is None {
            Ok(ContentsV::Translate(TranslatedV { translate: st.translate->0, with: st.with }))
        } else {
            Err(DecodeError::ContentsMismatch)
        }
    } else if st.score is Some {
        if st.with is None && st.selector is None && st.keybind is None && st.nbt is None
            && st.interpret is None && st.separator is None && st.block is None && st.entity
            is None && st.storage is None {
            Ok(ContentsV::Score(st.score->0))
        } else {
            Err(DecodeError::ContentsMismatch)
        }
    } else if st.selector is Some {
        if st.with is None && st.keybind is None && st.nbt is None && st.interpret is None
            && st.block is None && st.entity is None && st.storage is None {
            Ok(
                ContentsV::Entity(
                    EntityMsgV {
                        selector: st.selector->0,
                        separator: match st.separator {
                            Some(sep) => Some(Box::new(sep)),
                            None => None,
                        },
                    },
                ),
            )
        } else {
            Err(DecodeError::ContentsMismatch)
        }
    } else if st.keybind is Some {
        if st.with is None && st.nbt is None && st.interpret is None && st.separator is None
            && st.block is None && st.entity is None && st.storage is None {
            Ok(ContentsV::Keybind(KeyV { keybind: st.keybind->0 }))
        } else {
            Err(DecodeError::ContentsMismatch)
        }
    } else if st.nbt is Some {
        if st.with is None && (st.block is Some && st.entity is None && st.storage is None
            || st.block is None && st.entity is Some && st.storage is None || st.block is None
            && st.entity is None && st.storage is Some) {
            Ok(
                ContentsV::Nbt(
                    NbtV {
                        nbt: st.nbt->0,
                        interpret: st.interpret,
                        separator: match st.separator {
                            Some(sep) => Some(Box::new(sep)),
                            None => None,
                        },
                        block: st.block,
                        entity: st.entity,
                        storage: st.storage,
                    },
                ),
            )
        } else {
            Err(DecodeError::ContentsMismatch)
        }
    } else {
        Err(DecodeError::ContentsMismatch)
    }
}

/// Assembles the component from the filled slots.
pub open spec fn assemble_component(st: CompStV) -> Result<ComponentV, DecodeError> {
    match assemble_contents(st) {
        Ok(contents) => Ok(
            ComponentV {
                extra: st.extra,
                bold: st.bold,
                italic: st.italic,
                obfuscated: st.obfuscated,
                strikethrough: st.strikethrough,
                underlined: st.underlined,
                reset: st.reset,
                color: st.color,
                contents,
                insertion: st.insertion,
                click_event: st.click,
                hover_event: st.hover,
            },
        ),
        Err(e) => Err(e),
    }
}

/// A component from its wire object.
pub open spec fn decode_component(v: JsonV) -> Result<ComponentV, DecodeError>
    decreases v, 0int,
{
    match v {
        JsonV::Obj(ms) => match comp_fold(comp_st_empty(), ms) {
            Ok(st) => assemble_component(st),
            Err(e) => Err(e),
        },
        _ => Err(DecodeError::WrongShape),
    }
}

/// A sequence of components from a wire array, element for element; the
/// first failure wins.
pub open spec fn decode_components(items: Seq<JsonV>) -> Result<Seq<ComponentV>, DecodeError>
    decreases items, 0int,
{
    if items.len() == 0 {
        Ok(Seq::empty())
    } else {
        match decode_component(items[0]) {
            Ok(c) => match decode_components(items.drop_first()) {
                Ok(rest) => Ok(seq![c] + rest),
                Err(e) => Err(e),
            },
            Err(e) => Err(e),
        }
    }
}

/// Exact hex-color-string test.
fn is_valid_hex_color_exec(s: &String) -> (r: bool)
    ensures
        r == valid_hex_color(s@),
{
    let st = s.as_str();
    let n = st.unicode_len();
    if n != 7 {
        return false;
    }
    if st.get_char(0) != '#' {
        return false;
    }
    let mut k: usize = 1;
    while k < 7
        invariant
            1 <= k <= 7,
            s@.len() == 7,
            st@ == s@,
            forall|m: int| 1 <= m < k ==> is_hex_digit(#[trigger] s@[m]),
        decreases 7 - k,
    {
        if !is_hex_digit_exec(st.get_char(k)) {
            return false;
        }
        k = k + 1;
    }
    true
}

/// Decodes a wire color string.
fn decode_color_exec(s: &String) -> (r: Result<TextColor, DecodeError>)
    ensures
        match r {
            Ok(c) => decode_color(s@) == Ok::<ColorV, DecodeError>(c@),
            Err(e) => decode_color(s@) == Err::<ColorV, DecodeError>(e),
        },
{
    match NamedColor::from_str(s.as_str()) {
        Some(n) => Ok(TextColor::Named(n)),
        None => {
            if is_valid_hex_color_exec(s) {
                Ok(TextColor::Hex(s.clone()))
            } else {
                Err(DecodeError::MalformedColor)
            }
        },
    }
}

/// Decodes a click event object.
#[verifier::loop_isolation(false)]
fn decode_click_exec(v: &JsonValue) -> (r: Result<ClickEvent, DecodeError>)
    ensures
        match r {
            Ok(e) => decode_click(v@) == Ok::<ClickV, DecodeError>(e@),
            Err(e) => decode_click(v@) == Err::<ClickV, DecodeError>(e),
        },
{
    broadcast use lemma_members_view;

    match v {
        JsonValue::Obj(ms) => {
            let ghost msv = members_view(ms@);
            let mut action: Option<String> = None;
            let mut value: Option<String> = None;
            let ghost init = ClickStV { action: None, value: None };
            let mut i: usize = 0;
            proof {
                assert(msv.subrange(0, msv.len() as int) =~= msv);
            }
            while i < ms.len()
                invariant
                    i <= ms@.len(),
                    click_fold(init, msv) == click_fold(
                        ClickStV { action: opt_view_str(action), value: opt_view_str(value) },
                        msv.subrange(i as int, msv.len() as int),
                    ),
                decreases ms@.len() - i,
            {
                let ghost suffix = msv.subrange(i as int, msv.len() as int);
                proof {
                    reveal(click_step);
                    assert(suffix[0] == (ms@[i as int].0@, json_view(ms@[i as int].1)));
                    assert(suffix.drop_first() =~= msv.subrange(i + 1, msv.len() as int));
                }
                let pair = &ms[i];
                if str_eq(pair.0.as_str(), "action") {
                    match &pair.1 {
                        JsonValue::Str(t) => {
                            if action.is_some() {
                                return Err(DecodeError::DuplicateField);
                            }
                            action = Some(t.clone());
                        },
                        _ => {
                            return Err(DecodeError::WrongShape);
                        },
                    }
                } else if str_eq(pair.0.as_str(), "value") {
                    match &pair.1 {
                        JsonValue::Str(t) => {
                            if value.is_some() {
                                return Err(DecodeError::DuplicateField);
                            }
                            value = Some(t.clone());
                        },
                        _ => {
                            return Err(DecodeError::WrongShape);
                        },
                    }
                } else {
                    return Err(DecodeError::WrongShape);
                }
                i = i + 1;
            }
            proof {
                assert(msv.subrange(ms@.len() as int, msv.len() as int)
                    =~= Seq::<(Seq<char>, JsonV)>::empty());
            }
            match (action, value) {
                (Some(a), Some(val)) => {
                    if str_eq(a.as_str(), "open_url") {
                        Ok(ClickEvent::OpenUrl(val))
                    } else if str_eq(a.as_str(), "run_command") {
                        Ok(ClickEvent::RunCommand(val))
                    } else if str_eq(a.as_str(), "suggest_command") {
                        Ok(ClickEvent::SuggestCommand(val))
                    } else if str_eq(a.as_str(), "change_page") {
                        Ok(ClickEvent::ChangePage(val))
                    } else if str_eq(a.as_str(), "copy_to_clipboard") {
                        Ok(ClickEvent::CopyToClipboard(val))
                    } else {
                        Err(DecodeError::UnknownDiscriminator)
                    }
                },
                _ => Err(DecodeError::WrongShape),
            }
        },
        _ => Err(DecodeError::WrongShape),
    }
}

/// Decodes a scoreboard object.
#[verifier::loop_isolation(false)]
fn decode_score_exec(v: &JsonValue) -> (r: Result<ScoreboardMessage, DecodeError>)
    ensures
        match r {
            Ok(sc) => decode_score(v@) == Ok::<ScoreV, DecodeError>(sc@),
            Err(e) => decode_score(v@) == Err::<ScoreV, DecodeError>(e),
        },
{
    broadcast use lemma_members_view;

    match v {
        JsonValue::Obj(ms) => {
            let ghost msv = members_view(ms@);
            let mut name: Option<String> = None;
            let mut objective: Option<String> = None;
            let mut value: Option<String> = None;
            let ghost init = ScoreStV { name: None, objective: None, value: None };
            let mut i: usize = 0;
            proof {
                assert(msv.subrange(0, msv.len() as int) =~= msv);
            }
            while i < ms.len()
                invariant
                    i <= ms@.len(),
                    score_fold(init, msv) == score_fold(
                        ScoreStV {
                            name: opt_view_str(name),
                            objective: opt_view_str(objective),
                            value: opt_view_str(value),
                        },
                        msv.subrange(i as int, msv.len() as int),
                    ),
                decreases ms@.len() - i,
            {
                let ghost suffix = msv.subrange(i as int, msv.len() as int);
                proof {
                    reveal(score_step);
                    assert(suffix[0] == (ms@[i as int].0@, json_view(ms@[i as int].1)));
                    assert(suffix.drop_first() =~= msv.subrange(i + 1, msv.len() as int));
                }
                let pair = &ms[i];
                if str_eq(pair.0.as_str(), "name") {
                    match &pair.1 {
                        JsonValue::Str(t) => {
                            if name.is_some() {
                                return Err(DecodeError::DuplicateField);
                            }
                            name = Some(t.clone());
                        },
                        _ => {
                            return Err(DecodeError::WrongShape);
                        },
                    }
                } else if str_eq(pair.0.as_str(), "objective") {
                    match &pair.1 {
                        JsonValue::Str(t) => {
                            if objective.is_some() {
                                return Err(DecodeError::DuplicateField);
                            }
                            objective = Some(t.clone());
                        },
                        _ => {
                            return Err(DecodeError::WrongShape);
                        },
                    }
                } else if str_eq(pair.0.as_str(), "value") {
                    match &pair.1 {
                        JsonValue::Str(t) => {
                            if value.is_some() {
                                return Err(DecodeError::DuplicateField);
                            }
                            value = Some(t.clone());
                        },
                        _ => {
                            return Err(DecodeError::WrongShape);
                        },
                    }
                } else {
                    return Err(DecodeError::WrongShape);
                }
                i = i + 1;
            }
            proof {
                assert(msv.subrange(ms@.len() as int, msv.len() as int)
                    =~= Seq::<(Seq<char>, JsonV)>::empty());
            }
            match (name, objective) {
                (Some(n), Some(o)) => Ok(ScoreboardMessage { name: n, objective: o, value }),
                _ => Err(DecodeError::WrongShape),
            }
        },
        _ => Err(DecodeError::WrongShape),
    }
}

/// Decodes an item data object.
#[verifier::loop_isolation(false)]
fn decode_item_exec(v: &JsonValue) -> (r: Result<DisplayItemData, DecodeError>)
    ensures
        match r {
            Ok(it) => decode_item(v@) == Ok::<ItemV, DecodeError>(it@),
            Err(e) => decode_item(v@) == Err::<ItemV, DecodeError>(e),
        },
{
    broadcast use lemma_members_view;

    match v {
        JsonValue::Obj(ms) => {
            let ghost msv = members_view(ms@);
            let mut id: Option<String> = None;
            let mut count: Option<i32> = None;
            let mut tag: Option<String> = None;
            let ghost init = ItemStV { id: None, count: None, tag: None };
            let mut i: usize = 0;
            proof {
                assert(msv.subrange(0, msv.len() as int) =~= msv);
            }
            while i < ms.len()
                invariant
                    i <= ms@.len(),
                    item_fold(init, msv) == item_fold(
                        ItemStV { id: opt_view_str(id), count, tag: opt_view_str(tag) },
                        msv.subrange(i as int, msv.len() as int),
                    ),
                decreases ms@.len() - i,
            {
                let ghost suffix = msv.subrange(i as int, msv.len() as int);
                proof {
                    reveal(item_step);
                    assert(suffix[0] == (ms@[i as int].0@, json_view(ms@[i as int].1)));
                    assert(suffix.drop_first() =~= msv.subrange(i + 1, msv.len() as int));
                }
                let pair = &ms[i];
                if str_eq(pair.0.as_str(), "id") {
                    match &pair.1 {
                        JsonValue::Str(t) => {
                            if id.is_some() {
                                return Err(DecodeError::DuplicateField);
                            }
                            id = Some(t.clone());
                        },
                        _ => {
                            return Err(DecodeError::WrongShape);
                        },
                    }
                } else if str_eq(pair.0.as_str(), "count") {
                    match &pair.1 {
                        JsonValue::Int(n) => {
                            if count.is_some() {
                                return Err(DecodeError::DuplicateField);
                            }
                            if *n < i32::MIN as i64 || *n > i32::MAX as i64 {
                                return Err(DecodeError::WrongShape);
                            }
                            count = Some(*n as i32);
                        },
                        _ => {
                            return Err(DecodeError::WrongShape);
                        },
                    }
                } else if str_eq(pair.0.as_str(), "tag") {
                    match &pair.1 {
                        JsonValue::Str(t) => {
                            if tag.is_some() {
                                return Err(DecodeError::DuplicateField);
                            }
                            tag = Some(t.clone());
                        },
                        _ => {
                            return Err(DecodeError::WrongShape);
                        },
                    }
                } else {
                    return Err(DecodeError::WrongShape);
                }
                i = i + 1;
            }
            proof {
                assert(msv.subrange(ms@.len() as int, msv.len() as int)
                    =~= Seq::<(Seq<char>, JsonV)>::empty());
            }
            match id {
                Some(idv) => Ok(DisplayItemData { id: idv, count, tag }),
                None => Err(DecodeError::WrongShape),
            }
        },
        _ => Err(DecodeError::WrongShape),
    }
}

/// The mathematical value of the entity-data slots.
spec fn ent_slots_view(name: Option<Component>, entity_type: Option<String>, id: Option<u128>) -> EntStV {
    EntStV {
        name: match name {
            Some(c) => Some(component_view(c)),
            None => None,
        },
        entity_type: opt_view_str(entity_type),
        id,
    }
}

/// Decodes an entity data object; the display name is decoded in place.
#[verifier::loop_isolation(false)]
#[verifier::rlimit(100)]
#[verifier::spinoff_prover]
fn decode_entity_data_exec(v: &JsonValue) -> (r: Result<DisplayEntityData, DecodeError>)
    ensures
        match r {
            Ok(e) => decode_entity_data(v@) == Ok::<EntityDataV, DecodeError>(e@),
            Err(e) => decode_entity_data(v@) == Err::<EntityDataV, DecodeError>(e),
        },
    decreases v, 1int,
{
    broadcast use lemma_members_view;

    match v {
        JsonValue::Obj(ms) => {
            let ghost msv = members_view(ms@);
            let mut name: Option<Component> = None;
            let mut entity_type: Option<String> = None;
            let mut id: Option<u128> = None;
            let ghost init = EntStV { name: None, entity_type: None, id: None };
            let mut i: usize = 0;
            proof {
                assert(msv.subrange(0, msv.len() as int) =~= msv);
            }
            while i < ms.len()
                invariant
                    i <= ms@.len(),
                    ent_fold(init, msv) == ent_fold(
                        ent_slots_view(name, entity_type, id),
                        msv.subrange(i as int, msv.len() as int),
                    ),
                decreases ms@.len() - i,
            {
                let ghost suffix = msv.subrange(i as int, msv.len() as int);
                let ghost st0 = ent_slots_view(name, entity_type, id);
                proof {
                    reveal(ent_step);
                    assert(suffix[0] == (ms@[i as int].0@, json_view(ms@[i as int].1)));
                    assert(suffix.drop_first() =~= msv.subrange(i + 1, msv.len() as int));
                }
                let pair = &ms[i];
                if str_eq(pair.0.as_str(), "name") {
                    if name.is_some() {
                        return Err(DecodeError::DuplicateField);
                    }
                    proof {
                        assert(decreases_to!(v => *ms));
                        assert(decreases_to!(*ms => ms@));
                        assert(decreases_to!(ms@ => ms@[i as int]));
                        assert(decreases_to!(ms@[i as int] => ms@[i as int].1));
                    }
                    match decode_component_exec(&pair.1) {
                        Ok(c) => {
                            name = Some(c);
                        },
                        Err(e) => {
                            return Err(e);
                        },
                    }
                } else if str_eq(pair.0.as_str(), "type") {
                    match &pair.1 {
                        JsonValue::Str(t) => {
                            if entity_type.is_some() {
                                return Err(DecodeError::DuplicateField);
                            }
                            entity_type = Some(t.clone());
                        },
                        _ => {
                            return Err(DecodeError::WrongShape);
                        },
                    }
                } else if str_eq(pair.0.as_str(), "id") {
                    match &pair.1 {
                        JsonValue::Str(t) => {
                            if id.is_some() {
                                return Err(DecodeError::DuplicateField);
                            }
                            match uuid_from_string(t) {
                                Some(u) => {
                                    id = Some(u);
                                },
                                None => {
                                    return Err(DecodeError::MalformedId);
                                },
                            }
                        },
                        _ => {
                            return Err(DecodeError::WrongShape);
                        },
                    }
                } else {
                    return Err(DecodeError::WrongShape);
                }
                proof {
                    assert(ent_step(st0, suffix[0].0, suffix[0].1) == Ok::<EntStV, DecodeError>(
                        ent_slots_view(name, entity_type, id),
                    ));
                }
                i = i + 1;
            }
            proof {
                assert(msv.subrange(ms@.len() as int, msv.len() as int)
                    =~= Seq::<(Seq<char>, JsonV)>::empty());
            }
            match (entity_type, id) {
                (Some(t), Some(u)) => Ok(DisplayEntityData { name, entity_type: t, id: u }),
                _ => Err(DecodeError::WrongShape),
            }
        },
        _ => Err(DecodeError::WrongShape),
    }
}

/// Decodes a hover event object: exactly the discriminator and the payload,
/// in either order.
fn decode_hover_exec(v: &JsonValue) -> (r: Result<HoverEvent, DecodeError>)
    ensures
        match r {
            Ok(h) => decode_hover(v@) == Ok::<HoverV, DecodeError>(h@),
            Err(e) => decode_hover(v@) == Err::<HoverV, DecodeError>(e),
        },
    decreases v, 3int,
{
    broadcast use lemma_members_view;

    match v {
        JsonValue::Obj(ms) => {
            proof {
                assert(members_view(ms@).len() == ms@.len());
            }
            if ms.len() != 2 {
                return Err(DecodeError::WrongShape);
            }
            proof {
                assert(members_view(ms@)[0] == (ms@[0].0@, json_view(ms@[0].1)));
                assert(members_view(ms@)[1] == (ms@[1].0@, json_view(ms@[1].1)));
                assert(decreases_to!(v => *ms));
                assert(decreases_to!(*ms => ms@));
                assert(decreases_to!(ms@ => ms@[0int]));
                assert(decreases_to!(ms@ => ms@[1int]));
                assert(decreases_to!(ms@[0int] => ms@[0int].1));
                assert(decreases_to!(ms@[1int] => ms@[1int].1));
            }
            let k0_action = str_eq(ms[0].0.as_str(), "action");
            let k1_contents = str_eq(ms[1].0.as_str(), "contents");
            let k0_contents = str_eq(ms[0].0.as_str(), "contents");
            let k1_action = str_eq(ms[1].0.as_str(), "action");
            if k0_action && k1_contents {
                decode_hover_parts_exec(&ms[0].1, &ms[1].1)
            } else if k0_contents && k1_action {
                decode_hover_parts_exec(&ms[1].1, &ms[0].1)
            } else {
                Err(DecodeError::WrongShape)
            }
        },
        _ => Err(DecodeError::WrongShape),
    }
}

/// Decodes a hover event from its discriminator and payload values.
fn decode_hover_parts_exec(av: &JsonValue, cv: &JsonValue) -> (r: Result<HoverEvent, DecodeError>)
    ensures
        match r {
            Ok(h) => decode_hover_parts(av@, cv@) == Ok::<HoverV, DecodeError>(h@),
            Err(e) => decode_hover_parts(av@, cv@) == Err::<HoverV, DecodeError>(e),
        },
    decreases cv, 2int,
{
    match av {
        JsonValue::Str(a) => {
            if str_eq(a.as_str(), "show_text") {
                match decode_component_exec(cv) {
                    Ok(c) => Ok(HoverEvent::ShowText { contents: Box::new(c) }),
                    Err(e) => Err(e),
                }
            } else if str_eq(a.as_str(), "show_item") {
                match decode_item_exec(cv) {
                    Ok(it) => Ok(HoverEvent::ShowItem { contents: it }),
                    Err(e) => Err(e),
                }
            } else if str_eq(a.as_str(), "show_entity") {
                match decode_entity_data_exec(cv) {
                    Ok(e) => Ok(HoverEvent::ShowEntity { contents: Box::new(e) }),
                    Err(e) => Err(e),
                }
            } else {
                Err(DecodeError::UnknownDiscriminator)
            }
        },
        _ => Err(DecodeError::WrongShape),
    }
}

/// The slots filled while reading a component object.
struct CompSlots {
    extra: Option<Vec<Component>>,
    bold: Option<bool>,
    italic: Option<bool>,
    obfuscated: Option<bool>,
    strikethrough: Option<bool>,
    underlined: Option<bool>,
    reset: Option<bool>,
    color: Option<TextColor>,
    text: Option<String>,
    translate: Option<String>,
    with: Option<Vec<Component>>,
    score: Option<ScoreboardMessage>,
    selector: Option<String>,
    keybind: Option<String>,
    nbt: Option<String>,
    interpret: Option<bool>,
    separator: Option<Component>,
    block: Option<String>,
    entity: Option<String>,
    storage: Option<String>,
    insertion: Option<String>,
    click: Option<ClickEvent>,
    hover: Option<HoverEvent>,
}

/// The mathematical value of the slots.
spec fn comp_slots_view(s: CompSlots) -> CompStV {
    CompStV {
        extra: match s.extra {
            Some(v) => Some(components_view(v@)),
            None => None,
        },
        bold: s.bold,
        italic: s.italic,
        obfuscated: s.obfuscated,
        strikethrough: s.strikethrough,
        underlined: s.underlined,
        reset: s.reset,
        color: match s.color {
            Some(c) => Some(c@),
            None => None,
        },
        text: opt_view_str(s.text),
        translate: opt_view_str(s.translate),
        with: match s.with {
            Some(v) => Some(components_view(v@)),
            None => None,
        },
        score: match s.score {
            Some(sc) => Some(sc@),
            None => None,
        },
        selector: opt_view_str(s.selector),
        keybind: opt_view_str(s.keybind),
        nbt: opt_view_str(s.nbt),
        interpret: s.interpret,
        separator: match s.separator {
            Some(c) => Some(component_view(c)),
            None => None,
        },
        block: opt_view_str(s.block),
        entity: opt_view_str(s.entity),
        storage: opt_view_str(s.storage),
        insertion: opt_view_str(s.insertion),
        click: match s.click {
            Some(e) => Some(e@),
            None => None,
        },
        hover: match s.hover {
            Some(h) => Some(hover_view(h)),
            None => None,
        },
    }
}

/// Applies one object member to the slots: the exact effect of one fold
/// step, nested values decoded in place.
#[verifier::rlimit(100)]
#[verifier::spinoff_prover]
fn comp_apply_member(sl: CompSlots, pair: &(String, JsonValue)) -> (r: Result<
    CompSlots,
    DecodeError,
>)
    ensures
        match r {
            Ok(sl2) => comp_step(comp_slots_view(sl), pair.0@, pair.1@) == Ok::<
                CompStV,
                DecodeError,
            >(comp_slots_view(sl2)),
            Err(e) => comp_step(comp_slots_view(sl), pair.0@, pair.1@) == Err::<
                CompStV,
                DecodeError,
            >(e),
        },
    decreases pair.1, 5int,
{
    proof {
        reveal(comp_step);
    }
    let ghost sl0 = comp_slots_view(sl);
    let mut sl = sl;
    let key = pair.0.as_str();
        if str_eq(key, "extra") {
            match &pair.1 {
                JsonValue::Arr(items) => {
                    if sl.extra.is_some() {
                        return Err(DecodeError::DuplicateField);
                    }
                    proof {
                        assert(decreases_to!(pair.1 => items@));
                    }
                    match decode_components_exec(items) {
                        Ok(cs) => {
                            sl.extra = Some(cs);
                        },
                        Err(e) => {
                            return Err(e);
                        },
                    }
                },
                _ => {
                    return Err(DecodeError::WrongShape);
                },
            }
        } else if str_eq(key, "bold") {
            match &pair.1 {
                JsonValue::Bool(b) => {
                    if sl.bold.is_some() {
                        return Err(DecodeError::DuplicateField);
                    }
                    sl.bold = Some(*b);
                },
                _ => {
                    return Err(DecodeError::WrongShape);
                },
            }
        } else if str_eq(key, "italic") {
            match &pair.1 {
                JsonValue::Bool(b) => {
                    if sl.italic.is_some() {
                        return Err(DecodeError::DuplicateField);
                    }
                    sl.italic = Some(*b);
                },
                _ => {
                    return Err(DecodeError::WrongShape);
                },
            }
        } else if str_eq(key, "obfuscated") {
            match &pair.1 {
                JsonValue::Bool(b) => {
                    if sl.obfuscated.is_some() {
                        return Err(DecodeError::DuplicateField);
                    }
                    sl.obfuscated = Some(*b);
                },
                _ => {
                    return Err(DecodeError::WrongShape);
                },
            }
        } else if str_eq(key, "strikethrough") {
            match &pair.1 {
                JsonValue::Bool(b) => {
                    if sl.strikethrough.is_some() {
                        return Err(DecodeError::DuplicateField);
                    }
                    sl.strikethrough = Some(*b);
                },
                _ => {
                    return Err(DecodeError::WrongShape);
                },
            }
        } else if str_eq(key, "underlined") {
            match &pair.1 {
                JsonValue::Bool(b) => {
                    if sl.underlined.is_some() {
                        return Err(DecodeError::DuplicateField);
                    }
                    sl.underlined = Some(*b);
                },
                _ => {
                    return Err(DecodeError::WrongShape);
                },
            }
        } else if str_eq(key, "reset") {
            match &pair.1 {
                JsonValue::Bool(b) => {
                    if sl.reset.is_some() {
                        return Err(DecodeError::DuplicateField);
                    }
                    sl.reset = Some(*b);
                },
                _ => {
                    return Err(DecodeError::WrongShape);
                },
            }
        } else if str_eq(key, "color") {
            match &pair.1 {
                JsonValue::Str(t) => {
                    if sl.color.is_some() {
                        return Err(DecodeError::DuplicateField);
                    }
                    match decode_color_exec(t) {
                        Ok(c) => {
                            sl.color = Some(c);
                        },
                        Err(e) => {
                            return Err(e);
                        },
                    }
                },
                _ => {
                    return Err(DecodeError::WrongShape);
                },
            }
        } else if str_eq(key, "text") {
            match &pair.1 {
                JsonValue::Str(t) => {
                    if sl.text.is_some() {
                        return Err(DecodeError::DuplicateField);
                    }
                    sl.text = Some(t.clone());
                },
                _ => {
                    return Err(DecodeError::WrongShape);
                },
            }
        } else if str_eq(key, "translate") {
            match &pair.1 {
                JsonValue::Str(t) => {
                    if sl.translate.is_some() {
                        return Err(DecodeError::DuplicateField);
                    }
                    sl.translate = Some(t.clone());
                },
                _ => {
                    return Err(DecodeError::WrongShape);
                },
            }
        } else if str_eq(key, "with") {
            match &pair.1 {
                JsonValue::Arr(items) => {
                    if sl.with.is_some() {
                        return Err(DecodeError::DuplicateField);
                    }
                    proof {
                        assert(decreases_to!(pair.1 => items@));
                    }
                    match decode_components_exec(items) {
                        Ok(cs) => {
                            sl.with = Some(cs);
                        },
                        Err(e) => {
                            return Err(e);
                        },
                    }
                },
                _ => {
                    return Err(DecodeError::WrongShape);
                },
            }
        } else if str_eq(key, "score") {
            if sl.score.is_some() {
                return Err(DecodeError::DuplicateField);
            }
            match decode_score_exec(&pair.1) {
                Ok(sc) => {
                    sl.score = Some(sc);
                },
                Err(e) => {
                    return Err(e);
                },
            }
        } else if str_eq(key, "selector") {
            match &pair.1 {
                JsonValue::Str(t) => {
                    if sl.selector.is_some() {
                        return Err(DecodeError::DuplicateField);
                    }
                    sl.selector = Some(t.clone());
                },
                _ => {
                    return Err(DecodeError::WrongShape);
                },
            }
        } else if str_eq(key, "keybind") {
            match &pair.1 {
                JsonValue::Str(t) => {
                    if sl.keybind.is_some() {
                        return Err(DecodeError::DuplicateField);
                    }
                    sl.keybind = Some(t.clone());
                },
                _ => {
                    return Err(DecodeError::WrongShape);
                },
            }
        } else if str_eq(key, "nbt") {
            match &pair.1 {
                JsonValue::Str(t) => {
                    if sl.nbt.is_some() {
                        return Err(DecodeError::DuplicateField);
                    }
                    sl.nbt = Some(t.clone());
                },
                _ => {
                    return Err(DecodeError::WrongShape);
                },
            }
        } else if str_eq(key, "interpret") {
            match &pair.1 {
                JsonValue::Bool(b) => {
                    if sl.interpret.is_some() {
                        return Err(DecodeError::DuplicateField);
                    }
                    sl.interpret = Some(*b);
                },
                _ => {
                    return Err(DecodeError::WrongShape);
                },
            }
        } else if str_eq(key, "separator") {
            if sl.separator.is_some() {
                return Err(DecodeError::DuplicateField);
            }
            match decode_component_exec(&pair.1) {
                Ok(c) => {
                    sl.separator = Some(c);
                },
                Err(e) => {
                    return Err(e);
                },
            }
        } else if str_eq(key, "block") {
            match &pair.1 {
                JsonValue::Str(t) => {
                    if sl.block.is_some() {
                        return Err(DecodeError::DuplicateField);
                    }
                    sl.block = Some(t.clone());
                },
                _ => {
                    return Err(DecodeError::WrongShape);
                },
            }
        } else if str_eq(key, "entity") {
            match &pair.1 {
                JsonValue::Str(t) => {
                    if sl.entity.is_some() {
                        return Err(DecodeError::DuplicateField);
                    }
                    sl.entity = Some(t.clone());
                },
                _ => {
                    return Err(DecodeError::WrongShape);
                },
            }
        } else if str_eq(key, "storage") {
            match &pair.1 {
                JsonValue::Str(t) => {
                    if sl.storage.is_some() {
                        return Err(DecodeError::DuplicateField);
                    }
                    sl.storage = Some(t.clone());
                },
                _ => {
                    return Err(DecodeError::WrongShape);
                },
            }
        } else if str_eq(key, "insertion") {
            match &pair.1 {
                JsonValue::Str(t) => {
                    if sl.insertion.is_some() {
                        return Err(DecodeError::DuplicateField);
                    }
                    sl.insertion = Some(t.clone());
                },
                _ => {
                    return Err(DecodeError::WrongShape);
                },
            }
        } else if str_eq(key, "clickEvent") {
            if sl.click.is_some() {
                return Err(DecodeError::DuplicateField);
            }
            match decode_click_exec(&pair.1) {
                Ok(e) => {
                    sl.click = Some(e);
                },
                Err(e) => {
                    return Err(e);
                },
            }
        } else if str_eq(key, "hoverEvent") {
            if sl.hover.is_some() {
                return Err(DecodeError::DuplicateField);
            }
            match decode_hover_exec(&pair.1) {
                Ok(h) => {
                    sl.hover = Some(h);
                },
                Err(e) => {
                    return Err(e);
                },
            }
        } else {
            return Err(DecodeError::WrongShape);
        }

    proof {
        assert(comp_step(sl0, pair.0@, pair.1@) == Ok::<CompStV, DecodeError>(
            comp_slots_view(sl),
        ));
    }
    Ok(sl)
}

/// Decodes a wire component object.
#[verifier::loop_isolation(false)]
#[verifier::rlimit(100)]
#[verifier::spinoff_prover]
pub fn decode_component_exec(v: &JsonValue) -> (r: Result<Component, DecodeError>)
    ensures
        match r {
            Ok(c) => decode_component(v@) == Ok::<ComponentV, DecodeError>(c@),
            Err(e) => decode_component(v@) == Err::<ComponentV, DecodeError>(e),
        },
    decreases v, 0int,
{
    broadcast use lemma_members_view;

    match v {
        JsonValue::Obj(ms) => {
            let ghost msv = members_view(ms@);
            let mut sl = CompSlots {
                extra: None,
                bold: None,
                italic: None,
                obfuscated: None,
                strikethrough: None,
                underlined: None,
                reset: None,
                color: None,
                text: None,
                translate: None,
                with: None,
                score: None,
                selector: None,
                keybind: None,
                nbt: None,
                interpret: None,
                separator: None,
                block: None,
                entity: None,
                storage: None,
                insertion: None,
                click: None,
                hover: None,
            };
            proof {
                assert(comp_slots_view(sl) =~= comp_st_empty());
                assert(msv.subrange(0, msv.len() as int) =~= msv);
            }
            let mut i: usize = 0;
            while i < ms.len()
                invariant
                    i <= ms@.len(),
                    comp_fold(comp_st_empty(), msv) == comp_fold(
                        comp_slots_view(sl),
                        msv.subrange(i as int, msv.len() as int),
                    ),
                decreases ms@.len() - i,
            {
                let ghost suffix = msv.subrange(i as int, msv.len() as int);
                proof {
                    assert(suffix[0] == (ms@[i as int].0@, json_view(ms@[i as int].1)));
                    assert(suffix.drop_first() =~= msv.subrange(i + 1, msv.len() as int));
                    assert(decreases_to!(v => *ms));
                    assert(decreases_to!(*ms => ms@));
                    assert(decreases_to!(ms@ => ms@[i as int]));
                    assert(decreases_to!(ms@[i as int] => ms@[i as int].1));
                }
                let ghost sl0 = comp_slots_view(sl);
                proof {
                    assert(decreases_to!(ms@[i as int] => ms@[i as int].1));
                }
                sl = match comp_apply_member(sl, &ms[i]) {
                    Ok(sl2) => sl2,
                    Err(e) => {
                        return Err(e);
                    },
                };
                i = i + 1;
            }
            proof {
                assert(msv.subrange(ms@.len() as int, msv.len() as int)
                    =~= Seq::<(Seq<char>, JsonV)>::empty());
            }
            assemble_component_exec(sl)
        },
        _ => Err(DecodeError::WrongShape),
    }
}

/// Assembles the component from the filled slots.
#[verifier::rlimit(100)]
#[verifier::spinoff_prover]
fn assemble_component_exec(sl: CompSlots) -> (r: Result<Component, DecodeError>)
    ensures
        match r {
            Ok(c) => assemble_component(comp_slots_view(sl)) == Ok::<ComponentV, DecodeError>(
                c@,
            ),
            Err(e) => assemble_component(comp_slots_view(sl)) == Err::<ComponentV, DecodeError>(
                e,
            ),
        },
{
    proof {
        reveal(assemble_contents);
    }
    let ghost st = comp_slots_view(sl);
    let CompSlots {
        extra,
        bold,
        italic,
        obfuscated,
        strikethrough,
        underlined,
        reset,
        color,
        text,
        translate,
        with,
        score,
        selector,
        keybind,
        nbt,
        interpret,
        separator,
        block,
        entity,
        storage,
        insertion,
        click,
        hover,
    } = sl;
    let contents: MessageContents = if text.is_some() {
        if translate.is_none() && with.is_none() && score.is_none() && selector.is_none()
            && keybind.is_none() && nbt.is_none() && interpret.is_none() && separator.is_none()
            && block.is_none() && entity.is_none() && storage.is_none() {
            MessageContents::Plain { text: text.unwrap() }
        } else {
            return Err(DecodeError::ContentsMismatch);
        }
    } else if translate.is_some() {
        if score.is_none() && selector.is_none() && keybind.is_none() && nbt.is_none()
            && interpret.is_none() && separator.is_none() && block.is_none() && entity.is_none()
            && storage.is_none() {
            MessageContents::Translate(
                TranslatedMessage { translate: translate.unwrap(), with },
            )
        } else {
            return Err(DecodeError::ContentsMismatch);
        }
    } else if score.is_some() {
        if with.is_none() && selector.is_none() && keybind.is_none() && nbt.is_none()
            && interpret.is_none() && separator.is_none() && block.is_none() && entity.is_none()
            && storage.is_none() {
            MessageContents::Score { score: score.unwrap() }
        } else {
            return Err(DecodeError::ContentsMismatch);
        }
    } else if selector.is_some() {
        if with.is_none() && keybind.is_none() && nbt.is_none() && interpret.is_none()
            && block.is_none() && entity.is_none() && storage.is_none() {
            MessageContents::Entity(
                Box::new(EntityMessage { selector: selector.unwrap(), separator }),
            )
        } else {
            return Err(DecodeError::ContentsMismatch);
        }
    } else if keybind.is_some() {
        if with.is_none() && nbt.is_none() && interpret.is_none() && separator.is_none()
            && block.is_none() && entity.is_none() && storage.is_none() {
            MessageContents::Keybind(KeyMessage { keybind: keybind.unwrap() })
        } else {
            return Err(DecodeError::ContentsMismatch);
        }
    } else if nbt.is_some() {
        let one_source = (block.is_some() && entity.is_none() && storage.is_none()) || (
        block.is_none() && entity.is_some() && storage.is_none()) || (block.is_none()
            && entity.is_none() && storage.is_some());
        if with.is_none() && one_source {
            MessageContents::Nbt(
                Box::new(
                    NbtMessage {
                        nbt: nbt.unwrap(),
                        interpret,
                        separator,
                        block,
                        entity,
                        storage,
                    },
                ),
            )
        } else {
            return Err(DecodeError::ContentsMismatch);
        }
    } else {
        return Err(DecodeError::ContentsMismatch);
    };
    let r = Component {
        extra,
        bold,
        italic,
        obfuscated,
        strikethrough,
        underlined,
        reset,
        color,
        contents,
        insertion,
        click_event: click,
        hover_event: hover,
    };
    proof {
        assert(r@ =~= assemble_component(st)->Ok_0);
    }
    Ok(r)
}

/// Decodes each element of a wire array as a component.
fn decode_components_exec(items: &Vec<JsonValue>) -> (r: Result<Vec<Component>, DecodeError>)
    ensures
        match r {
            Ok(cs) => decode_components(jsons_view(items@)) == Ok::<Seq<ComponentV>, DecodeError>(
                components_view(cs@),
            ),
            Err(e) => decode_components(jsons_view(items@)) == Err::<Seq<ComponentV>, DecodeError>(
                e,
            ),
        },
    decreases items@, 1int,
{
    broadcast use crate::json::lemma_jsons_view, crate::component::lemma_components_view;

    let ghost iv = jsons_view(items@);
    let mut acc: Vec<Component> = Vec::new();
    let mut i: usize = 0;
    proof {
        assert(iv.subrange(0, iv.len() as int) =~= iv);
        assert(components_view(acc@) =~= Seq::<ComponentV>::empty());
    }
    while i < items.len()
        invariant
            i <= items@.len(),
            iv == jsons_view(items@),
            iv.len() == items@.len(),
            acc@.len() == i,
            match decode_components(iv.subrange(i as int, iv.len() as int)) {
                Ok(rest) => decode_components(iv) == Ok::<Seq<ComponentV>, DecodeError>(
                    components_view(acc@) + rest,
                ),
                Err(e) => decode_components(iv) == Err::<Seq<ComponentV>, DecodeError>(e),
            },
        decreases items@.len() - i,
    {
        let ghost suffix = iv.subrange(i as int, iv.len() as int);
        proof {
            assert(suffix[0] == iv[i as int]);
            crate::json::lemma_jsons_view(items@);
            assert(iv[i as int] == json_view(items@[i as int]));
            assert(suffix.drop_first() =~= iv.subrange(i + 1, iv.len() as int));
            assert(decreases_to!(items@ => items@[i as int]));
        }
        match decode_component_exec(&items[i]) {
            Ok(c) => {
                let ghost acc0 = acc@;
                acc.push(c);
                proof {
                    assert(acc@.drop_last() =~= acc0);
                    assert(components_view(acc@) =~= components_view(acc0).push(
                        component_view(c),
                    ));
                    match decode_components(iv.subrange(i + 1, iv.len() as int)) {
                        Ok(rest) => {
                            assert(components_view(acc@) + rest =~= components_view(acc0) + (seq![
                                component_view(c),
                            ] + rest));
                        },
                        Err(_) => {},
                    }
                }
            },
            Err(e) => {
                return Err(e);
            },
        }
        i = i + 1;
    }
    proof {
        assert(iv.subrange(items@.len() as int, iv.len() as int) =~= Seq::<JsonV>::empty());
    }
    Ok(acc)
}

/// The wire text of a component value.
pub open spec fn spec_to_json(c: ComponentV) -> Seq<char> {
    crate::json::print_json(encode_component(c))
}

/// The component denoted by a wire text: the text parsed as one JSON value,
/// then decoded against the schema; failures are reported, never defaulted.
pub open spec fn spec_from_json(s: Seq<char>) -> Result<ComponentV, DecodeError> {
    match crate::json::spec_parse_json(s) {
        None => Err(DecodeError::Syntax),
        Some(v) => decode_component(v),
    }
}

impl Component {
    /// Serializes this component to its wire JSON text.
    pub fn to_json(&self) -> (r: String)
        ensures
            r@ == spec_to_json(self@),
    {
        let j = encode_component_exec(self);
        crate::json::json_to_string(&j)
    }

    /// Parses wire JSON text into a component.
    pub fn from_json(text: &str) -> (r: Result<Component, DecodeError>)
        ensures
            match r {
                Ok(c) => spec_from_json(text@) == Ok::<ComponentV, DecodeError>(c@),
                Err(e) => spec_from_json(text@) == Err::<ComponentV, DecodeError>(e),
            },
    {
        match crate::json::parse_json(text) {
            Ok(v) => decode_component_exec(&v),
            Err(()) => Err(DecodeError::Syntax),
        }
    }
}

/// Reading hex digits distributes over concatenation.
proof fn lemma_hex_seq_val_concat(a: Seq<char>, b: Seq<char>)
    ensures
        hex_seq_val(a + b) == hex_seq_val(a) * pow16(b.len()) + hex_seq_val(b),
    decreases b.len(),
{
    if b.len() == 0 {
        assert(a + b =~= a);
        assert(pow16(0) == 1);
    } else {
        lemma_hex_seq_val_concat(a, b.drop_last());
        assert((a + b).drop_last() =~= a + b.drop_last());
        assert((a + b).last() == b.last());
        assert(hex_seq_val(a + b) == (hex_seq_val(a) * pow16((b.len() - 1) as nat) + hex_seq_val(
            b.drop_last(),
        )) * 16 + hex_val(b.last()));
        assert(pow16(b.len()) == 16 * pow16((b.len() - 1) as nat));
        assert(hex_seq_val(a) * pow16((b.len() - 1) as nat) * 16 == hex_seq_val(a) * pow16(
            b.len(),
        )) by (nonlinear_arith)
            requires
                pow16(b.len()) == 16 * pow16((b.len() - 1) as nat),
        ;
    }
}

/// A click event decodes back from its own wire object.
pub proof fn lemma_click_roundtrip(e: ClickV)
    ensures
        decode_click(encode_click(e)) == Ok::<ClickV, DecodeError>(e),
{
    reveal(click_step);
    reveal_with_fuel(click_fold, 3);
    reveal_strlit("action");
    reveal_strlit("value");
    reveal_strlit("open_url");
    reveal_strlit("run_command");
    reveal_strlit("suggest_command");
    reveal_strlit("change_page");
    reveal_strlit("copy_to_clipboard");
    assert("action"@.len() == 6);
    assert("value"@.len() == 5);
    assert("open_url"@.len() == 8);
    assert("run_command"@.len() == 11);
    assert("suggest_command"@.len() == 15);
    assert("change_page"@.len() == 11);
    assert("copy_to_clipboard"@.len() == 17);
    assert("run_command"@[0] != "change_page"@[0]);
    let ms = seq![
        ("action"@, JsonV::Str(click_action_name(e))),
        ("value"@, JsonV::Str(click_value(e))),
    ];
    let st0 = ClickStV { action: None, value: None };
    let st1 = ClickStV { action: Some(click_action_name(e)), value: None };
    let st2 = ClickStV { action: Some(click_action_name(e)), value: Some(click_value(e)) };
    assert(click_step(st0, ms[0].0, ms[0].1) == Ok::<ClickStV, DecodeError>(st1));
    assert(click_step(st1, ms[1].0, ms[1].1) == Ok::<ClickStV, DecodeError>(st2));
    assert(ms.drop_first() =~= seq![("value"@, JsonV::Str(click_value(e)))]);
    assert(ms.drop_first().drop_first() =~= Seq::<(Seq<char>, JsonV)>::empty());
    assert(click_fold(st0, ms) == Ok::<ClickStV, DecodeError>(st2));
}

/// Scoreboard contents decode back from their own wire object.
pub proof fn lemma_score_roundtrip(sc: ScoreV)
    ensures
        decode_score(encode_score(sc)) == Ok::<ScoreV, DecodeError>(sc),
{
    reveal(score_step);
    reveal_with_fuel(score_fold, 4);
    reveal_strlit("name");
    reveal_strlit("objective");
    reveal_strlit("value");
    assert("name"@.len() == 4);
    assert("objective"@.len() == 9);
    assert("value"@.len() == 5);
    let base = seq![("name"@, JsonV::Str(sc.name)), ("objective"@, JsonV::Str(sc.objective))];
    let ms = base + opt_member("value"@, opt_str_json(sc.value));
    assert(encode_score(sc) == JsonV::Obj(ms));
    let st0 = ScoreStV { name: None, objective: None, value: None };
    let st1 = ScoreStV { name: Some(sc.name), objective: None, value: None };
    let st2 = ScoreStV { name: Some(sc.name), objective: Some(sc.objective), value: None };
    match sc.value {
        Some(v) => {
            assert(ms =~= seq![
                ("name"@, JsonV::Str(sc.name)),
                ("objective"@, JsonV::Str(sc.objective)),
                ("value"@, JsonV::Str(v)),
            ]);
            let st3 = ScoreStV {
                name: Some(sc.name),
                objective: Some(sc.objective),
                value: Some(v),
            };
            assert(score_step(st0, ms[0].0, ms[0].1) == Ok::<ScoreStV, DecodeError>(st1));
            assert(score_step(st1, ms[1].0, ms[1].1) == Ok::<ScoreStV, DecodeError>(st2));
            assert(score_step(st2, ms[2].0, ms[2].1) == Ok::<ScoreStV, DecodeError>(st3));
            assert(ms.drop_first() =~= ms.subrange(1, 3));
            assert(ms.drop_first().drop_first() =~= ms.subrange(2, 3));
            assert(ms.drop_first().drop_first().drop_first() =~= Seq::<
                (Seq<char>, JsonV),
            >::empty());
            assert(score_fold(st0, ms) == Ok::<ScoreStV, DecodeError>(st3));
        },
        None => {
            assert(ms =~= seq![
                ("name"@, JsonV::Str(sc.name)),
                ("objective"@, JsonV::Str(sc.objective)),
            ]);
            assert(score_step(st0, ms[0].0, ms[0].1) == Ok::<ScoreStV, DecodeError>(st1));
            assert(score_step(st1, ms[1].0, ms[1].1) == Ok::<ScoreStV, DecodeError>(st2));
            assert(ms.drop_first() =~= ms.subrange(1, 2));
            assert(ms.drop_first().drop_first() =~= Seq::<(Seq<char>, JsonV)>::empty());
            assert(score_fold(st0, ms) == Ok::<ScoreStV, DecodeError>(st2));
        },
    }
}

/// Item data decodes back from its own wire object.
pub proof fn lemma_item_roundtrip(it: ItemV)
    ensures
        decode_item(encode_item(it)) == Ok::<ItemV, DecodeError>(it),
{
    reveal(item_step);
    reveal_with_fuel(item_fold, 4);
    reveal_strlit("id");
    reveal_strlit("count");
    reveal_strlit("tag");
    assert("id"@.len() == 2);
    assert("count"@.len() == 5);
    assert("tag"@.len() == 3);
    let p1 = seq![("id"@, JsonV::Str(it.id))];
    let p2 = opt_member(
        "count"@,
        match it.count {
            Some(c) => Some(JsonV::Int(c as int)),
            None => None,
        },
    );
    let p3 = opt_member("tag"@, opt_str_json(it.tag));
    let ms = p1 + p2 + p3;
    assert(encode_item(it) == JsonV::Obj(ms));
    let st0 = ItemStV { id: None, count: None, tag: None };
    let st1 = ItemStV { id: Some(it.id), count: None, tag: None };
    let st2 = ItemStV { id: Some(it.id), count: it.count, tag: None };
    let st3 = ItemStV { id: Some(it.id), count: it.count, tag: it.tag };
    match (it.count, it.tag) {
        (Some(c), Some(t)) => {
            assert(ms =~= seq![
                ("id"@, JsonV::Str(it.id)),
                ("count"@, JsonV::Int(c as int)),
                ("tag"@, JsonV::Str(t)),
            ]);
            assert(item_step(st0, ms[0].0, ms[0].1) == Ok::<ItemStV, DecodeError>(st1));
            assert(item_step(st1, ms[1].0, ms[1].1) == Ok::<ItemStV, DecodeError>(st2));
            assert(item_step(st2, ms[2].0, ms[2].1) == Ok::<ItemStV, DecodeError>(st3));
            assert(ms.drop_first() =~= ms.subrange(1, 3));
            assert(ms.drop_first().drop_first() =~= ms.subrange(2, 3));
            assert(ms.drop_first().drop_first().drop_first() =~= Seq::<
                (Seq<char>, JsonV),
            >::empty());
            assert(item_fold(st0, ms) == Ok::<ItemStV, DecodeError>(st3));
        },
        (Some(c), None) => {
            assert(ms =~= seq![("id"@, JsonV::Str(it.id)), ("count"@, JsonV::Int(c as int))]);
            assert(item_step(st0, ms[0].0, ms[0].1) == Ok::<ItemStV, DecodeError>(st1));
            assert(item_step(st1, ms[1].0, ms[1].1) == Ok::<ItemStV, DecodeError>(st3));
            assert(ms.drop_first() =~= ms.subrange(1, 2));
            assert(ms.drop_first().drop_first() =~= Seq::<(Seq<char>, JsonV)>::empty());
            assert(item_fold(st0, ms) == Ok::<ItemStV, DecodeError>(st3));
        },
        (None, Some(t)) => {
            assert(ms =~= seq![("id"@, JsonV::Str(it.id)), ("tag"@, JsonV::Str(t))]);
            assert(item_step(st0, ms[0].0, ms[0].1) == Ok::<ItemStV, DecodeError>(st1));
            assert(item_step(st1, ms[1].0, ms[1].1) == Ok::<ItemStV, DecodeError>(st3));
            assert(ms.drop_first() =~= ms.subrange(1, 2));
            assert(ms.drop_first().drop_first() =~= Seq::<(Seq<char>, JsonV)>::empty());
            assert(item_fold(st0, ms) == Ok::<ItemStV, DecodeError>(st3));
        },
        (None, None) => {
            assert(ms =~= seq![("id"@, JsonV::Str(it.id))]);
            assert(item_step(st0, ms[0].0, ms[0].1) == Ok::<ItemStV, DecodeError>(st1));
            assert(ms.drop_first() =~= Seq::<(Seq<char>, JsonV)>::empty());
            assert(item_fold(st0, ms) == Ok::<ItemStV, DecodeError>(st3));
        },
    }
}

/// A well-formed color decodes back from its wire string.
pub proof fn lemma_color_roundtrip(col: ColorV)
    requires
        wf_color(col),
    ensures
        decode_color(color_string(col)) == Ok::<ColorV, DecodeError>(col),
{
    match col {
        ColorV::Named(n) => {
            crate::component::lemma_named_color_name_roundtrip(n);
        },
        ColorV::Hex(s) => {
            reveal_strlit("dark_red");
            reveal_strlit("red");
            reveal_strlit("gold");
            reveal_strlit("yellow");
            reveal_strlit("dark_green");
            reveal_strlit("green");
            reveal_strlit("aqua");
            reveal_strlit("dark_aqua");
            reveal_strlit("dark_blue");
            reveal_strlit("blue");
            reveal_strlit("light_purple");
            reveal_strlit("dark_purple");
            reveal_strlit("white");
            reveal_strlit("gray");
            reveal_strlit("dark_gray");
            reveal_strlit("black");
            // a hex string starts with the hash mark, no color name does
            assert(s[0] == '#');
            assert(s != "dark_red"@) by {
                assert("dark_red"@[0] == 'd');
            }
            assert(s != "red"@) by {
                assert("red"@[0] == 'r');
            }
            assert(s != "gold"@) by {
                assert("gold"@[0] == 'g');
            }
            assert(s != "yellow"@) by {
                assert("yellow"@[0] == 'y');
            }
            assert(s != "dark_green"@) by {
                assert("dark_green"@[0] == 'd');
            }
            assert(s != "green"@) by {
                assert("green"@[0] == 'g');
            }
            assert(s != "aqua"@) by {
                assert("aqua"@[0] == 'a');
            }
            assert(s != "dark_aqua"@) by {
                assert("dark_aqua"@[0] == 'd');
            }
            assert(s != "dark_blue"@) by {
                assert("dark_blue"@[0] == 'd');
            }
            assert(s != "blue"@) by {
                assert("blue"@[0] == 'b');
            }
            assert(s != "light_purple"@) by {
                assert("light_purple"@[0] == 'l');
            }
            assert(s != "dark_purple"@) by {
                assert("dark_purple"@[0] == 'd');
            }
            assert(s != "white"@) by {
                assert("white"@[0] == 'w');
            }
            assert(s != "gray"@) by {
                assert("gray"@[0] == 'g');
            }
            assert(s != "dark_gray"@) by {
                assert("dark_gray"@[0] == 'd');
            }
            assert(s != "black"@) by {
                assert("black"@[0] == 'b');
            }
            assert(named_color_of_name(s) is None);
        },
    }
}

} // verus!

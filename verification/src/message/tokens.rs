//! The markup tokenizer and the tag-stack parser: a single pass over the
//! input turns tags and text runs into tokens, and the parser folds the token
//! stream into one component tree.

use vstd::prelude::*;
use crate::component::{
    Colored, Component, ComponentV, ColorV, Formatting, NamedColor, component_view,
    components_view, empty_component_v, formatting_of_name, hex_color_string, named_color_of_name,
    spec_append, spec_append_to_last_child, spec_formatted, text_component_v,
};
use crate::text::{hex_seq_val, is_hex_digit, str_eq, str_chars, substring_chars};

verus! {

broadcast use vstd::string::group_string_axioms;

/// One lexical token of the markup language.
#[derive(Debug, PartialEq)]
pub enum MessageToken {
    /// `<#` then one or more hex digits then `>`: the digits' value.
    HexColor(u32),
    /// `<` then one of the sixteen color names then `>`.
    NamedColor(NamedColor),
    /// `<` then an optional `/` then a formatting name then `>`; the flag is
    /// false exactly when the `/` was present.
    Formatting((Formatting, bool)),
    /// `<` then one or more characters outside `<>/#` and whitespace, then
    /// `>`, when no other tag form matches: the inner name.
    PlaceholderTag(String),
    /// One or more characters containing neither `<` nor `>`.
    Contents(String),
    /// Input that matches no other rule.
    Error,
}

/// The mathematical value of a token.
#[verifier::ext_equal]
pub enum TokenV {
    /// A hex color tag.
    HexColor(u32),
    /// A named color tag.
    NamedColor(NamedColor),
    /// A formatting toggle tag.
    Formatting(Formatting, bool),
    /// A placeholder reference tag.
    PlaceholderTag(Seq<char>),
    /// A literal text run.
    Contents(Seq<char>),
    /// A lexical error.
    Error,
}

impl View for MessageToken {
    type V = TokenV;

    open spec fn view(&self) -> TokenV {
        match self {
            MessageToken::HexColor(v) => TokenV::HexColor(*v),
            MessageToken::NamedColor(c) => TokenV::NamedColor(*c),
            MessageToken::Formatting((f, b)) => TokenV::Formatting(*f, *b),
            MessageToken::PlaceholderTag(s) => TokenV::PlaceholderTag(s@),
            MessageToken::Contents(s) => TokenV::Contents(s@),
            MessageToken::Error => TokenV::Error,
        }
    }
}

/// Whitespace for the purpose of tag recognition.
pub open spec fn is_tag_ws(c: char) -> bool {
    c == ' ' || c == '\t' || c == '\n' || c == '\r' || c == '\u{b}' || c == '\u{c}'
}

/// A character allowed inside a placeholder tag: anything but `<`, `>`, `/`,
/// `#` and whitespace.
pub open spec fn is_placeholder_char(c: char) -> bool {
    c != '<' && c != '>' && c != '/' && c != '#' && !is_tag_ws(c)
}

/// Exact placeholder-character test.
fn is_placeholder_char_exec(c: char) -> (r: bool)
    ensures
        r == is_placeholder_char(c),
{
    c != '<' && c != '>' && c != '/' && c != '#' && c != ' ' && c != '\t' && c != '\n' && c != '\r'
        && c != '\u{b}' && c != '\u{c}'
}

/// The end of the text run starting at `i`: the first position at or after
/// `i` holding `<` or `>`, or the end of the input.
pub open spec fn contents_end(s: Seq<char>, i: int) -> int
    decreases s.len() - i,
{
    if i < 0 || i >= s.len() || s[i] == '<' || s[i] == '>' {
        i
    } else {
        contents_end(s, i + 1)
    }
}

/// The first position at or after `i` holding `>`, if any.
pub open spec fn find_gt(s: Seq<char>, i: int) -> Option<int>
    decreases s.len() - i,
{
    if i < 0 || i >= s.len() {
        None
    } else if s[i] == '>' {
        Some(i)
    } else {
        find_gt(s, i + 1)
    }
}

/// The token denoted by the inside of a bracketed tag, in fixed precedence:
/// hex color, named color, formatting, formatting with a leading `/`,
/// placeholder; anything else is a lexical error.
pub open spec fn spec_classify_tag(inner: Seq<char>) -> TokenV {
    if inner.len() >= 1 && inner[0] == '#' {
        let digits = inner.subrange(1, inner.len() as int);
        if digits.len() >= 1 && (forall|k: int|
            0 <= k < digits.len() ==> is_hex_digit(#[trigger] digits[k])) && hex_seq_val(digits)
            <= 0xFFFFFFFF {
            TokenV::HexColor(hex_seq_val(digits) as u32)
        } else {
            TokenV::Error
        }
    } else if named_color_of_name(inner) is Some {
        TokenV::NamedColor(named_color_of_name(inner)->0)
    } else if formatting_of_name(inner) is Some {
        TokenV::Formatting(formatting_of_name(inner)->0, true)
    } else if inner.len() >= 1 && inner[0] == '/' && formatting_of_name(
        inner.subrange(1, inner.len() as int),
    ) is Some {
        TokenV::Formatting(formatting_of_name(inner.subrange(1, inner.len() as int))->0, false)
    } else if inner.len() >= 1 && (forall|k: int|
        0 <= k < inner.len() ==> is_placeholder_char(#[trigger] inner[k])) {
        TokenV::PlaceholderTag(inner)
    } else {
        TokenV::Error
    }
}

/// The next token at position `i`, with the position after it: `None` exactly
/// at the end of the input. A text run extends to the next `<` or `>`; a `<`
/// opens a tag that runs to the next `>` and is classified by its inside; a
/// bare `>` or an unclosed `<` is a lexical error.
pub open spec fn spec_next_token(s: Seq<char>, i: int) -> Option<(TokenV, int)> {
    if i < 0 || i >= s.len() {
        None
    } else if s[i] != '<' && s[i] != '>' {
        Some((TokenV::Contents(s.subrange(i, contents_end(s, i))), contents_end(s, i)))
    } else if s[i] == '>' {
        Some((TokenV::Error, i + 1))
    } else {
        match find_gt(s, i + 1) {
            Some(j) => Some((spec_classify_tag(s.subrange(i + 1, j)), j + 1)),
            None => Some((TokenV::Error, s.len() as int)),
        }
    }
}

/// A text run ends strictly after it starts and within the input.
pub proof fn lemma_contents_end_bounds(s: Seq<char>, i: int)
    requires
        0 <= i < s.len(),
        s[i] != '<',
        s[i] != '>',
    ensures
        i < contents_end(s, i) <= s.len(),
    decreases s.len() - i,
{
    if i + 1 < s.len() && s[i + 1] != '<' && s[i + 1] != '>' {
        lemma_contents_end_bounds(s, i + 1);
    } else {
        assert(contents_end(s, i + 1) == i + 1);
    }
}

/// A found `>` lies between the search start and the end of the input.
pub proof fn lemma_find_gt_bounds(s: Seq<char>, i: int)
    requires
        0 <= i,
    ensures
        match find_gt(s, i) {
            Some(j) => i <= j < s.len() && s[j] == '>',
            None => true,
        },
    decreases s.len() - i,
{
    if i < s.len() && s[i] != '>' {
        lemma_find_gt_bounds(s, i + 1);
    }
}

/// Every token consumes at least one character and stays within the input.
pub proof fn lemma_next_token_advances(s: Seq<char>, i: int)
    requires
        0 <= i,
    ensures
        match spec_next_token(s, i) {
            Some((t, j)) => i < j <= s.len(),
            None => i >= s.len(),
        },
{
    if i < s.len() {
        if s[i] != '<' && s[i] != '>' {
            lemma_contents_end_bounds(s, i);
        } else if s[i] == '<' {
            lemma_find_gt_bounds(s, i + 1);
        }
    }
}

/// The lazy, single-pass markup tokenizer: characters and the position of the
/// next unread one.
#[derive(Debug)]
pub struct Tokenizer {
    /// The characters of the input.
    pub chars: Vec<char>,
    /// The position of the next unread character.
    pub pos: usize,
    /// The position where the most recently produced token began.
    pub start: usize,
}

impl Tokenizer {
    /// Builds a tokenizer over the given markup string.
    pub fn new(text: &str) -> (r: Tokenizer)
        ensures
            r.chars@ == text@,
            r.pos == 0,
            r.start == 0,
    {
        Tokenizer { chars: str_chars(text), pos: 0, start: 0 }
    }

    /// Pulls the next token; `None` exactly at the end of the input. After a
    /// call that returned a token, `start..pos` spans the consumed slice.
    pub fn next_token(&mut self) -> (r: Option<MessageToken>)
        ensures
            final(self).chars == old(self).chars,
            match r {
                Some(t) => {
                    &&& spec_next_token(old(self).chars@, old(self).pos as int) == Some(
                        (t@, final(self).pos as int),
                    )
                    &&& final(self).start == old(self).pos
                    &&& old(self).pos < final(self).pos <= old(self).chars@.len()
                },
                None => {
                    &&& spec_next_token(old(self).chars@, old(self).pos as int) is None
                    &&& final(self).pos == old(self).pos
                    &&& final(self).start == old(self).start
                },
            },
    {
        let ghost s = self.chars@;
        let n = self.chars.len();
        if self.pos >= n {
            return None;
        }
        let start = self.pos;
        self.start = start;
        let c = self.chars[start];
        if c != '<' && c != '>' {
            let mut j = start;
            while j < n && self.chars[j] != '<' && self.chars[j] != '>'
                invariant
                    start <= j <= n,
                    n == s.len(),
                    self.chars@ == s,
                    contents_end(s, start as int) == contents_end(s, j as int),
                decreases n - j,
            {
                j = j + 1;
            }
            let text = substring_chars(&self.chars, start, j);
            self.pos = j;
            proof {
                lemma_contents_end_bounds(s, start as int);
            }
            Some(MessageToken::Contents(text))
        } else if c == '>' {
            self.pos = start + 1;
            Some(MessageToken::Error)
        } else {
            let mut j = start + 1;
            while j < n && self.chars[j] != '>'
                invariant
                    start + 1 <= j <= n,
                    n == s.len(),
                    self.chars@ == s,
                    find_gt(s, (start + 1) as int) == find_gt(s, j as int),
                decreases n - j,
            {
                j = j + 1;
            }
            if j >= n {
                self.pos = n;
                Some(MessageToken::Error)
            } else {
                let inner = substring_chars(&self.chars, start + 1, j);
                self.pos = j + 1;
                Some(classify_tag(&inner))
            }
        }
    }

    /// The slice of the input spanned by the most recently produced token.
    pub fn last_slice(&self) -> (r: String)
        requires
            self.start <= self.pos <= self.chars@.len(),
        ensures
            r@ == self.chars@.subrange(self.start as int, self.pos as int),
    {
        substring_chars(&self.chars, self.start, self.pos)
    }
}

/// A failure of the markup parse.
#[derive(Debug, PartialEq)]
pub enum ParseError {
    /// A placeholder tag referenced no binding; carries the name.
    UndefinedPlaceholder(String),
    /// The tokenizer produced an error token; carries the raw slice.
    SyntaxError(String),
}

/// The mathematical value of a parse failure.
#[verifier::ext_equal]
pub enum ParseErrorV {
    /// An unresolved placeholder name.
    UndefinedPlaceholder(Seq<char>),
    /// The raw slice that matched no lexical rule.
    SyntaxError(Seq<char>),
}

impl View for ParseError {
    type V = ParseErrorV;

    open spec fn view(&self) -> ParseErrorV {
        match self {
            ParseError::UndefinedPlaceholder(s) => ParseErrorV::UndefinedPlaceholder(s@),
            ParseError::SyntaxError(s) => ParseErrorV::SyntaxError(s@),
        }
    }
}

/// The mathematical values of a token sequence, element for element.
pub open spec fn tokens_view(s: Seq<MessageToken>) -> Seq<TokenV> {
    Seq::new(s.len(), |i: int| s[i]@)
}

/// The mathematical values of a binding list, element for element.
pub open spec fn bindings_view(s: Seq<(String, Component)>) -> Seq<(Seq<char>, ComponentV)> {
    Seq::new(s.len(), |i: int| (s[i].0@, component_view(s[i].1)))
}

/// The binding of `name`: the most recently registered one wins.
pub open spec fn lookup_placeholder(m: Seq<(Seq<char>, ComponentV)>, name: Seq<char>) -> Option<
    ComponentV,
>
    decreases m.len(),
{
    if m.len() == 0 {
        None
    } else if m.last().0 == name {
        Some(m.last().1)
    } else {
        lookup_placeholder(m.drop_last(), name)
    }
}

/// Applying one pending style token to a component: colors and formatting
/// flags overwrite the corresponding field; other tokens never enter the
/// pending queue and leave the component unchanged.
pub open spec fn apply_style(c: ComponentV, t: TokenV) -> ComponentV {
    match t {
        TokenV::HexColor(v) => ComponentV { color: Some(ColorV::Hex(hex_color_string(v))), ..c },
        TokenV::NamedColor(n) => ComponentV { color: Some(ColorV::Named(n)), ..c },
        TokenV::Formatting(f, b) => spec_formatted(c, f, b),
        _ => c,
    }
}

/// Applying the pending queue in first-seen-first-applied order: the token
/// queued last is applied last, so it can override earlier ones.
pub open spec fn apply_styles(c: ComponentV, pending: Seq<TokenV>) -> ComponentV
    decreases pending.len(),
{
    if pending.len() == 0 {
        c
    } else {
        apply_style(apply_styles(c, pending.drop_last()), pending.last())
    }
}

/// The empty text node with the reset marker set, appended after every
/// substituted placeholder so that pending formatting never leaks across it.
pub open spec fn reset_marker_v() -> ComponentV {
    ComponentV { reset: Some(true), ..text_component_v(Seq::empty()) }
}

/// The mathematical state of a parser: the input and the position of the next
/// unread character, the pending style tokens, the bindings, and the
/// accumulated tree.
#[verifier::ext_equal]
pub struct ParserV {
    /// The characters of the markup input.
    pub input: Seq<char>,
    /// The position of the next unread character.
    pub pos: int,
    /// The pending style tokens, first seen first.
    pub stack: Seq<TokenV>,
    /// The placeholder bindings, in registration order.
    pub placeholders: Seq<(Seq<char>, ComponentV)>,
    /// The document accumulated so far.
    pub current: ComponentV,
}

/// The outcome of one parser step.
#[verifier::ext_equal]
pub enum StepV {
    /// A token was consumed; the new state.
    Continue(ParserV),
    /// The parse failed; no recovery.
    Fail(ParseErrorV),
    /// The input is exhausted.
    Done,
}

/// One parser step: pull a token. A style token joins the pending queue; a
/// text run becomes a node, takes the queued styles in order, and extends the
/// rightmost spine; a placeholder tag appends its binding and a reset marker,
/// or fails when unbound; an error token fails with its raw slice.
#[verifier::opaque]
pub open spec fn spec_advance(p: ParserV) -> StepV {
    match spec_next_token(p.input, p.pos) {
        None => StepV::Done,
        Some((t, j)) => match t {
            TokenV::PlaceholderTag(name) => match lookup_placeholder(p.placeholders, name) {
                None => StepV::Fail(ParseErrorV::UndefinedPlaceholder(name)),
                Some(ph) => StepV::Continue(
                    ParserV {
                        pos: j,
                        current: spec_append(spec_append(p.current, ph), reset_marker_v()),
                        ..p
                    },
                ),
            },
            TokenV::Contents(text) => StepV::Continue(
                ParserV {
                    pos: j,
                    stack: Seq::empty(),
                    current: spec_append_to_last_child(
                        p.current,
                        apply_styles(text_component_v(text), p.stack),
                    ),
                    ..p
                },
            ),
            TokenV::Error => StepV::Fail(
                ParseErrorV::SyntaxError(p.input.subrange(p.pos, j)),
            ),
            _ => StepV::Continue(ParserV { pos: j, stack: p.stack.push(t), ..p }),
        },
    }
}

/// Repeated stepping from a state until the input ends or the parse fails.
pub open spec fn spec_run(p: ParserV) -> Result<ComponentV, ParseErrorV>
    decreases p.input.len() - p.pos,
{
    match spec_advance(p) {
        StepV::Done => Ok(p.current),
        StepV::Fail(e) => Err(e),
        StepV::Continue(p2) => if p.pos < p2.pos <= p.input.len() && p2.input == p.input {
            spec_run(p2)
        } else {
            Ok(p2.current)
        },
    }
}

/// A continuing step consumes input and changes nothing else about the
/// input or the bindings.
pub proof fn lemma_advance_continue(p: ParserV)
    requires
        0 <= p.pos,
    ensures
        match spec_advance(p) {
            StepV::Continue(p2) => p.pos < p2.pos <= p.input.len() && p2.input == p.input,
            _ => true,
        },
{
    reveal(spec_advance);
    lemma_next_token_advances(p.input, p.pos);
}

/// The tag-stack parser: a token source, a FIFO queue of pending style
/// tokens, a placeholder binding list, and the accumulated tree.
#[derive(Debug)]
pub struct Parser {
    /// The token source.
    pub tokens: Tokenizer,
    /// Pending style tokens, in the order they were seen.
    pub stack: Vec<MessageToken>,
    /// Placeholder bindings, in registration order.
    pub placeholders: Vec<(String, Component)>,
    /// The document accumulated so far.
    pub current: Component,
}

impl View for Parser {
    type V = ParserV;

    open spec fn view(&self) -> ParserV {
        ParserV {
            input: self.tokens.chars@,
            pos: self.tokens.pos as int,
            stack: tokens_view(self.stack@),
            placeholders: bindings_view(self.placeholders@),
            current: component_view(self.current),
        }
    }
}

impl Parser {
    /// Builds a parser over the given tokenizer, with no bindings and an
    /// empty accumulator.
    pub fn new(lexer: Tokenizer) -> (r: Self)
        ensures
            r@ == (ParserV {
                input: lexer.chars@,
                pos: lexer.pos as int,
                stack: Seq::empty(),
                placeholders: Seq::empty(),
                current: empty_component_v(),
            }),
    {
        let r = Parser {
            tokens: lexer,
            stack: Vec::new(),
            placeholders: Vec::new(),
            current: Component::default(),
        };
        proof {
            assert(tokens_view(r.stack@) =~= Seq::<TokenV>::empty());
            assert(bindings_view(r.placeholders@) =~= Seq::<(Seq<char>, ComponentV)>::empty());
        }
        r
    }

    /// Registers a placeholder binding; a later binding of the same name
    /// overrides an earlier one.
    pub fn placeholder(&mut self, name: &str, placeholder: Component)
        ensures
            final(self)@ == (ParserV {
                placeholders: old(self)@.placeholders.push(
                    (name@, component_view(placeholder)),
                ),
                ..old(self)@
            }),
    {
        let ghost before = bindings_view(self.placeholders@);
        self.placeholders.push((name.to_owned(), placeholder));
        proof {
            assert(bindings_view(self.placeholders@) =~= before.push(
                (name@, component_view(placeholder)),
            ));
        }
    }

    /// The index of the binding of `name`, searching the most recent first.
    fn find_placeholder(&self, name: &str) -> (r: Option<usize>)
        ensures
            match r {
                Some(idx) => idx < self.placeholders@.len() && lookup_placeholder(
                    bindings_view(self.placeholders@),
                    name@,
                ) == Some(component_view(self.placeholders@[idx as int].1)),
                None => lookup_placeholder(bindings_view(self.placeholders@), name@) is None,
            },
    {
        let ghost m = bindings_view(self.placeholders@);
        let mut i: usize = self.placeholders.len();
        proof {
            assert(m.subrange(0, i as int) =~= m);
        }
        while i > 0
            invariant
                i <= self.placeholders@.len(),
                m == bindings_view(self.placeholders@),
                lookup_placeholder(m, name@) == lookup_placeholder(
                    m.subrange(0, i as int),
                    name@,
                ),
            decreases i,
        {
            i = i - 1;
            if str_eq(self.placeholders[i].0.as_str(), name) {
                proof {
                    assert(m.subrange(0, (i + 1) as int).last() == m[i as int]);
                }
                return Some(i);
            }
            proof {
                assert(m.subrange(0, (i + 1) as int).last() == m[i as int]);
                assert(m.subrange(0, (i + 1) as int).drop_last() =~= m.subrange(0, i as int));
            }
        }
        proof {
            assert(m.subrange(0, 0) =~= Seq::<(Seq<char>, ComponentV)>::empty());
        }
        None
    }

    /// One parse step: consumes one token and applies it; `Ok(true)` when a
    /// token was consumed, `Ok(false)` at the end of the input, and an error
    /// when the parse fails.
    pub fn advance(&mut self) -> (r: Result<bool, ParseError>)
        ensures
            match r {
                Ok(true) => spec_advance(old(self)@) == StepV::Continue(final(self)@),
                Ok(false) => spec_advance(old(self)@) == StepV::Done && final(self)@ == old(
                    self,
                )@,
                Err(e) => spec_advance(old(self)@) == StepV::Fail(e@),
            },
    {
        broadcast use crate::component::lemma_components_view;

        proof {
            reveal(spec_advance);
        }
        let ghost p0 = self@;
        match self.tokens.next_token() {
            None => Ok(false),
            Some(tk) => match tk {
                MessageToken::PlaceholderTag(name) => {
                    match self.find_placeholder(name.as_str()) {
                        None => Err(ParseError::UndefinedPlaceholder(name)),
                        Some(idx) => {
                            let ph = (&self.placeholders[idx].1).clone();
                            let mut cur = Component::default();
                            core::mem::swap(&mut cur, &mut self.current);
                            let marker = Component::text("").reset(true);
                            proof {
                                reveal_strlit("");
                                assert(""@ =~= Seq::<char>::empty());
                                assert(marker@ =~= reset_marker_v());
                            }
                            self.current = cur.append(ph).append(marker);
                            proof {
                                assert(self@ =~= (ParserV {
                                    pos: self@.pos,
                                    current: self@.current,
                                    ..p0
                                }));
                            }
                            Ok(true)
                        },
                    }
                },
                MessageToken::Contents(text) => {
                    let ghost st = tokens_view(self.stack@);
                    let mut node = Component::text(text.as_str());
                    let mut i: usize = 0;
                    while i < self.stack.len()
                        invariant
                            i <= self.stack@.len(),
                            st == tokens_view(self.stack@),
                            st.len() == self.stack@.len(),
                            node@ == apply_styles(text_component_v(text@), st.subrange(0, i as int)),
                        decreases self.stack@.len() - i,
                    {
                        let ghost prefix = st.subrange(0, i as int);
                        match &self.stack[i] {
                            MessageToken::HexColor(v) => {
                                node = node.color(*v);
                            },
                            MessageToken::NamedColor(c) => {
                                node = node.color(*c);
                            },
                            MessageToken::Formatting((f, b)) => {
                                node = node.formatted(*f, Some(*b));
                            },
                            _ => {},
                        }
                        proof {
                            assert(st.subrange(0, (i + 1) as int).drop_last() =~= prefix);
                            assert(st.subrange(0, (i + 1) as int).last() == st[i as int]);
                        }
                        i = i + 1;
                    }
                    proof {
                        assert(st.subrange(0, st.len() as int) =~= st);
                    }
                    self.stack.clear();
                    let mut cur = Component::default();
                    core::mem::swap(&mut cur, &mut self.current);
                    self.current = cur.append_to_last_child(node);
                    proof {
                        assert(tokens_view(self.stack@) =~= Seq::<TokenV>::empty());
                        assert(self@ =~= (ParserV {
                            pos: self@.pos,
                            stack: Seq::empty(),
                            current: self@.current,
                            ..p0
                        }));
                    }
                    Ok(true)
                },
                MessageToken::Error => Err(ParseError::SyntaxError(self.tokens.last_slice())),
                other => {
                    let ghost ov = other@;
                    self.stack.push(other);
                    proof {
                        assert(tokens_view(self.stack@) =~= p0.stack.push(ov));
                        assert(self@ =~= (ParserV { pos: self@.pos, stack: p0.stack.push(ov), ..p0 }));
                    }
                    Ok(true)
                },
            },
        }
    }

    /// Drains the token stream, stepping until the input ends or the parse
    /// fails, and returns the accumulated tree or the failure.
    #[verifier::rlimit(50)]
    #[verifier::loop_isolation(false)]
    pub fn parse(self) -> (r: Result<Component, ParseError>)
        ensures
            match r {
                Ok(c) => spec_run(self@) == Ok::<ComponentV, ParseErrorV>(c@),
                Err(e) => spec_run(self@) == Err::<ComponentV, ParseErrorV>(e@),
            },
    {
        let ghost orig = self@;
        let mut p = self;
        loop
            invariant
                spec_run(orig) == spec_run(p@),
            decreases p@.input.len() - p@.pos,
        {
            let ghost pv = p@;
            match p.advance() {
                Ok(true) => {
                    proof {
                        lemma_advance_continue(pv);
                        assert(spec_advance(pv) == StepV::Continue(p@));
                        assert(spec_run(pv) == spec_run(p@));
                    }
                },
                Ok(false) => {
                    proof {
                        assert(spec_run(pv) == Ok::<ComponentV, ParseErrorV>(pv.current));
                    }
                    return Ok(p.finish());
                },
                Err(e) => {
                    proof {
                        assert(spec_run(pv) == Err::<ComponentV, ParseErrorV>(e@));
                    }
                    return Err(e);
                },
            }
        }
    }

    /// The tree accumulated so far.
    pub fn finish(self) -> (r: Component)
        ensures
            r@ == self@.current,
    {
        self.current
    }
}

/// Classifies the inside of a bracketed tag into its token.
fn classify_tag(inner: &String) -> (t: MessageToken)
    ensures
        t@ == spec_classify_tag(inner@),
{
    let istr = inner.as_str();
    let n = istr.unicode_len();
    if n >= 1 && istr.get_char(0) == '#' {
        // hex color: one or more hex digits whose value fits in 32 bits
        let mut k: usize = 1;
        let mut v: u64 = 0;
        let mut overflow = false;
        let mut bad_digit = false;
        let ghost digits = inner@.subrange(1, inner@.len() as int);
        while k < n
            invariant
                1 <= k <= n,
                n == inner@.len(),
                istr@ == inner@,
                digits == inner@.subrange(1, inner@.len() as int),
                bad_digit <==> exists|m: int|
                    0 <= m < k - 1 && !is_hex_digit(#[trigger] digits[m]),
                !bad_digit && !overflow ==> v == hex_seq_val(digits.subrange(0, k - 1)),
                !bad_digit && overflow ==> hex_seq_val(digits.subrange(0, k - 1)) > 0xFFFFFFFF,
                v <= 0xFFFFFFFF,
            decreases n - k,
        {
            let c = istr.get_char(k);
            proof {
                assert(digits[k - 1] == inner@[k as int]);
            }
            if !crate::text::is_hex_digit_exec(c) {
                bad_digit = true;
            } else if !bad_digit {
                let d = crate::text::hex_val_exec(c) as u64;
                proof {
                    assert(digits.subrange(0, k as int).drop_last() =~= digits.subrange(
                        0,
                        k - 1,
                    ));
                    assert(digits.subrange(0, k as int).last() == digits[k - 1]);
                }
                if overflow {
                    proof {
                        assert(hex_seq_val(digits.subrange(0, k as int)) > 0xFFFFFFFF);
                    }
                } else {
                    let nv = v * 16 + d;
                    if nv > 0xFFFFFFFF {
                        overflow = true;
                    } else {
                        v = nv;
                    }
                }
            } else {
                proof {
                    let m = choose|m: int| 0 <= m < k - 1 && !is_hex_digit(#[trigger] digits[m]);
                    assert(0 <= m < k && !is_hex_digit(digits[m]));
                }
            }
            k = k + 1;
        }
        proof {
            assert(digits.subrange(0, n - 1) =~= digits);
        }
        if n == 1 || bad_digit || overflow {
            MessageToken::Error
        } else {
            MessageToken::HexColor(v as u32)
        }
    } else if let Some(c) = NamedColor::from_str(istr) {
        MessageToken::NamedColor(c)
    } else if let Some(f) = Formatting::from_str(istr) {
        MessageToken::Formatting((f, true))
    } else if n >= 1 && istr.get_char(0) == '/' {
        let rest = istr.substring_char(1, n);
        match Formatting::from_str(rest) {
            Some(f) => MessageToken::Formatting((f, false)),
            None => MessageToken::Error,
        }
    } else {
        // placeholder: nonempty, and every character admissible
        let mut k: usize = 0;
        let mut ok = n >= 1;
        while k < n
            invariant
                0 <= k <= n,
                n == inner@.len(),
                istr@ == inner@,
                ok <==> (n >= 1 && forall|m: int|
                    0 <= m < k ==> is_placeholder_char(#[trigger] inner@[m])),
            decreases n - k,
        {
            if !is_placeholder_char_exec(istr.get_char(k)) {
                ok = false;
            }
            k = k + 1;
        }
        if ok {
            MessageToken::PlaceholderTag(inner.clone())
        } else {
            MessageToken::Error
        }
    }
}

} // verus!

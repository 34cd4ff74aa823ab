//! The markup entry points: parsing a tag-annotated string into a component
//! tree, with or without placeholder bindings.

pub mod tokens;

use vstd::prelude::*;
use crate::component::{component_view, empty_component_v, Component, ComponentV};
use crate::message::tokens::{
    bindings_view, spec_run, ParseError, ParseErrorV, Parser, ParserV, Tokenizer,
};

verus! {

/// The result of parsing markup `s` under the given bindings: the tag-stack
/// parser run from the start of the input with an empty pending queue and an
/// empty accumulator.
pub open spec fn spec_parse_markup(
    s: Seq<char>,
    bindings: Seq<(Seq<char>, ComponentV)>,
) -> Result<ComponentV, ParseErrorV> {
    spec_run(
        ParserV {
            input: s,
            pos: 0,
            stack: Seq::empty(),
            placeholders: bindings,
            current: empty_component_v(),
        },
    )
}

/// Constructs a component from the provided markup string; fails on a lexical
/// error or an unresolved placeholder tag.
pub fn lobster(msg: &str) -> (r: Result<Component, ParseError>)
    ensures
        match r {
            Ok(c) => spec_parse_markup(msg@, Seq::empty()) == Ok::<ComponentV, ParseErrorV>(c@),
            Err(e) => spec_parse_markup(msg@, Seq::empty()) == Err::<ComponentV, ParseErrorV>(e@),
        },
{
    let lexer = Tokenizer::new(msg);
    let parser = Parser::new(lexer);
    parser.parse()
}

/// Constructs a component from the provided markup string, first registering
/// each binding in order; fails on a lexical error or an unresolved
/// placeholder tag.
pub fn placeholder_lobster(msg: &str, placeholders: Vec<(String, Component)>) -> (r: Result<
    Component,
    ParseError,
>)
    ensures
        match r {
            Ok(c) => spec_parse_markup(msg@, bindings_view(placeholders@)) == Ok::<
                ComponentV,
                ParseErrorV,
            >(c@),
            Err(e) => spec_parse_markup(msg@, bindings_view(placeholders@)) == Err::<
                ComponentV,
                ParseErrorV,
            >(e@),
        },
{
    let lexer = Tokenizer::new(msg);
    let mut parser = Parser::new(lexer);
    let ghost init = parser@;
    let mut i: usize = 0;
    while i < placeholders.len()
        invariant
            i <= placeholders@.len(),
            parser@ == (ParserV {
                placeholders: bindings_view(placeholders@.subrange(0, i as int)),
                ..init
            }),
        decreases placeholders@.len() - i,
    {
        let pair = &placeholders[i];
        let comp = (&pair.1).clone();
        parser.placeholder(pair.0.as_str(), comp);
        proof {
            assert(bindings_view(placeholders@.subrange(0, (i + 1) as int)) =~= bindings_view(
                placeholders@.subrange(0, i as int),
            ).push((placeholders@[i as int].0@, component_view(placeholders@[i as int].1))));
        }
        i = i + 1;
    }
    proof {
        assert(placeholders@.subrange(0, placeholders@.len() as int) =~= placeholders@);
        assert(bindings_view(placeholders@.subrange(0, placeholders@.len() as int))
            =~= bindings_view(placeholders@));
    }
    parser.parse()
}

} // verus!

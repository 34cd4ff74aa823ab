use lobsterchat::component::{
    AsComponent, ClickEvent, Colored, Component, HoverEvent, NamedColor, TextColor,
};
use lobsterchat::message::tokens::{MessageToken, ParseError, Parser, Tokenizer};
use lobsterchat::{lobster, placeholder_lobster};

#[test]
fn test_components() {
    let cmp = Component::text("Text component")
        .insert_text("Some text")
        .hover_event(HoverEvent::ShowText {
            contents: Box::new("Some text".as_component()),
        })
        .click_event(ClickEvent::open_url("https://github.com/Maxuss/lobster"));
    println!("{}", cmp.to_json());
}

#[test]
fn test_lexer() {
    let mut lexer = Tokenizer::new("<#AABBCC>Hex text<reset>Stop hex text");
    while let Some(tk) = lexer.next_token() {
        println!("{:?}", tk)
    }
}

#[test]
fn test_parser() {
    let lexer = Tokenizer::new("<red>Red text");
    let mut parser = Parser::new(lexer);
    while let Ok(true) = parser.advance() {
        // no-op
    }
    let out = parser.finish();
    println!("{}", out.to_json());
}

#[test]
fn test_placeholders() {
    let parsed = placeholder_lobster(
        "Before placeholder, <replace_me> Stuff after placeholder. <another>",
        vec![
            (
                "replace_me".to_owned(),
                lobster("<aqua>This is a <dark_aqua>placeholder!<reset>").unwrap(),
            ),
            (
                "another".to_owned(),
                lobster("<gold><bold>Another placeholder!").unwrap(),
            ),
        ],
    );
    println!("{}", parsed.unwrap().to_json());
}

#[test]
fn test_flattening() {
    let message = lobster("<red>Some message<blue> Even more message <green>Green message ")
        .unwrap()
        .append(Component::translate("some.message.translate", None));
    println!("{}", message.flatten());
}

#[test]
fn hex_tag_colors_next_text_run() {
    let doc = lobster("<#AABBCC>x").unwrap();
    let children = doc.extra.as_ref().unwrap();
    assert_eq!(children.len(), 1);
    let node = &children[0];
    assert_eq!(node.color, Some(TextColor::Hex("#AABBCC".to_owned())));
    assert_eq!(node.get_text_content(), Some("x".to_owned()));
}

#[test]
fn named_color_and_formatting_accumulate() {
    let doc = lobster("<red><bold>Hi").unwrap();
    let children = doc.extra.as_ref().unwrap();
    assert_eq!(children.len(), 1);
    let node = &children[0];
    assert_eq!(node.color, Some(TextColor::Named(NamedColor::Red)));
    assert_eq!(node.bold, Some(true));
    assert_eq!(node.get_text_content(), Some("Hi".to_owned()));
}

#[test]
fn formatting_toggles_off() {
    let doc = lobster("<bold>A</bold>B").unwrap();
    let a = &doc.extra.as_ref().unwrap()[0];
    assert_eq!(a.get_text_content(), Some("A".to_owned()));
    assert!(a.get_bold());
    // the second run extends the rightmost spine below the first
    let b = &a.extra.as_ref().unwrap()[0];
    assert_eq!(b.get_text_content(), Some("B".to_owned()));
    assert!(!b.get_bold());
}

#[test]
fn undefined_placeholder_fails() {
    let err = lobster("<unknown_tag>").unwrap_err();
    assert_eq!(
        err,
        ParseError::UndefinedPlaceholder("unknown_tag".to_owned())
    );
}

#[test]
fn placeholder_substitutes_with_reset_boundary() {
    let binding = Component::text("X").bold(true);
    let doc = placeholder_lobster("A<x>B", vec![("x".to_owned(), binding)]).unwrap();
    assert_eq!(doc.flatten(), "AXB");
    // the run after the placeholder carries no bold flag
    let children = doc.extra.as_ref().unwrap();
    assert_eq!(children.len(), 3);
    assert_eq!(children[1].get_text_content(), Some("X".to_owned()));
    assert_eq!(children[1].bold, Some(true));
    let marker = &children[2];
    assert_eq!(marker.reset, Some(true));
    let b = &marker.extra.as_ref().unwrap()[0];
    assert_eq!(b.get_text_content(), Some("B".to_owned()));
    assert_eq!(b.bold, None);
}

#[test]
fn unknown_named_color_is_a_placeholder() {
    // without a binding the tag fails as a placeholder, never a color
    let err = lobster("<notacolor>").unwrap_err();
    assert_eq!(err, ParseError::UndefinedPlaceholder("notacolor".to_owned()));
    // with a binding it substitutes
    let doc = placeholder_lobster(
        "<notacolor>",
        vec![("notacolor".to_owned(), Component::text("ok"))],
    )
    .unwrap();
    assert_eq!(doc.flatten(), "ok");
}

#[test]
fn empty_input_yields_default_node() {
    let doc = lobster("").unwrap();
    assert_eq!(doc, Component::default());
    assert!(doc.extra.is_none());
    assert_eq!(doc.get_text_content(), Some(String::new()));
}

#[test]
fn lexer_classifies_tags() {
    let mut lexer = Tokenizer::new("<#AABBCC><red></bold><my_tag>text<>");
    assert_eq!(lexer.next_token(), Some(MessageToken::HexColor(0xAABBCC)));
    assert_eq!(
        lexer.next_token(),
        Some(MessageToken::NamedColor(NamedColor::Red))
    );
    assert_eq!(
        lexer.next_token(),
        Some(MessageToken::Formatting((
            lobsterchat::component::Formatting::Bold,
            false
        )))
    );
    assert_eq!(
        lexer.next_token(),
        Some(MessageToken::PlaceholderTag("my_tag".to_owned()))
    );
    assert_eq!(
        lexer.next_token(),
        Some(MessageToken::Contents("text".to_owned()))
    );
    assert_eq!(lexer.next_token(), Some(MessageToken::Error));
    assert_eq!(lexer.next_token(), None);
}

#[test]
fn syntax_error_halts_parse() {
    let err = lobster("abc>def").unwrap_err();
    assert_eq!(err, ParseError::SyntaxError(">".to_owned()));
}

#[test]
fn second_color_overrides_first() {
    let doc = lobster("<red><blue>t").unwrap();
    let node = &doc.extra.as_ref().unwrap()[0];
    assert_eq!(node.color, Some(TextColor::Named(NamedColor::Blue)));
}

#[test]
fn hex_color_setter_masks_to_24_bits() {
    let c = Component::text("x").color(0xFFAAFFu32);
    assert_eq!(c.color, Some(TextColor::Hex("#FFAAFF".to_owned())));
    let d = Component::text("x").color(0x11AABBCCu32);
    assert_eq!(d.color, Some(TextColor::Hex("#AABBCC".to_owned())));
}

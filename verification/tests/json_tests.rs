use lobsterchat::codec::DecodeError;
use lobsterchat::component::{
    ClickEvent, Colored, Component, DisplayEntityData, DisplayItemData, HoverEvent, NamedColor,
};
use lobsterchat::lobster;

#[test]
fn text_component_round_trips() {
    let c = Component::text("hello \"world\"\n")
        .color(NamedColor::Gold)
        .bold(true)
        .insert_text("ins")
        .click_event(ClickEvent::change_page(5));
    let json = c.to_json();
    let back = Component::from_json(json.as_str()).unwrap();
    assert_eq!(back, c);
}

#[test]
fn nested_component_round_trips() {
    let c = Component::text("root")
        .append(Component::keybind("key.sprint").italic(false))
        .append(
            Component::translate(
                "my.key",
                Some(vec![Component::text("arg1"), Component::text("arg2")]),
            )
            .underlined(true),
        )
        .append(Component::score("player", "objective", Some("12")));
    let json = c.to_json();
    let back = Component::from_json(json.as_str()).unwrap();
    assert_eq!(back, c);
}

#[test]
fn hover_events_round_trip() {
    let show_text = Component::text("a").hover_event(HoverEvent::ShowText {
        contents: Box::new(Component::text("tip").obfuscated(true)),
    });
    let show_item = Component::text("b").hover_event(HoverEvent::ShowItem {
        contents: DisplayItemData {
            id: "minecraft:stone".to_owned(),
            count: Some(-3),
            tag: Some("{display:{}}".to_owned()),
        },
    });
    let show_entity = Component::text("c").hover_event(HoverEvent::ShowEntity {
        contents: Box::new(DisplayEntityData {
            name: Some(Component::text("Zombie")),
            entity_type: "minecraft:zombie".to_owned(),
            id: 0x0123456789abcdef0123456789abcdefu128,
        }),
    });
    for c in [show_text, show_item, show_entity] {
        let json = c.to_json();
        let back = Component::from_json(json.as_str()).unwrap();
        assert_eq!(back, c);
    }
}

#[test]
fn nbt_and_entity_contents_round_trip() {
    let e = Component::entity("@e[type=zombie]", Some(Component::text(", ")));
    let n1 = Component::entity_nbt("Items[0]", "@s", Some(true), None::<Component>);
    let n2 = Component::storage_nbt("a.b", "ns:store", None, Some(Component::text(";")));
    for c in [e, n1, n2] {
        let json = c.to_json();
        let back = Component::from_json(json.as_str()).unwrap();
        assert_eq!(back, c);
    }
}

#[test]
fn decoding_accepts_any_member_order() {
    let doc = Component::from_json(r#"{"text":"hi","bold":true,"color":"red"}"#).unwrap();
    let same = Component::from_json(r#"{"color":"red","bold":true,"text":"hi"}"#).unwrap();
    assert_eq!(doc, same);
    assert_eq!(doc.get_text_content(), Some("hi".to_owned()));
    assert!(doc.get_bold());
}

#[test]
fn wire_text_is_valid_json_with_exact_fields() {
    let c = Component::text("hi")
        .color(0xAABBCCu32)
        .bold(true)
        .click_event(ClickEvent::open_url("https://example.invalid"));
    let json = c.to_json();
    let v: serde_json::Value = serde_json::from_str(json.as_str()).unwrap();
    assert_eq!(v["text"], serde_json::Value::String("hi".to_owned()));
    assert_eq!(v["bold"], serde_json::Value::Bool(true));
    assert_eq!(v["color"], serde_json::Value::String("#AABBCC".to_owned()));
    assert_eq!(
        v["clickEvent"]["action"],
        serde_json::Value::String("open_url".to_owned())
    );
    assert_eq!(
        v["clickEvent"]["value"],
        serde_json::Value::String("https://example.invalid".to_owned())
    );
    // absent fields never serialize
    assert!(v.get("italic").is_none());
    assert!(v.get("extra").is_none());
}

#[test]
fn uuid_text_matches_the_uuid_crate() {
    let id: u128 = 0x0123456789abcdef0123456789abcdefu128;
    let c = Component::text("c").hover_event(HoverEvent::ShowEntity {
        contents: Box::new(DisplayEntityData {
            name: None,
            entity_type: "minecraft:pig".to_owned(),
            id,
        }),
    });
    let json = c.to_json();
    let v: serde_json::Value = serde_json::from_str(json.as_str()).unwrap();
    let text = v["hoverEvent"]["contents"]["id"].as_str().unwrap();
    let parsed = uuid::Uuid::parse_str(text).unwrap();
    assert_eq!(parsed.as_u128(), id);
    assert_eq!(text, parsed.hyphenated().to_string());
}

#[test]
fn decode_errors_are_reported() {
    assert_eq!(
        Component::from_json("not json"),
        Err(DecodeError::Syntax)
    );
    assert_eq!(
        Component::from_json(r#"{"text":"a","keybind":"b"}"#),
        Err(DecodeError::ContentsMismatch)
    );
    assert_eq!(Component::from_json(r#"{}"#), Err(DecodeError::ContentsMismatch));
    assert_eq!(
        Component::from_json(r#"{"text":"a","color":"notacolor"}"#),
        Err(DecodeError::MalformedColor)
    );
    assert_eq!(
        Component::from_json(r##"{"text":"a","color":"#AABBC"}"##),
        Err(DecodeError::MalformedColor)
    );
    assert_eq!(
        Component::from_json(r#"{"text":"a","bold":1}"#),
        Err(DecodeError::WrongShape)
    );
    assert_eq!(
        Component::from_json(r#"{"text":"a","text":"b"}"#),
        Err(DecodeError::DuplicateField)
    );
    assert_eq!(
        Component::from_json(r#"{"text":"a","unknown":"b"}"#),
        Err(DecodeError::WrongShape)
    );
    assert_eq!(
        Component::from_json(r#"{"text":"a","clickEvent":{"action":"warp","value":"x"}}"#),
        Err(DecodeError::UnknownDiscriminator)
    );
    // NBT contents must name exactly one source
    assert_eq!(
        Component::from_json(r#"{"nbt":"p","block":"b","entity":"e"}"#),
        Err(DecodeError::ContentsMismatch)
    );
}

#[test]
fn parsed_markup_round_trips_through_json() {
    let doc = lobster("<gold><bold>This is some message!</bold> <blue>Some blue text <#AAFFAA>Some hex text!")
        .unwrap();
    let json = doc.to_json();
    let back = Component::from_json(json.as_str()).unwrap();
    assert_eq!(back, doc);
}

#[test]
fn flatten_is_deterministic() {
    let doc = lobster("<red>Some message<blue> Even more message <green>Green message ")
        .unwrap()
        .append(Component::translate("some.message.translate", None));
    let first = doc.flatten();
    let second = doc.flatten();
    assert_eq!(first, second);
    assert_eq!(first, "Some message Even more message Green message some.message.translate");
}

#[test]
fn flatten_uses_placeholder_strings_for_external_payloads() {
    let doc = Component::score("a", "b", None::<&str>)
        .append(Component::entity("@p", None::<Component>))
        .append(Component::entity_nbt("x", "@s", None, None::<Component>));
    assert_eq!(
        doc.flatten(),
        "<scoreboard message><entity message><nbt message>"
    );
}

#[test]
fn change_page_stringifies_its_page() {
    let c = Component::text("x").click_event(ClickEvent::change_page(-42));
    let json = c.to_json();
    let v: serde_json::Value = serde_json::from_str(json.as_str()).unwrap();
    assert_eq!(
        v["clickEvent"]["value"],
        serde_json::Value::String("-42".to_owned())
    );
}

#[test]
fn getters_read_the_fields() {
    let c = Component::text("x");
    assert_eq!(
        c.get_color(),
        lobsterchat::component::TextColor::Named(NamedColor::White)
    );
    let c = c.color(NamedColor::Aqua);
    assert_eq!(
        c.get_color(),
        lobsterchat::component::TextColor::Named(NamedColor::Aqua)
    );
    let c = c.formatted(lobsterchat::component::Formatting::Italic, None);
    assert!(c.get_formatting(lobsterchat::component::Formatting::Italic));
    assert!(!c.get_formatting(lobsterchat::component::Formatting::Bold));
}

//! The chat-component document model: a tree of formatted-text nodes with
//! tri-state formatting flags, colors, a contents union, and click / hover
//! events.

use vstd::prelude::*;
use crate::text::{str_eq, hex6_upper, write_hex6_upper, write_dec_i64, int_rep, is_hex_digit};

verus! {

broadcast use vstd::string::group_string_axioms;

/// One of the sixteen fixed named text colors.
#[derive(Debug, Clone, Copy, PartialEq, Eq, Hash, Structural)]
pub enum NamedColor {
    DarkRed,
    Red,
    Gold,
    Yellow,
    DarkGreen,
    Green,
    Aqua,
    DarkAqua,
    DarkBlue,
    Blue,
    LightPurple,
    DarkPurple,
    White,
    Gray,
    DarkGray,
    Black,
}

/// The lower-snake-case wire name of a named color.
pub open spec fn named_color_name(c: NamedColor) -> Seq<char> {
    match c {
        NamedColor::DarkRed => "dark_red"@,
        NamedColor::Red => "red"@,
        NamedColor::Gold => "gold"@,
        NamedColor::Yellow => "yellow"@,
        NamedColor::DarkGreen => "dark_green"@,
        NamedColor::Green => "green"@,
        NamedColor::Aqua => "aqua"@,
        NamedColor::DarkAqua => "dark_aqua"@,
        NamedColor::DarkBlue => "dark_blue"@,
        NamedColor::Blue => "blue"@,
        NamedColor::LightPurple => "light_purple"@,
        NamedColor::DarkPurple => "dark_purple"@,
        NamedColor::White => "white"@,
        NamedColor::Gray => "gray"@,
        NamedColor::DarkGray => "dark_gray"@,
        NamedColor::Black => "black"@,
    }
}

/// The named color whose wire name is `s`, if any.
pub open spec fn named_color_of_name(s: Seq<char>) -> Option<NamedColor> {
    if s == "dark_red"@ { Some(NamedColor::DarkRed) }
    else if s == "red"@ { Some(NamedColor::Red) }
    else if s == "gold"@ { Some(NamedColor::Gold) }
    else if s == "yellow"@ { Some(NamedColor::Yellow) }
    else if s == "dark_green"@ { Some(NamedColor::DarkGreen) }
    else if s == "green"@ { Some(NamedColor::Green) }
    else if s == "aqua"@ { Some(NamedColor::Aqua) }
    else if s == "dark_aqua"@ { Some(NamedColor::DarkAqua) }
    else if s == "dark_blue"@ { Some(NamedColor::DarkBlue) }
    else if s == "blue"@ { Some(NamedColor::Blue) }
    else if s == "light_purple"@ { Some(NamedColor::LightPurple) }
    else if s == "dark_purple"@ { Some(NamedColor::DarkPurple) }
    else if s == "white"@ { Some(NamedColor::White) }
    else if s == "gray"@ { Some(NamedColor::Gray) }
    else if s == "dark_gray"@ { Some(NamedColor::DarkGray) }
    else if s == "black"@ { Some(NamedColor::Black) }
    else { None }
}

impl NamedColor {
    /// The lower-snake-case wire name of this color.
    pub fn name(&self) -> (r: &'static str)
        ensures
            r@ == named_color_name(*self),
    {
        match self {
            NamedColor::DarkRed => "dark_red",
            NamedColor::Red => "red",
            NamedColor::Gold => "gold",
            NamedColor::Yellow => "yellow",
            NamedColor::DarkGreen => "dark_green",
            NamedColor::Green => "green",
            NamedColor::Aqua => "aqua",
            NamedColor::DarkAqua => "dark_aqua",
            NamedColor::DarkBlue => "dark_blue",
            NamedColor::Blue => "blue",
            NamedColor::LightPurple => "light_purple",
            NamedColor::DarkPurple => "dark_purple",
            NamedColor::White => "white",
            NamedColor::Gray => "gray",
            NamedColor::DarkGray => "dark_gray",
            NamedColor::Black => "black",
        }
    }

    /// Parses a wire name back into a named color; unknown names are rejected,
    /// never defaulted.
    pub fn from_str(s: &str) -> (r: Option<NamedColor>)
        ensures
            r == named_color_of_name(s@),
    {
        if str_eq(s, "dark_red") { Some(NamedColor::DarkRed) }
        else if str_eq(s, "red") { Some(NamedColor::Red) }
        else if str_eq(s, "gold") { Some(NamedColor::Gold) }
        else if str_eq(s, "yellow") { Some(NamedColor::Yellow) }
        else if str_eq(s, "dark_green") { Some(NamedColor::DarkGreen) }
        else if str_eq(s, "green") { Some(NamedColor::Green) }
        else if str_eq(s, "aqua") { Some(NamedColor::Aqua) }
        else if str_eq(s, "dark_aqua") { Some(NamedColor::DarkAqua) }
        else if str_eq(s, "dark_blue") { Some(NamedColor::DarkBlue) }
        else if str_eq(s, "blue") { Some(NamedColor::Blue) }
        else if str_eq(s, "light_purple") { Some(NamedColor::LightPurple) }
        else if str_eq(s, "dark_purple") { Some(NamedColor::DarkPurple) }
        else if str_eq(s, "white") { Some(NamedColor::White) }
        else if str_eq(s, "gray") { Some(NamedColor::Gray) }
        else if str_eq(s, "dark_gray") { Some(NamedColor::DarkGray) }
        else if str_eq(s, "black") { Some(NamedColor::Black) }
        else { None }
    }
}

/// Every named color parses back from its own wire name.
pub proof fn lemma_named_color_name_roundtrip(c: NamedColor)
    ensures
        named_color_of_name(named_color_name(c)) == Some(c),
{
    reveal_strlit("dark_red");
    reveal_strlit("red");
    reveal_strlit("gold");
    reveal_strlit("yellow");
    reveal_strlit("dark_green");
    reveal_strlit("green");
    reveal_strlit("aqua");
    reveal_strlit("dark_aqua");
    reveal_strlit("dark_blue");
    reveal_strlit("blue");
    reveal_strlit("light_purple");
    reveal_strlit("dark_purple");
    reveal_strlit("white");
    reveal_strlit("gray");
    reveal_strlit("dark_gray");
    reveal_strlit("black");
    assert("dark_red"@.len() == 8);
    assert("red"@.len() == 3);
    assert("gold"@.len() == 4);
    assert("yellow"@.len() == 6);
    assert("dark_green"@.len() == 10);
    assert("green"@.len() == 5);
    assert("aqua"@.len() == 4);
    assert("dark_aqua"@.len() == 9);
    assert("dark_blue"@.len() == 9);
    assert("blue"@.len() == 4);
    assert("light_purple"@.len() == 12);
    assert("dark_purple"@.len() == 11);
    assert("white"@.len() == 5);
    assert("gray"@.len() == 4);
    assert("dark_gray"@.len() == 9);
    assert("black"@.len() == 5);
    assert("aqua"@[0] != "gold"@[0]);
    assert("blue"@[0] != "gold"@[0]);
    assert("blue"@[0] != "aqua"@[0]);
    assert("gray"@[1] != "gold"@[1]);
    assert("gray"@[0] != "aqua"@[0]);
    assert("gray"@[0] != "blue"@[0]);
    assert("white"@[0] != "green"@[0]);
    assert("black"@[0] != "green"@[0]);
    assert("black"@[0] != "white"@[0]);
    assert("dark_blue"@[5] != "dark_aqua"@[5]);
    assert("dark_gray"@[5] != "dark_aqua"@[5]);
    assert("dark_gray"@[5] != "dark_blue"@[5]);
    match c {
        NamedColor::DarkRed => assert(named_color_of_name("dark_red"@) == Some(NamedColor::DarkRed)),
        NamedColor::Red => assert(named_color_of_name("red"@) == Some(NamedColor::Red)),
        NamedColor::Gold => assert(named_color_of_name("gold"@) == Some(NamedColor::Gold)),
        NamedColor::Yellow => assert(named_color_of_name("yellow"@) == Some(NamedColor::Yellow)),
        NamedColor::DarkGreen => assert(named_color_of_name("dark_green"@) == Some(NamedColor::DarkGreen)),
        NamedColor::Green => assert(named_color_of_name("green"@) == Some(NamedColor::Green)),
        NamedColor::Aqua => assert(named_color_of_name("aqua"@) == Some(NamedColor::Aqua)),
        NamedColor::DarkAqua => assert(named_color_of_name("dark_aqua"@) == Some(NamedColor::DarkAqua)),
        NamedColor::DarkBlue => assert(named_color_of_name("dark_blue"@) == Some(NamedColor::DarkBlue)),
        NamedColor::Blue => assert(named_color_of_name("blue"@) == Some(NamedColor::Blue)),
        NamedColor::LightPurple => assert(named_color_of_name("light_purple"@) == Some(NamedColor::LightPurple)),
        NamedColor::DarkPurple => assert(named_color_of_name("dark_purple"@) == Some(NamedColor::DarkPurple)),
        NamedColor::White => assert(named_color_of_name("white"@) == Some(NamedColor::White)),
        NamedColor::Gray => assert(named_color_of_name("gray"@) == Some(NamedColor::Gray)),
        NamedColor::DarkGray => assert(named_color_of_name("dark_gray"@) == Some(NamedColor::DarkGray)),
        NamedColor::Black => assert(named_color_of_name("black"@) == Some(NamedColor::Black)),
    }
}

/// A kind of text formatting that a component can toggle.
#[derive(Debug, Clone, Copy, PartialEq, Eq, Structural)]
pub enum Formatting {
    /// Renders the component obfuscated.
    Obfuscated,
    /// Renders the component in bold.
    Bold,
    /// Renders the component struck through.
    Strikethrough,
    /// Renders the component underlined.
    Underline,
    /// Renders the component in italics.
    Italic,
    /// Resets the inherited formatting.
    Reset,
}

/// The formatting kind whose markup tag name is `s`, if any.
pub open spec fn formatting_of_name(s: Seq<char>) -> Option<Formatting> {
    if s == "obfuscated"@ { Some(Formatting::Obfuscated) }
    else if s == "bold"@ { Some(Formatting::Bold) }
    else if s == "strikethrough"@ { Some(Formatting::Strikethrough) }
    else if s == "underline"@ { Some(Formatting::Underline) }
    else if s == "italic"@ { Some(Formatting::Italic) }
    else if s == "reset"@ { Some(Formatting::Reset) }
    else { None }
}

impl Formatting {
    /// Parses a markup tag name back into a formatting kind.
    pub fn from_str(s: &str) -> (r: Option<Formatting>)
        ensures
            r == formatting_of_name(s@),
    {
        if str_eq(s, "obfuscated") { Some(Formatting::Obfuscated) }
        else if str_eq(s, "bold") { Some(Formatting::Bold) }
        else if str_eq(s, "strikethrough") { Some(Formatting::Strikethrough) }
        else if str_eq(s, "underline") { Some(Formatting::Underline) }
        else if str_eq(s, "italic") { Some(Formatting::Italic) }
        else if str_eq(s, "reset") { Some(Formatting::Reset) }
        else { None }
    }
}

/// A text color: one of the sixteen named colors, or a hex string of the
/// exact form `#RRGGBB`.
#[derive(Debug, PartialEq)]
pub enum TextColor {
    /// A named color.
    Named(NamedColor),
    /// A hex string color, `'#'` followed by exactly six hex digits.
    Hex(String),
}

/// The mathematical value of a text color.
pub enum ColorV {
    /// A named color.
    Named(NamedColor),
    /// A hex color string, including its `'#'` prefix.
    Hex(Seq<char>),
}

impl View for TextColor {
    type V = ColorV;

    open spec fn view(&self) -> ColorV {
        match self {
            TextColor::Named(c) => ColorV::Named(*c),
            TextColor::Hex(s) => ColorV::Hex(s@),
        }
    }
}

/// Whether `s` is a well-formed hex color string: `'#'` then exactly six
/// hexadecimal digits.
pub open spec fn valid_hex_color(s: Seq<char>) -> bool {
    &&& s.len() == 7
    &&& s[0] == '#'
    &&& forall|i: int| 1 <= i < 7 ==> is_hex_digit(#[trigger] s[i])
}

/// The wire string of a color: the snake-case name, or the hex string.
pub open spec fn color_string(c: ColorV) -> Seq<char> {
    match c {
        ColorV::Named(n) => named_color_name(n),
        ColorV::Hex(s) => s,
    }
}

/// A well-formed color: named, or a valid hex string.
pub open spec fn wf_color(c: ColorV) -> bool {
    match c {
        ColorV::Named(_) => true,
        ColorV::Hex(s) => valid_hex_color(s),
    }
}

/// The hex color string for the low 24 bits of `v`: `'#'` then six uppercase
/// hex digits.
pub open spec fn hex_color_string(v: u32) -> Seq<char> {
    seq!['#'] + hex6_upper((v as nat) % 0x1000000)
}

/// Builds the hex color string for the low 24 bits of `v`.
pub fn hex_color_of(v: u32) -> (r: String)
    ensures
        r@ == hex_color_string(v),
{
    let mut s = String::new();
    crate::text::push_char(&mut s, '#');
    write_hex6_upper(v, &mut s);
    proof {
        assert(s@ =~= hex_color_string(v));
    }
    s
}

/// An action run when a component is clicked, with its string payload.
#[derive(Debug, PartialEq)]
pub enum ClickEvent {
    /// Opens the payload as a URL.
    OpenUrl(String),
    /// Runs the payload as a command.
    RunCommand(String),
    /// Suggests the payload in the chat box.
    SuggestCommand(String),
    /// Changes the open book's page to the payload, a stringified integer.
    ChangePage(String),
    /// Copies the payload to the clipboard.
    CopyToClipboard(String),
}

/// The mathematical value of a click event.
pub enum ClickV {
    /// Opens the payload as a URL.
    OpenUrl(Seq<char>),
    /// Runs the payload as a command.
    RunCommand(Seq<char>),
    /// Suggests the payload in the chat box.
    SuggestCommand(Seq<char>),
    /// Changes the open book's page.
    ChangePage(Seq<char>),
    /// Copies the payload to the clipboard.
    CopyToClipboard(Seq<char>),
}

impl View for ClickEvent {
    type V = ClickV;

    open spec fn view(&self) -> ClickV {
        match self {
            ClickEvent::OpenUrl(s) => ClickV::OpenUrl(s@),
            ClickEvent::RunCommand(s) => ClickV::RunCommand(s@),
            ClickEvent::SuggestCommand(s) => ClickV::SuggestCommand(s@),
            ClickEvent::ChangePage(s) => ClickV::ChangePage(s@),
            ClickEvent::CopyToClipboard(s) => ClickV::CopyToClipboard(s@),
        }
    }
}

impl ClickEvent {
    /// Opens the provided URL on click.
    pub fn open_url(url: &str) -> (r: Self)
        ensures
            r@ == ClickV::OpenUrl(url@),
    {
        ClickEvent::OpenUrl(url.to_owned())
    }

    /// Runs the provided command on click.
    pub fn run_command(cmd: &str) -> (r: Self)
        ensures
            r@ == ClickV::RunCommand(cmd@),
    {
        ClickEvent::RunCommand(cmd.to_owned())
    }

    /// Suggests (puts in the chat box) the provided command on click.
    pub fn suggest_command(cmd: &str) -> (r: Self)
        ensures
            r@ == ClickV::SuggestCommand(cmd@),
    {
        ClickEvent::SuggestCommand(cmd.to_owned())
    }

    /// Changes the current open book's page on click.
    pub fn change_page(page: i32) -> (r: Self)
        ensures
            r@ == ClickV::ChangePage(int_rep(page as int)),
    {
        let mut s = String::new();
        write_dec_i64(page as i64, &mut s);
        ClickEvent::ChangePage(s)
    }

    /// Copies the provided data to the clipboard on click.
    pub fn copy_to_clipboard(msg: &str) -> (r: Self)
        ensures
            r@ == ClickV::CopyToClipboard(msg@),
    {
        ClickEvent::CopyToClipboard(msg.to_owned())
    }
}

/// A container for item data to be displayed by a hover event.
#[derive(Debug, PartialEq)]
pub struct DisplayItemData {
    /// Namespaced ID of this item, in `namespace:identifier` format.
    pub id: String,
    /// Count of items to be displayed.
    pub count: Option<i32>,
    /// Extra opaque data tag with item information.
    pub tag: Option<String>,
}

/// The mathematical value of displayed item data.
#[verifier::ext_equal]
pub struct ItemV {
    /// Namespaced ID of the item.
    pub id: Seq<char>,
    /// Count of items to be displayed.
    pub count: Option<i32>,
    /// Extra opaque data tag.
    pub tag: Option<Seq<char>>,
}

impl View for DisplayItemData {
    type V = ItemV;

    open spec fn view(&self) -> ItemV {
        ItemV {
            id: self.id@,
            count: self.count,
            tag: match self.tag {
                Some(ref t) => Some(t@),
                None => None,
            },
        }
    }
}

/// A container for entity data to be displayed by a hover event.
#[derive(Debug, PartialEq)]
pub struct DisplayEntityData {
    /// Optional display name of the entity.
    pub name: Option<Component>,
    /// Namespaced ID of this entity's type, in `namespace:identifier` format.
    pub entity_type: String,
    /// The 128-bit unique identifier of this entity.
    pub id: u128,
}

/// The mathematical value of displayed entity data.
#[verifier::ext_equal]
pub struct EntityDataV {
    /// Optional display name of the entity.
    pub name: Option<Box<ComponentV>>,
    /// Namespaced ID of the entity's type.
    pub entity_type: Seq<char>,
    /// The 128-bit unique identifier.
    pub id: u128,
}

/// An action taken when the pointer hovers over a component.
#[derive(Debug, PartialEq)]
pub enum HoverEvent {
    /// Shows text on hover.
    ShowText {
        /// The component to be displayed.
        contents: Box<Component>,
    },
    /// Displays an item's tooltip.
    ShowItem {
        /// Item data to be displayed.
        contents: DisplayItemData,
    },
    /// Displays entity data.
    ShowEntity {
        /// The entity to be displayed.
        contents: Box<DisplayEntityData>,
    },
}

/// The mathematical value of a hover event.
#[verifier::ext_equal]
pub enum HoverV {
    /// Shows text on hover.
    ShowText(Box<ComponentV>),
    /// Displays an item's tooltip.
    ShowItem(ItemV),
    /// Displays entity data.
    ShowEntity(EntityDataV),
}

/// NBT-lookup based message contents.
#[derive(Debug, PartialEq)]
pub struct NbtMessage {
    /// The NBT path to look up.
    pub nbt: String,
    /// Whether the looked-up value is interpreted as a component.
    pub interpret: Option<bool>,
    /// Separator between multiple looked-up values.
    pub separator: Option<Component>,
    /// Block source coordinates, if the source is a block.
    pub block: Option<String>,
    /// Entity selector, if the source is an entity.
    pub entity: Option<String>,
    /// Storage identifier, if the source is command storage.
    pub storage: Option<String>,
}

/// The mathematical value of NBT-lookup contents.
#[verifier::ext_equal]
pub struct NbtV {
    /// The NBT path to look up.
    pub nbt: Seq<char>,
    /// Whether the looked-up value is interpreted as a component.
    pub interpret: Option<bool>,
    /// Separator between multiple looked-up values.
    pub separator: Option<Box<ComponentV>>,
    /// Block source coordinates.
    pub block: Option<Seq<char>>,
    /// Entity selector source.
    pub entity: Option<Seq<char>>,
    /// Command-storage source.
    pub storage: Option<Seq<char>>,
}

/// Keybind based message contents.
#[derive(Debug, PartialEq)]
pub struct KeyMessage {
    /// The identifier of the bound key.
    pub keybind: String,
}

/// The mathematical value of keybind contents.
#[verifier::ext_equal]
pub struct KeyV {
    /// The identifier of the bound key.
    pub keybind: Seq<char>,
}

impl View for KeyMessage {
    type V = KeyV;

    open spec fn view(&self) -> KeyV {
        KeyV { keybind: self.keybind@ }
    }
}

/// Entity-mention based message contents.
#[derive(Debug, PartialEq)]
pub struct EntityMessage {
    /// The entity selector.
    pub selector: String,
    /// Separator between multiple selected entities.
    pub separator: Option<Component>,
}

/// The mathematical value of entity-mention contents.
#[verifier::ext_equal]
pub struct EntityMsgV {
    /// The entity selector.
    pub selector: Seq<char>,
    /// Separator between multiple selected entities.
    pub separator: Option<Box<ComponentV>>,
}

/// Translatable message contents.
#[derive(Debug, PartialEq)]
pub struct TranslatedMessage {
    /// The translation key.
    pub translate: String,
    /// Optional ordered argument components.
    pub with: Option<Vec<Component>>,
}

/// The mathematical value of translatable contents.
#[verifier::ext_equal]
pub struct TranslatedV {
    /// The translation key.
    pub translate: Seq<char>,
    /// Optional ordered argument components.
    pub with: Option<Seq<ComponentV>>,
}

/// Scoreboard message contents.
#[derive(Debug, PartialEq)]
pub struct ScoreboardMessage {
    /// The score holder's name.
    pub name: String,
    /// The objective the score belongs to.
    pub objective: String,
    /// Optional resolved value.
    pub value: Option<String>,
}

/// The mathematical value of scoreboard contents.
#[verifier::ext_equal]
pub struct ScoreV {
    /// The score holder's name.
    pub name: Seq<char>,
    /// The objective the score belongs to.
    pub objective: Seq<char>,
    /// Optional resolved value.
    pub value: Option<Seq<char>>,
}

impl View for ScoreboardMessage {
    type V = ScoreV;

    open spec fn view(&self) -> ScoreV {
        ScoreV {
            name: self.name@,
            objective: self.objective@,
            value: match self.value {
                Some(ref v) => Some(v@),
                None => None,
            },
        }
    }
}

/// The contents union of a component: exactly one payload kind per node.
#[derive(Debug, PartialEq)]
pub enum MessageContents {
    /// Literal text.
    Plain {
        /// Text to be displayed.
        text: String,
    },
    /// Translatable component contents.
    Translate(TranslatedMessage),
    /// Scoreboard component contents.
    Score {
        /// Scoreboard message to be displayed.
        score: ScoreboardMessage,
    },
    /// Entity-mention component contents.
    Entity(Box<EntityMessage>),
    /// Keybind component contents.
    Keybind(KeyMessage),
    /// NBT-lookup component contents.
    Nbt(Box<NbtMessage>),
}

/// The mathematical value of the contents union.
#[verifier::ext_equal]
pub enum ContentsV {
    /// Literal text.
    Plain(Seq<char>),
    /// Translatable contents.
    Translate(TranslatedV),
    /// Scoreboard contents.
    Score(ScoreV),
    /// Entity-mention contents.
    Entity(EntityMsgV),
    /// Keybind contents.
    Keybind(KeyV),
    /// NBT-lookup contents.
    Nbt(NbtV),
}

/// The JSON chat component: a tree node with tri-state formatting flags, an
/// optional color, exactly one contents payload, and optional interaction
/// events. Absent optional fields never appear in the serialized form.
#[derive(Debug, PartialEq)]
pub struct Component {
    /// Ordered child components, in reading order.
    pub extra: Option<Vec<Component>>,
    /// Bold flag: absent (inherit), true, or false.
    pub bold: Option<bool>,
    /// Italic flag: absent (inherit), true, or false.
    pub italic: Option<bool>,
    /// Obfuscated flag: absent (inherit), true, or false.
    pub obfuscated: Option<bool>,
    /// Strikethrough flag: absent (inherit), true, or false.
    pub strikethrough: Option<bool>,
    /// Underlined flag: absent (inherit), true, or false.
    pub underlined: Option<bool>,
    /// Reset flag: absent (inherit), true, or false.
    pub reset: Option<bool>,
    /// Optional text color.
    pub color: Option<TextColor>,
    /// The contents union: exactly one payload kind.
    pub contents: MessageContents,
    /// Text inserted into the chat box when the component is shift-clicked.
    pub insertion: Option<String>,
    /// Optional click handler.
    pub click_event: Option<ClickEvent>,
    /// Optional hover handler.
    pub hover_event: Option<HoverEvent>,
}

/// The mathematical value of a component tree.
#[verifier::ext_equal]
pub struct ComponentV {
    /// Ordered child components.
    pub extra: Option<Seq<ComponentV>>,
    /// Bold flag.
    pub bold: Option<bool>,
    /// Italic flag.
    pub italic: Option<bool>,
    /// Obfuscated flag.
    pub obfuscated: Option<bool>,
    /// Strikethrough flag.
    pub strikethrough: Option<bool>,
    /// Underlined flag.
    pub underlined: Option<bool>,
    /// Reset flag.
    pub reset: Option<bool>,
    /// Optional text color.
    pub color: Option<ColorV>,
    /// The contents union.
    pub contents: ContentsV,
    /// Optional insertion text.
    pub insertion: Option<Seq<char>>,
    /// Optional click handler.
    pub click_event: Option<ClickV>,
    /// Optional hover handler.
    pub hover_event: Option<HoverV>,
}

/// The mathematical value of a component.
pub open spec fn component_view(c: Component) -> ComponentV
    decreases c,
{
    ComponentV {
        extra: match c.extra {
            Some(v) => Some(components_view(v@)),
            None => None,
        },
        bold: c.bold,
        italic: c.italic,
        obfuscated: c.obfuscated,
        strikethrough: c.strikethrough,
        underlined: c.underlined,
        reset: c.reset,
        color: match c.color {
            Some(col) => Some(col@),
            None => None,
        },
        contents: contents_view(c.contents),
        insertion: match c.insertion {
            Some(s) => Some(s@),
            None => None,
        },
        click_event: match c.click_event {
            Some(e) => Some(e@),
            None => None,
        },
        hover_event: match c.hover_event {
            Some(h) => Some(hover_view(h)),
            None => None,
        },
    }
}

/// The mathematical values of a sequence of components, element for element.
pub open spec fn components_view(s: Seq<Component>) -> Seq<ComponentV>
    decreases s,
{
    if s.len() == 0 {
        Seq::empty()
    } else {
        components_view(s.drop_last()).push(component_view(s.last()))
    }
}

/// A sequence of components is viewed element for element.
pub broadcast proof fn lemma_components_view(s: Seq<Component>)
    ensures
        (#[trigger] components_view(s)).len() == s.len(),
        forall|i: int| 0 <= i < s.len() ==> components_view(s)[i] == component_view(s[i]),
    decreases s,
{
    if s.len() > 0 {
        lemma_components_view(s.drop_last());
    }
}

/// Component views distribute over appending one element.
pub proof fn lemma_components_view_push(s: Seq<Component>, c: Component)
    ensures
        components_view(s.push(c)) == components_view(s).push(component_view(c)),
{
    assert(s.push(c).drop_last() =~= s);
    assert(s.push(c).last() == c);
}

/// The mathematical value of a contents union.
pub open spec fn contents_view(m: MessageContents) -> ContentsV
    decreases m,
{
    match m {
        MessageContents::Plain { text } => ContentsV::Plain(text@),
        MessageContents::Translate(t) => ContentsV::Translate(TranslatedV {
            translate: t.translate@,
            with: match t.with {
                Some(v) => Some(components_view(v@)),
                None => None,
            },
        }),
        MessageContents::Score { score } => ContentsV::Score(score@),
        MessageContents::Entity(e) => ContentsV::Entity(EntityMsgV {
            selector: e.selector@,
            separator: match e.separator {
                Some(sep) => Some(Box::new(component_view(sep))),
                None => None,
            },
        }),
        MessageContents::Keybind(k) => ContentsV::Keybind(k@),
        MessageContents::Nbt(n) => ContentsV::Nbt(NbtV {
            nbt: n.nbt@,
            interpret: n.interpret,
            separator: match n.separator {
                Some(sep) => Some(Box::new(component_view(sep))),
                None => None,
            },
            block: match n.block {
                Some(s) => Some(s@),
                None => None,
            },
            entity: match n.entity {
                Some(s) => Some(s@),
                None => None,
            },
            storage: match n.storage {
                Some(s) => Some(s@),
                None => None,
            },
        }),
    }
}

/// The mathematical value of a hover event.
pub open spec fn hover_view(h: HoverEvent) -> HoverV
    decreases h,
{
    match h {
        HoverEvent::ShowText { contents } => HoverV::ShowText(Box::new(component_view(*contents))),
        HoverEvent::ShowItem { contents } => HoverV::ShowItem(contents@),
        HoverEvent::ShowEntity { contents } => HoverV::ShowEntity(EntityDataV {
            name: match contents.name {
                Some(n) => Some(Box::new(component_view(n))),
                None => None,
            },
            entity_type: contents.entity_type@,
            id: contents.id,
        }),
    }
}

impl View for Component {
    type V = ComponentV;

    open spec fn view(&self) -> ComponentV {
        component_view(*self)
    }
}

impl View for MessageContents {
    type V = ContentsV;

    open spec fn view(&self) -> ContentsV {
        contents_view(*self)
    }
}

impl View for HoverEvent {
    type V = HoverV;

    open spec fn view(&self) -> HoverV {
        hover_view(*self)
    }
}

impl View for DisplayEntityData {
    type V = EntityDataV;

    open spec fn view(&self) -> EntityDataV {
        EntityDataV {
            name: match self.name {
                Some(ref n) => Some(Box::new(component_view(*n))),
                None => None,
            },
            entity_type: self.entity_type@,
            id: self.id,
        }
    }
}

/// Well-formedness of a component value: every hex color string has the exact
/// `#RRGGBB` form, and every NBT contents names exactly one source.
pub open spec fn wf_component(c: ComponentV) -> bool
    decreases c,
{
    &&& match c.color {
        Some(col) => wf_color(col),
        None => true,
    }
    &&& wf_contents(c.contents)
    &&& match c.hover_event {
        Some(h) => wf_hover(h),
        None => true,
    }
    &&& match c.extra {
        Some(ch) => forall|i: int| 0 <= i < ch.len() ==> wf_component(#[trigger] ch[i]),
        None => true,
    }
}

/// Well-formedness of contents: nested components are well-formed, and NBT
/// contents name exactly one of block, entity, and storage.
pub open spec fn wf_contents(m: ContentsV) -> bool
    decreases m,
{
    match m {
        ContentsV::Plain(_) => true,
        ContentsV::Translate(t) => match t.with {
            Some(w) => forall|i: int| 0 <= i < w.len() ==> wf_component(#[trigger] w[i]),
            None => true,
        },
        ContentsV::Score(_) => true,
        ContentsV::Entity(e) => match e.separator {
            Some(sep) => wf_component(*sep),
            None => true,
        },
        ContentsV::Keybind(_) => true,
        ContentsV::Nbt(n) => {
            &&& match n.separator {
                Some(sep) => wf_component(*sep),
                None => true,
            }
            &&& (n.block is Some && n.entity is None && n.storage is None
                || n.block is None && n.entity is Some && n.storage is None
                || n.block is None && n.entity is None && n.storage is Some)
        },
    }
}

/// Well-formedness of a hover event: nested components are well-formed.
pub open spec fn wf_hover(h: HoverV) -> bool
    decreases h,
{
    match h {
        HoverV::ShowText(c) => wf_component(*c),
        HoverV::ShowItem(_) => true,
        HoverV::ShowEntity(e) => match e.name {
            Some(n) => wf_component(*n),
            None => true,
        },
    }
}

/// The default component value: no children, no flags, no color, empty plain
/// text, no insertion and no events.
pub open spec fn empty_component_v() -> ComponentV {
    ComponentV {
        extra: None,
        bold: None,
        italic: None,
        obfuscated: None,
        strikethrough: None,
        underlined: None,
        reset: None,
        color: None,
        contents: ContentsV::Plain(Seq::empty()),
        insertion: None,
        click_event: None,
        hover_event: None,
    }
}

/// A default component whose plain text is `s`.
pub open spec fn text_component_v(s: Seq<char>) -> ComponentV {
    ComponentV { contents: ContentsV::Plain(s), ..empty_component_v() }
}

/// Clones a vector of components, preserving every component value.
fn clone_components(v: &Vec<Component>) -> (r: Vec<Component>)
    ensures
        components_view(r@) == components_view(v@),
    decreases v@,
{
    broadcast use lemma_components_view;

    let mut r: Vec<Component> = Vec::new();
    let mut i: usize = 0;
    while i < v.len()
        invariant
            i <= v@.len(),
            r@.len() == i,
            forall|j: int| 0 <= j < i ==> component_view(r@[j]) == component_view(v@[j]),
        decreases v@.len() - i,
    {
        let c = (&v[i]).clone();
        r.push(c);
        i = i + 1;
    }
    proof {
        assert(components_view(r@) =~= components_view(v@));
    }
    r
}

impl Clone for TextColor {
    /// Clones the color, preserving its value.
    fn clone(&self) -> (r: Self)
        ensures
            r@ == self@,
    {
        match self {
            TextColor::Named(c) => TextColor::Named(*c),
            TextColor::Hex(s) => TextColor::Hex(s.clone()),
        }
    }
}

impl Clone for ClickEvent {
    /// Clones the click event, preserving its value.
    fn clone(&self) -> (r: Self)
        ensures
            r@ == self@,
    {
        match self {
            ClickEvent::OpenUrl(s) => ClickEvent::OpenUrl(s.clone()),
            ClickEvent::RunCommand(s) => ClickEvent::RunCommand(s.clone()),
            ClickEvent::SuggestCommand(s) => ClickEvent::SuggestCommand(s.clone()),
            ClickEvent::ChangePage(s) => ClickEvent::ChangePage(s.clone()),
            ClickEvent::CopyToClipboard(s) => ClickEvent::CopyToClipboard(s.clone()),
        }
    }
}

impl Clone for DisplayItemData {
    /// Clones the item data, preserving its value.
    fn clone(&self) -> (r: Self)
        ensures
            r@ == self@,
    {
        DisplayItemData {
            id: self.id.clone(),
            count: self.count,
            tag: match &self.tag {
                Some(t) => Some(t.clone()),
                None => None,
            },
        }
    }
}

impl Clone for DisplayEntityData {
    /// Clones the entity data, preserving its value.
    fn clone(&self) -> (r: Self)
        ensures
            r@ == self@,
        decreases self,
    {
        DisplayEntityData {
            name: match &self.name {
                Some(n) => Some(n.clone()),
                None => None,
            },
            entity_type: self.entity_type.clone(),
            id: self.id,
        }
    }
}

impl Clone for HoverEvent {
    /// Clones the hover event, preserving its value.
    fn clone(&self) -> (r: Self)
        ensures
            r@ == self@,
        decreases self,
    {
        match self {
            HoverEvent::ShowText { contents } => HoverEvent::ShowText {
                contents: Box::new((&**contents).clone()),
            },
            HoverEvent::ShowItem { contents } => HoverEvent::ShowItem {
                contents: contents.clone(),
            },
            HoverEvent::ShowEntity { contents } => HoverEvent::ShowEntity {
                contents: Box::new((&**contents).clone()),
            },
        }
    }
}

impl Clone for KeyMessage {
    /// Clones the keybind contents, preserving their value.
    fn clone(&self) -> (r: Self)
        ensures
            r@ == self@,
    {
        KeyMessage { keybind: self.keybind.clone() }
    }
}

impl Clone for ScoreboardMessage {
    /// Clones the scoreboard contents, preserving their value.
    fn clone(&self) -> (r: Self)
        ensures
            r@ == self@,
    {
        ScoreboardMessage {
            name: self.name.clone(),
            objective: self.objective.clone(),
            value: match &self.value {
                Some(v) => Some(v.clone()),
                None => None,
            },
        }
    }
}

impl Clone for TranslatedMessage {
    /// Clones the translatable contents, preserving their value.
    fn clone(&self) -> (r: Self)
        ensures
            contents_view(MessageContents::Translate(r)) == contents_view(
                MessageContents::Translate(*self),
            ),
        decreases self,
    {
        TranslatedMessage {
            translate: self.translate.clone(),
            with: match &self.with {
                Some(v) => Some(clone_components(v)),
                None => None,
            },
        }
    }
}

impl Clone for EntityMessage {
    /// Clones the entity-mention contents, preserving their value.
    fn clone(&self) -> (r: Self)
        ensures
            contents_view(MessageContents::Entity(Box::new(r))) == contents_view(
                MessageContents::Entity(Box::new(*self)),
            ),
        decreases self,
    {
        EntityMessage {
            selector: self.selector.clone(),
            separator: match &self.separator {
                Some(s) => Some(s.clone()),
                None => None,
            },
        }
    }
}

impl Clone for NbtMessage {
    /// Clones the NBT-lookup contents, preserving their value.
    fn clone(&self) -> (r: Self)
        ensures
            contents_view(MessageContents::Nbt(Box::new(r))) == contents_view(
                MessageContents::Nbt(Box::new(*self)),
            ),
        decreases self,
    {
        NbtMessage {
            nbt: self.nbt.clone(),
            interpret: self.interpret,
            separator: match &self.separator {
                Some(s) => Some(s.clone()),
                None => None,
            },
            block: match &self.block {
                Some(s) => Some(s.clone()),
                None => None,
            },
            entity: match &self.entity {
                Some(s) => Some(s.clone()),
                None => None,
            },
            storage: match &self.storage {
                Some(s) => Some(s.clone()),
                None => None,
            },
        }
    }
}

impl Clone for MessageContents {
    /// Clones the contents union, preserving its value.
    fn clone(&self) -> (r: Self)
        ensures
            r@ == self@,
        decreases self,
    {
        match self {
            MessageContents::Plain { text } => MessageContents::Plain { text: text.clone() },
            MessageContents::Translate(t) => MessageContents::Translate(t.clone()),
            MessageContents::Score { score } => MessageContents::Score { score: score.clone() },
            MessageContents::Entity(e) => MessageContents::Entity(Box::new((&**e).clone())),
            MessageContents::Keybind(k) => MessageContents::Keybind(k.clone()),
            MessageContents::Nbt(n) => MessageContents::Nbt(Box::new((&**n).clone())),
        }
    }
}

impl Clone for Component {
    /// Clones the component tree, preserving its value.
    fn clone(&self) -> (r: Self)
        ensures
            r@ == self@,
        decreases self,
    {
        let r = Component {
            extra: match &self.extra {
                Some(v) => Some(clone_components(v)),
                None => None,
            },
            bold: self.bold,
            italic: self.italic,
            obfuscated: self.obfuscated,
            strikethrough: self.strikethrough,
            underlined: self.underlined,
            reset: self.reset,
            color: match &self.color {
                Some(c) => Some(c.clone()),
                None => None,
            },
            contents: self.contents.clone(),
            insertion: match &self.insertion {
                Some(s) => Some(s.clone()),
                None => None,
            },
            click_event: match &self.click_event {
                Some(e) => Some(e.clone()),
                None => None,
            },
            hover_event: match &self.hover_event {
                Some(h) => Some(h.clone()),
                None => None,
            },
        };
        proof {
            assert(r@ =~= self@);
        }
        r
    }
}

impl Default for Component {
    /// The default component: empty plain text, everything else absent.
    fn default() -> (r: Self)
        ensures
            r@ == empty_component_v(),
    {
        let r = Component {
            extra: None,
            bold: None,
            italic: None,
            obfuscated: None,
            strikethrough: None,
            underlined: None,
            reset: None,
            color: None,
            contents: MessageContents::Plain { text: String::new() },
            insertion: None,
            click_event: None,
            hover_event: None,
        };
        proof {
            assert(r@ =~= empty_component_v());
        }
        r
    }
}

impl Default for MessageContents {
    /// The default contents: empty plain text.
    fn default() -> (r: Self)
        ensures
            r@ == ContentsV::Plain(Seq::empty()),
    {
        MessageContents::Plain { text: String::new() }
    }
}

/// Appending a child: the new node goes at the end of the children list,
/// which is created when absent.
pub open spec fn spec_append(c: ComponentV, n: ComponentV) -> ComponentV {
    match c.extra {
        Some(ch) => ComponentV { extra: Some(ch.push(n)), ..c },
        None => ComponentV { extra: Some(seq![n]), ..c },
    }
}

/// Appending at the deepest rightmost descendant: descends along the chain of
/// last children and attaches the new node as the sole child of the node
/// where the chain ends.
pub open spec fn spec_append_to_last_child(c: ComponentV, n: ComponentV) -> ComponentV
    decreases c,
{
    match c.extra {
        Some(ch) => if ch.len() == 0 {
            ComponentV { extra: Some(seq![n]), ..c }
        } else {
            ComponentV {
                extra: Some(ch.update(ch.len() - 1, spec_append_to_last_child(ch.last(), n))),
                ..c
            }
        },
        None => ComponentV { extra: Some(seq![n]), ..c },
    }
}

/// Setting a formatting flag to a definite value.
pub open spec fn spec_formatted(c: ComponentV, format: Formatting, enable: bool) -> ComponentV {
    match format {
        Formatting::Obfuscated => ComponentV { obfuscated: Some(enable), ..c },
        Formatting::Bold => ComponentV { bold: Some(enable), ..c },
        Formatting::Strikethrough => ComponentV { strikethrough: Some(enable), ..c },
        Formatting::Underline => ComponentV { underlined: Some(enable), ..c },
        Formatting::Italic => ComponentV { italic: Some(enable), ..c },
        Formatting::Reset => ComponentV { reset: Some(enable), ..c },
    }
}

/// Reading a formatting flag; an absent flag reads as false.
pub open spec fn spec_get_formatting(c: ComponentV, format: Formatting) -> bool {
    match format {
        Formatting::Obfuscated => c.obfuscated == Some(true),
        Formatting::Bold => c.bold == Some(true),
        Formatting::Strikethrough => c.strikethrough == Some(true),
        Formatting::Underline => c.underlined == Some(true),
        Formatting::Italic => c.italic == Some(true),
        Formatting::Reset => c.reset == Some(true),
    }
}

/// The plain-text approximation of a contents union: literal text,
/// translation keys and keybind identifiers verbatim; scoreboard, entity and
/// NBT payloads as fixed placeholder strings.
pub open spec fn flat_contents(m: ContentsV) -> Seq<char> {
    match m {
        ContentsV::Plain(t) => t,
        ContentsV::Translate(t) => t.translate,
        ContentsV::Score(_) => "<scoreboard message>"@,
        ContentsV::Entity(_) => "<entity message>"@,
        ContentsV::Keybind(k) => k.keybind,
        ContentsV::Nbt(_) => "<nbt message>"@,
    }
}

/// The plain-text approximation of a component: its own contents, then its
/// children's, depth first, left to right.
pub open spec fn spec_flatten(c: ComponentV) -> Seq<char>
    decreases c,
{
    flat_contents(c.contents) + match c.extra {
        Some(ch) => spec_flatten_seq(ch),
        None => Seq::empty(),
    }
}

/// The concatenated plain-text approximations of a sequence of components.
pub open spec fn spec_flatten_seq(s: Seq<ComponentV>) -> Seq<char>
    decreases s,
{
    if s.len() == 0 {
        Seq::empty()
    } else {
        spec_flatten_seq(s.drop_last()) + spec_flatten(s.last())
    }
}

impl MessageContents {
    /// Flattens this contents union into its best-effort plain text.
    pub fn flatten(&self) -> (r: String)
        ensures
            r@ == flat_contents(self@),
    {
        match self {
            MessageContents::Plain { text } => text.clone(),
            MessageContents::Translate(t) => t.translate.clone(),
            MessageContents::Score { .. } => "<scoreboard message>".to_owned(),
            MessageContents::Entity(_) => "<entity message>".to_owned(),
            MessageContents::Keybind(k) => k.keybind.clone(),
            MessageContents::Nbt(_) => "<nbt message>".to_owned(),
        }
    }
}

impl Component {
    /// Constructs a new literal text component.
    pub fn text(msg: &str) -> (r: Self)
        ensures
            r@ == text_component_v(msg@),
    {
        let mut df = Self::default();
        df.contents = MessageContents::Plain { text: msg.to_owned() };
        proof {
            assert(df@ =~= text_component_v(msg@));
        }
        df
    }

    /// Constructs a new translatable component.
    pub fn translate(msg: &str, placeholders: Option<Vec<Component>>) -> (r: Self)
        ensures
            r@ == (ComponentV {
                contents: ContentsV::Translate(TranslatedV {
                    translate: msg@,
                    with: match placeholders {
                        Some(v) => Some(components_view(v@)),
                        None => None,
                    },
                }),
                ..empty_component_v()
            }),
    {
        let ghost ph = placeholders;
        let mut df = Self::default();
        df.contents = MessageContents::Translate(TranslatedMessage {
            translate: msg.to_owned(),
            with: placeholders,
        });
        proof {
            assert(df@ =~= (ComponentV {
                contents: ContentsV::Translate(TranslatedV {
                    translate: msg@,
                    with: match ph {
                        Some(v) => Some(components_view(v@)),
                        None => None,
                    },
                }),
                ..empty_component_v()
            }));
        }
        df
    }

    /// Constructs a new scoreboard component.
    pub fn score(name: &str, objective: &str, placeholder: Option<&str>) -> (r: Self)
        ensures
            r@ == (ComponentV {
                contents: ContentsV::Score(ScoreV {
                    name: name@,
                    objective: objective@,
                    value: match placeholder {
                        Some(p) => Some(p@),
                        None => None,
                    },
                }),
                ..empty_component_v()
            }),
    {
        let mut df = Self::default();
        df.contents = MessageContents::Score {
            score: ScoreboardMessage {
                name: name.to_owned(),
                objective: objective.to_owned(),
                value: match placeholder {
                    Some(p) => Some(p.to_owned()),
                    None => None,
                },
            },
        };
        proof {
            assert(df@ =~= (ComponentV {
                contents: ContentsV::Score(ScoreV {
                    name: name@,
                    objective: objective@,
                    value: match placeholder {
                        Some(p) => Some(p@),
                        None => None,
                    },
                }),
                ..empty_component_v()
            }));
        }
        df
    }

    /// Constructs a new entity-mentioning component.
    pub fn entity(selector: &str, separator: Option<Component>) -> (r: Self)
        ensures
            r@ == (ComponentV {
                contents: ContentsV::Entity(EntityMsgV {
                    selector: selector@,
                    separator: match separator {
                        Some(s) => Some(Box::new(s@)),
                        None => None,
                    },
                }),
                ..empty_component_v()
            }),
    {
        let ghost sep = separator;
        let mut df = Self::default();
        df.contents = MessageContents::Entity(Box::new(EntityMessage {
            selector: selector.to_owned(),
            separator,
        }));
        proof {
            assert(df@ =~= (ComponentV {
                contents: ContentsV::Entity(EntityMsgV {
                    selector: selector@,
                    separator: match sep {
                        Some(s) => Some(Box::new(s@)),
                        None => None,
                    },
                }),
                ..empty_component_v()
            }));
        }
        df
    }

    /// Constructs a new keybind component.
    pub fn keybind(key: &str) -> (r: Self)
        ensures
            r@ == (ComponentV {
                contents: ContentsV::Keybind(KeyV { keybind: key@ }),
                ..empty_component_v()
            }),
    {
        let mut df = Self::default();
        df.contents = MessageContents::Keybind(KeyMessage { keybind: key.to_owned() });
        proof {
            assert(df@ =~= (ComponentV {
                contents: ContentsV::Keybind(KeyV { keybind: key@ }),
                ..empty_component_v()
            }));
        }
        df
    }

    /// Constructs an entity NBT-lookup component.
    pub fn entity_nbt(path: &str, selector: &str, interpret: Option<bool>, separator: Option<
        Component,
    >) -> (r: Self)
        ensures
            r@ == (ComponentV {
                contents: ContentsV::Nbt(NbtV {
                    nbt: path@,
                    interpret,
                    separator: match separator {
                        Some(s) => Some(Box::new(s@)),
                        None => None,
                    },
                    block: None,
                    entity: Some(selector@),
                    storage: None,
                }),
                ..empty_component_v()
            }),
    {
        let ghost sep = separator;
        let mut df = Self::default();
        df.contents = MessageContents::Nbt(Box::new(NbtMessage {
            nbt: path.to_owned(),
            interpret,
            separator,
            block: None,
            entity: Some(selector.to_owned()),
            storage: None,
        }));
        proof {
            assert(df@ =~= (ComponentV {
                contents: ContentsV::Nbt(NbtV {
                    nbt: path@,
                    interpret,
                    separator: match sep {
                        Some(s) => Some(Box::new(s@)),
                        None => None,
                    },
                    block: None,
                    entity: Some(selector@),
                    storage: None,
                }),
                ..empty_component_v()
            }));
        }
        df
    }

    /// Constructs a storage NBT-lookup component.
    pub fn storage_nbt(path: &str, storage: &str, interpret: Option<bool>, separator: Option<
        Component,
    >) -> (r: Self)
        ensures
            r@ == (ComponentV {
                contents: ContentsV::Nbt(NbtV {
                    nbt: path@,
                    interpret,
                    separator: match separator {
                        Some(s) => Some(Box::new(s@)),
                        None => None,
                    },
                    block: None,
                    entity: None,
                    storage: Some(storage@),
                }),
                ..empty_component_v()
            }),
    {
        let ghost sep = separator;
        let mut df = Self::default();
        df.contents = MessageContents::Nbt(Box::new(NbtMessage {
            nbt: path.to_owned(),
            interpret,
            separator,
            block: None,
            entity: None,
            storage: Some(storage.to_owned()),
        }));
        proof {
            assert(df@ =~= (ComponentV {
                contents: ContentsV::Nbt(NbtV {
                    nbt: path@,
                    interpret,
                    separator: match sep {
                        Some(s) => Some(Box::new(s@)),
                        None => None,
                    },
                    block: None,
                    entity: None,
                    storage: Some(storage@),
                }),
                ..empty_component_v()
            }));
        }
        df
    }

    /// Adds text that is inserted when this component is shift-clicked.
    pub fn insert_text(self, text: &str) -> (r: Self)
        ensures
            r@ == (ComponentV { insertion: Some(text@), ..self@ }),
    {
        let mut s = self;
        s.insertion = Some(text.to_owned());
        proof {
            assert(s@ =~= (ComponentV { insertion: Some(text@), ..self@ }));
        }
        s
    }

    /// Adds a click event handler to this component.
    pub fn click_event(self, e: ClickEvent) -> (r: Self)
        ensures
            r@ == (ComponentV { click_event: Some(e@), ..self@ }),
    {
        let ghost ev = e@;
        let mut s = self;
        s.click_event = Some(e);
        proof {
            assert(s@ =~= (ComponentV { click_event: Some(ev), ..self@ }));
        }
        s
    }

    /// Adds a hover event handler to this component.
    pub fn hover_event(self, e: HoverEvent) -> (r: Self)
        ensures
            r@ == (ComponentV { hover_event: Some(e@), ..self@ }),
    {
        let ghost ev = e@;
        let mut s = self;
        s.hover_event = Some(e);
        proof {
            assert(s@ =~= (ComponentV { hover_event: Some(ev), ..self@ }));
        }
        s
    }

    /// Appends another component at the end of this one's children.
    pub fn append(self, comp: Component) -> (r: Self)
        ensures
            r@ == spec_append(self@, comp@),
    {
        broadcast use lemma_components_view;

        let ghost cv = comp@;
        let mut s = self;
        let new_extra = match s.extra {
            Some(mut v) => {
                let ghost v0 = v@;
                v.push(comp);
                proof {
                    lemma_components_view_push(v0, comp);
                }
                Some(v)
            },
            None => {
                let mut v: Vec<Component> = Vec::new();
                v.push(comp);
                proof {
                    assert(v@ =~= Seq::empty().push(comp));
                    lemma_components_view_push(Seq::empty(), comp);
                    assert(components_view(v@) =~= seq![cv]);
                }
                Some(v)
            },
        };
        s.extra = new_extra;
        proof {
            assert(s@ =~= spec_append(self@, cv));
        }
        s
    }

    /// Appends another component at the deepest rightmost descendant: follows
    /// the chain of last children to the bottom and attaches there.
    pub fn append_to_last_child(self, comp: Component) -> (r: Self)
        ensures
            r@ == spec_append_to_last_child(self@, comp@),
        decreases self,
    {
        broadcast use lemma_components_view;

        let ghost selfv = self@;
        let ghost cv = comp@;
        let mut s = self;
        let new_extra = match s.extra {
            Some(mut v) => {
                if v.len() == 0 {
                    v.push(comp);
                    proof {
                        lemma_components_view_push(Seq::empty(), comp);
                        assert(v@ =~= Seq::empty().push(comp));
                        assert(components_view(v@) =~= seq![cv]);
                    }
                    Some(v)
                } else {
                    let ghost v0 = v@;
                    let last = v.pop().unwrap();
                    proof {
                        assert(last == v0.last());
                        assert(decreases_to!(self => self.extra));
                        assert(decreases_to!(self.extra => self.extra->0));
                        assert(decreases_to!(self.extra->0 => self.extra->0@));
                        assert(decreases_to!(self.extra->0@ => self.extra->0@[v0.len() - 1]));
                        assert(self.extra->0@[v0.len() - 1] == last);
                    }
                    let last2 = last.append_to_last_child(comp);
                    v.push(last2);
                    proof {
                        lemma_components_view_push(v0.drop_last(), last2);
                        assert(components_view(v0.drop_last()) =~= components_view(
                            v0,
                        ).drop_last());
                        assert(components_view(v@) =~= components_view(v0).update(
                            v0.len() - 1,
                            spec_append_to_last_child(component_view(v0.last()), cv),
                        ));
                    }
                    Some(v)
                }
            },
            None => {
                let mut v: Vec<Component> = Vec::new();
                v.push(comp);
                proof {
                    lemma_components_view_push(Seq::empty(), comp);
                    assert(v@ =~= Seq::empty().push(comp));
                    assert(components_view(v@) =~= seq![cv]);
                }
                Some(v)
            },
        };
        s.extra = new_extra;
        proof {
            assert(s@ =~= spec_append_to_last_child(selfv, cv));
        }
        s
    }

    /// The current color of this component, or white if it has none.
    pub fn get_color(&self) -> (r: TextColor)
        ensures
            r@ == match self@.color {
                Some(c) => c,
                None => ColorV::Named(NamedColor::White),
            },
    {
        match &self.color {
            None => TextColor::Named(NamedColor::White),
            Some(color) => color.clone(),
        }
    }

    /// The literal text of this component, or `None` when its contents are
    /// not literal text.
    pub fn get_text_content(&self) -> (r: Option<String>)
        ensures
            match self@.contents {
                ContentsV::Plain(t) => r is Some && r->0@ == t,
                _ => r is None,
            },
    {
        match &self.contents {
            MessageContents::Plain { text } => Some(text.clone()),
            _ => None,
        }
    }

    /// Gives or removes the bold effect.
    pub fn bold(self, bold: bool) -> (r: Self)
        ensures
            r@ == (ComponentV { bold: Some(bold), ..self@ }),
    {
        let mut s = self;
        s.bold = Some(bold);
        proof {
            assert(s@ =~= (ComponentV { bold: Some(bold), ..self@ }));
        }
        s
    }

    /// Whether the bold effect is enabled.
    pub fn get_bold(&self) -> (r: bool)
        ensures
            r == (self@.bold == Some(true)),
    {
        match self.bold {
            Some(val) => val,
            None => false,
        }
    }

    /// Gives or removes the italic effect.
    pub fn italic(self, italic: bool) -> (r: Self)
        ensures
            r@ == (ComponentV { italic: Some(italic), ..self@ }),
    {
        let mut s = self;
        s.italic = Some(italic);
        proof {
            assert(s@ =~= (ComponentV { italic: Some(italic), ..self@ }));
        }
        s
    }

    /// Whether the italic effect is enabled.
    pub fn get_italic(&self) -> (r: bool)
        ensures
            r == (self@.italic == Some(true)),
    {
        match self.italic {
            Some(val) => val,
            None => false,
        }
    }

    /// Gives or removes the obfuscated effect.
    pub fn obfuscated(self, obfuscated: bool) -> (r: Self)
        ensures
            r@ == (ComponentV { obfuscated: Some(obfuscated), ..self@ }),
    {
        let mut s = self;
        s.obfuscated = Some(obfuscated);
        proof {
            assert(s@ =~= (ComponentV { obfuscated: Some(obfuscated), ..self@ }));
        }
        s
    }

    /// Whether the obfuscated effect is enabled.
    pub fn get_obfuscated(&self) -> (r: bool)
        ensures
            r == (self@.obfuscated == Some(true)),
    {
        match self.obfuscated {
            Some(val) => val,
            None => false,
        }
    }

    /// Gives or removes the strikethrough effect.
    pub fn strikethrough(self, strikethrough: bool) -> (r: Self)
        ensures
            r@ == (ComponentV { strikethrough: Some(strikethrough), ..self@ }),
    {
        let mut s = self;
        s.strikethrough = Some(strikethrough);
        proof {
            assert(s@ =~= (ComponentV { strikethrough: Some(strikethrough), ..self@ }));
        }
        s
    }

    /// Whether the strikethrough effect is enabled.
    pub fn get_strikethrough(&self) -> (r: bool)
        ensures
            r == (self@.strikethrough == Some(true)),
    {
        match self.strikethrough {
            Some(val) => val,
            None => false,
        }
    }

    /// Gives or removes the underlined effect.
    pub fn underlined(self, underlined: bool) -> (r: Self)
        ensures
            r@ == (ComponentV { underlined: Some(underlined), ..self@ }),
    {
        let mut s = self;
        s.underlined = Some(underlined);
        proof {
            assert(s@ =~= (ComponentV { underlined: Some(underlined), ..self@ }));
        }
        s
    }

    /// Whether the underlined effect is enabled.
    pub fn get_underlined(&self) -> (r: bool)
        ensures
            r == (self@.underlined == Some(true)),
    {
        match self.underlined {
            Some(val) => val,
            None => false,
        }
    }

    /// Gives or removes the reset marker.
    pub fn reset(self, reset: bool) -> (r: Self)
        ensures
            r@ == (ComponentV { reset: Some(reset), ..self@ }),
    {
        let mut s = self;
        s.reset = Some(reset);
        proof {
            assert(s@ =~= (ComponentV { reset: Some(reset), ..self@ }));
        }
        s
    }

    /// Whether the reset marker is enabled.
    pub fn get_reset(&self) -> (r: bool)
        ensures
            r == (self@.reset == Some(true)),
    {
        match self.reset {
            Some(val) => val,
            None => false,
        }
    }

    /// Sets a formatting flag; passing `None` as `enable` is equivalent to
    /// passing `Some(true)`.
    pub fn formatted(self, format: Formatting, enable: Option<bool>) -> (r: Self)
        ensures
            r@ == spec_formatted(self@, format, match enable {
                Some(b) => b,
                None => true,
            }),
    {
        let do_enable = match enable {
            Some(b) => b,
            None => true,
        };
        match format {
            Formatting::Obfuscated => self.obfuscated(do_enable),
            Formatting::Bold => self.bold(do_enable),
            Formatting::Strikethrough => self.strikethrough(do_enable),
            Formatting::Underline => self.underlined(do_enable),
            Formatting::Italic => self.italic(do_enable),
            Formatting::Reset => self.reset(do_enable),
        }
    }

    /// Whether the given formatting flag is enabled in this component.
    pub fn get_formatting(&self, format: Formatting) -> (r: bool)
        ensures
            r == spec_get_formatting(self@, format),
    {
        match format {
            Formatting::Obfuscated => self.get_obfuscated(),
            Formatting::Bold => self.get_bold(),
            Formatting::Strikethrough => self.get_strikethrough(),
            Formatting::Underline => self.get_underlined(),
            Formatting::Italic => self.get_italic(),
            Formatting::Reset => self.get_reset(),
        }
    }

    /// Flattens this component into its best-effort plain text: its own
    /// contents followed by its children's, depth first, left to right.
    #[verifier::loop_isolation(false)]
    pub fn flatten(&self) -> (r: String)
        ensures
            r@ == spec_flatten(self@),
        decreases self,
    {
        broadcast use lemma_components_view;

        let mut buf = self.contents.flatten();
        match &self.extra {
            Some(children) => {
                let ghost chv = components_view(children@);
                let mut i: usize = 0;
                while i < children.len()
                    invariant
                        i <= children@.len(),
                        self.extra == Some(*children),
                        chv == components_view(children@),
                        chv.len() == children@.len(),
                        buf@ == flat_contents(contents_view(self.contents)) + spec_flatten_seq(
                            chv.subrange(0, i as int),
                        ),
                    decreases children@.len() - i,
                {
                    proof {
                        assert(self.extra == Some(*children));
                        assert(decreases_to!(*self => self.extra));
                        assert(decreases_to!(self.extra => self.extra->0));
                        assert(self.extra->0 == *children);
                        assert(decreases_to!(*children => children@));
                        assert(decreases_to!(children@ => children@[i as int]));
                    }
                    let piece = (&children[i]).flatten();
                    buf.append(piece.as_str());
                    proof {
                        let pre = chv.subrange(0, (i + 1) as int);
                        assert(pre.drop_last() =~= chv.subrange(0, i as int));
                        assert(pre.last() == chv[i as int]);
                        assert(chv[i as int] == component_view(children@[i as int]));
                    }
                    i = i + 1;
                }
                proof {
                    assert(chv.subrange(0, children@.len() as int) =~= chv);
                }
            },
            None => {
                proof {
                    assert(buf@ =~= spec_flatten(self@));
                }
            },
        }
        proof {
            assert(buf@ =~= spec_flatten(self@));
        }
        buf
    }
}

/// Conversion of an object into a component, by reference.
pub trait AsComponent {
    /// The component value that this object converts to.
    spec fn component_value(&self) -> ComponentV;

    /// Converts this object reference to a component.
    fn as_component(&self) -> (r: Component)
        ensures
            r@ == self.component_value(),
    ;
}

impl AsComponent for Component {
    open spec fn component_value(&self) -> ComponentV {
        component_view(*self)
    }

    fn as_component(&self) -> (r: Component) {
        self.clone()
    }
}

impl AsComponent for str {
    open spec fn component_value(&self) -> ComponentV {
        text_component_v(self@)
    }

    fn as_component(&self) -> (r: Component) {
        Component::text(self)
    }
}

impl AsComponent for String {
    open spec fn component_value(&self) -> ComponentV {
        text_component_v(self@)
    }

    fn as_component(&self) -> (r: Component) {
        Component::text(self.as_str())
    }
}

/// Coloring an object with one of several color descriptions.
pub trait Colored<C>: Sized {
    /// The color value that the argument assigns.
    spec fn color_value(color: C) -> ColorV;

    /// The component value of this object.
    spec fn node_value(&self) -> ComponentV;

    /// Sets the color of this object, leaving every other field unchanged.
    fn color(self, color: C) -> (r: Self)
        ensures
            r.node_value() == (ComponentV {
                color: Some(Self::color_value(color)),
                ..self.node_value()
            }),
    ;
}

impl Colored<u32> for Component {
    open spec fn color_value(color: u32) -> ColorV {
        ColorV::Hex(hex_color_string(color))
    }

    open spec fn node_value(&self) -> ComponentV {
        component_view(*self)
    }

    /// Sets a hex color from the low 24 bits of the argument.
    fn color(self, color: u32) -> (r: Self) {
        let ghost selfv = self@;
        let mut s = self;
        s.color = Some(TextColor::Hex(hex_color_of(color)));
        proof {
            assert(s@ =~= (ComponentV {
                color: Some(ColorV::Hex(hex_color_string(color))),
                ..selfv
            }));
        }
        s
    }
}

impl Colored<NamedColor> for Component {
    open spec fn color_value(color: NamedColor) -> ColorV {
        ColorV::Named(color)
    }

    open spec fn node_value(&self) -> ComponentV {
        component_view(*self)
    }

    /// Sets a named color.
    fn color(self, color: NamedColor) -> (r: Self) {
        let ghost selfv = self@;
        let mut s = self;
        s.color = Some(TextColor::Named(color));
        proof {
            assert(s@ =~= (ComponentV { color: Some(ColorV::Named(color)), ..selfv }));
        }
        s
    }
}

impl Colored<TextColor> for Component {
    open spec fn color_value(color: TextColor) -> ColorV {
        color@
    }

    open spec fn node_value(&self) -> ComponentV {
        component_view(*self)
    }

    /// Sets an explicit text color.
    fn color(self, color: TextColor) -> (r: Self) {
        let ghost cv = color@;
        let ghost selfv = self@;
        let mut s = self;
        s.color = Some(color);
        proof {
            assert(s@ =~= (ComponentV { color: Some(cv), ..selfv }));
        }
        s
    }
}

} // verus!

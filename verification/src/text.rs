use vstd::prelude::*;

verus! {

use vstd::string::StringSliceAdditionalSpecFns;
use vstd::string::StringExecFns;
use vstd::string::StrSliceExecFns;

use crate::nbt::{Tag, SpecTag, tag_view};
use crate::block::ascii_bytes;

/// What a click on a chat component does.
#[derive(Debug, Clone, Copy, PartialEq, Eq, Structural)]
pub enum ClickEventType {
    OpenUrl,
    RunCommand,
    SuggestCommand,
    ChangePage,
    CopyToClipboard,
}

#[derive(Debug, Clone)]
pub struct ClickEvent {
    pub action: ClickEventType,
    pub value: String,
}

#[derive(Debug, Clone)]
pub struct ShowItemEvent {
    pub id: String,
    pub count: Option<i32>,
    pub tag: Option<String>,
}

#[derive(Debug, Clone)]
pub struct ShowEntityEvent {
    pub entity_type: String,
    pub id: String,
    pub name: Option<String>,
}

/// What hovering over a chat component shows.
#[derive(Debug)]
pub enum HoverEvent {
    ShowText(TextComponent),
    ShowItem(ShowItemEvent),
    ShowEntity(ShowEntityEvent),
}

impl HoverEvent {
    pub fn show_text(text: TextComponent) -> (r: HoverEvent)
        ensures
            r == HoverEvent::ShowText(text),
    {
        HoverEvent::ShowText(text)
    }

    pub fn show_item(id: String, count: Option<i32>, nbt: Option<String>) -> (r: HoverEvent)
        ensures
            r == HoverEvent::ShowItem(ShowItemEvent { id, count, tag: nbt }),
    {
        HoverEvent::ShowItem(ShowItemEvent { id, count, tag: nbt })
    }

    pub fn show_entity(entity_type: String, id: String, name: Option<String>) -> (r: HoverEvent)
        ensures
            r == HoverEvent::ShowEntity(ShowEntityEvent { entity_type, id, name }),
    {
        HoverEvent::ShowEntity(ShowEntityEvent { entity_type, id, name })
    }
}

#[derive(Debug, Clone)]
pub struct Score {
    pub name: String,
    pub objective: String,
}

/// A chat color: one of the sixteen presets or a custom six-digit hex code.
#[derive(Debug, Clone)]
pub enum ChatColor {
    Black,
    DarkBlue,
    DarkGreen,
    DarkCyan,
    DarkRed,
    Purple,
    Gold,
    Gray,
    DarkGray,
    Blue,
    Green,
    Aqua,
    Red,
    LightPurple,
    Yellow,
    White,
    Custom(String),
}

/// The value of one hexadecimal digit, either case; 16 marks a non-digit.
pub open spec fn spec_hex_val(c: char) -> int {
    if c == '0' {
        0
    } else if c == '1' {
        1
    } else if c == '2' {
        2
    } else if c == '3' {
        3
    } else if c == '4' {
        4
    } else if c == '5' {
        5
    } else if c == '6' {
        6
    } else if c == '7' {
        7
    } else if c == '8' {
        8
    } else if c == '9' {
        9
    } else if c == 'a' || c == 'A' {
        10
    } else if c == 'b' || c == 'B' {
        11
    } else if c == 'c' || c == 'C' {
        12
    } else if c == 'd' || c == 'D' {
        13
    } else if c == 'e' || c == 'E' {
        14
    } else if c == 'f' || c == 'F' {
        15
    } else {
        16
    }
}

/// Whether a string starts with six hexadecimal digits, the custom color
/// form the color channels are read from.
pub open spec fn is_hex6(s: Seq<char>) -> bool {
    s.len() >= 6 && (forall|i: int| 0 <= i < 6 ==> spec_hex_val(#[trigger] s[i]) < 16)
}

/// The red, green, blue and alpha of a color: the fixed table for presets,
/// and the three parsed hex pairs with alpha 0xff for a custom color.
pub open spec fn spec_color_rgba(c: ChatColor) -> (u8, u8, u8, u8) {
    match c {
        ChatColor::Black => (0x00u8, 0x00u8, 0x00u8, 0xffu8),
        ChatColor::DarkBlue => (0x00u8, 0x00u8, 0xaau8, 0xffu8),
        ChatColor::DarkGreen => (0x00u8, 0xaau8, 0x00u8, 0xffu8),
        ChatColor::DarkCyan => (0x00u8, 0xaau8, 0xaau8, 0xffu8),
        ChatColor::DarkRed => (0xaau8, 0x00u8, 0x00u8, 0xffu8),
        ChatColor::Purple => (0xaau8, 0x00u8, 0xaau8, 0xffu8),
        ChatColor::Gold => (0xffu8, 0xaau8, 0x00u8, 0xffu8),
        ChatColor::Gray => (0xaau8, 0xaau8, 0xaau8, 0xffu8),
        ChatColor::DarkGray => (0x55u8, 0x55u8, 0x55u8, 0xffu8),
        ChatColor::Blue => (0x55u8, 0x55u8, 0xffu8, 0xffu8),
        ChatColor::Green => (0x55u8, 0xffu8, 0x55u8, 0xffu8),
        ChatColor::Aqua => (0x55u8, 0xffu8, 0xffu8, 0xffu8),
        ChatColor::Red => (0xffu8, 0x55u8, 0x55u8, 0xffu8),
        ChatColor::LightPurple => (0xffu8, 0x55u8, 0xffu8, 0xffu8),
        ChatColor::Yellow => (0xffu8, 0xffu8, 0x55u8, 0xffu8),
        ChatColor::White => (0xffu8, 0xffu8, 0xffu8, 0xffu8),
        ChatColor::Custom(h) => (
            (spec_hex_val(h@[0]) * 16 + spec_hex_val(h@[1])) as u8,
            (spec_hex_val(h@[2]) * 16 + spec_hex_val(h@[3])) as u8,
            (spec_hex_val(h@[4]) * 16 + spec_hex_val(h@[5])) as u8,
            0xffu8,
        ),
    }
}

fn hex_val(c: char) -> (r: u8)
    ensures
        r == spec_hex_val(c),
{
    if c == '0' {
        0
    } else if c == '1' {
        1
    } else if c == '2' {
        2
    } else if c == '3' {
        3
    } else if c == '4' {
        4
    } else if c == '5' {
        5
    } else if c == '6' {
        6
    } else if c == '7' {
        7
    } else if c == '8' {
        8
    } else if c == '9' {
        9
    } else if c == 'a' || c == 'A' {
        10
    } else if c == 'b' || c == 'B' {
        11
    } else if c == 'c' || c == 'C' {
        12
    } else if c == 'd' || c == 'D' {
        13
    } else if c == 'e' || c == 'E' {
        14
    } else if c == 'f' || c == 'F' {
        15
    } else {
        16
    }
}

/// The wire name of a color, used in component JSON and serialized tags.
pub open spec fn spec_color_name(c: ChatColor) -> Seq<char> {
    match c {
        ChatColor::Black => "black"@,
        ChatColor::DarkBlue => "dark_blue"@,
        ChatColor::DarkGreen => "dark_green"@,
        ChatColor::DarkCyan => "dark_aqua"@,
        ChatColor::DarkRed => "dark_red"@,
        ChatColor::Purple => "dark_purple"@,
        ChatColor::Gold => "gold"@,
        ChatColor::Gray => "gray"@,
        ChatColor::DarkGray => "dark_gray"@,
        ChatColor::Blue => "blue"@,
        ChatColor::Green => "green"@,
        ChatColor::Aqua => "aqua"@,
        ChatColor::Red => "red"@,
        ChatColor::LightPurple => "light_purple"@,
        ChatColor::Yellow => "yellow"@,
        ChatColor::White => "white"@,
        ChatColor::Custom(h) => seq!['#'] + h@,
    }
}

impl ChatColor {
    /// The legacy formatting-code form: a section sign and a code character,
    /// or the hash-prefixed hex form for a custom color.
    pub fn as_format_code(&self) -> (r: String)
        ensures
            (self matches ChatColor::Custom(h) ==> r@ == seq!['#'] + h@),
            !(self is Custom) ==> r@ == seq!['\u{00a7}', spec_format_char(*self)],
    {
        if let ChatColor::Custom(hex) = self {
            let mut s = <String as StringExecFns>::from_str("#");
            s.append(hex.as_str());
            proof {
                reveal_strlit("#");
                assert(s@ =~= seq!['#'] + hex@);
            }
            return s;
        }
        let code: &'static str = match self {
            ChatColor::Black => "0",
            ChatColor::DarkBlue => "1",
            ChatColor::DarkGreen => "2",
            ChatColor::DarkCyan => "3",
            ChatColor::DarkRed => "4",
            ChatColor::Purple => "5",
            ChatColor::Gold => "6",
            ChatColor::Gray => "7",
            ChatColor::DarkGray => "8",
            ChatColor::Blue => "9",
            ChatColor::Green => "a",
            ChatColor::Aqua => "b",
            ChatColor::Red => "c",
            ChatColor::LightPurple => "d",
            ChatColor::Yellow => "e",
            _ => "f",
        };
        let mut s = <String as StringExecFns>::from_str("\u{00a7}");
        s.append(code);
        proof {
            reveal_strlit("\u{00a7}");
            reveal_strlit("0");
            reveal_strlit("1");
            reveal_strlit("2");
            reveal_strlit("3");
            reveal_strlit("4");
            reveal_strlit("5");
            reveal_strlit("6");
            reveal_strlit("7");
            reveal_strlit("8");
            reveal_strlit("9");
            reveal_strlit("a");
            reveal_strlit("b");
            reveal_strlit("c");
            reveal_strlit("d");
            reveal_strlit("e");
            reveal_strlit("f");
        }
        s
    }

    /// The wire name of the color.
    pub fn get_name(&self) -> (r: String)
        ensures
            r@ == spec_color_name(*self),
    {
        if let ChatColor::Custom(hex) = self {
            let mut s = <String as StringExecFns>::from_str("#");
            s.append(hex.as_str());
            proof {
                reveal_strlit("#");
                assert(s@ =~= seq!['#'] + hex@);
            }
            return s;
        }
        let name: &'static str = match self {
            ChatColor::Black => "black",
            ChatColor::DarkBlue => "dark_blue",
            ChatColor::DarkGreen => "dark_green",
            ChatColor::DarkCyan => "dark_aqua",
            ChatColor::DarkRed => "dark_red",
            ChatColor::Purple => "dark_purple",
            ChatColor::Gold => "gold",
            ChatColor::Gray => "gray",
            ChatColor::DarkGray => "dark_gray",
            ChatColor::Blue => "blue",
            ChatColor::Green => "green",
            ChatColor::Aqua => "aqua",
            ChatColor::Red => "red",
            ChatColor::LightPurple => "light_purple",
            ChatColor::Yellow => "yellow",
            _ => "white",
        };
        name.to_owned()
    }

    /// The color channels: the preset table, or the three hex pairs of a
    /// custom color, always with alpha 0xff. A custom color must start with
    /// six hex digits, as the wire's RRGGBB form demands.
    pub fn as_rgba(&self) -> (r: (u8, u8, u8, u8))
        requires
            self matches ChatColor::Custom(h) ==> is_hex6(h@),
        ensures
            r == spec_color_rgba(*self),
    {
        match self {
            ChatColor::Black => (0x00, 0x00, 0x00, 0xff),
            ChatColor::DarkBlue => (0x00, 0x00, 0xaa, 0xff),
            ChatColor::DarkGreen => (0x00, 0xaa, 0x00, 0xff),
            ChatColor::DarkCyan => (0x00, 0xaa, 0xaa, 0xff),
            ChatColor::DarkRed => (0xaa, 0x00, 0x00, 0xff),
            ChatColor::Purple => (0xaa, 0x00, 0xaa, 0xff),
            ChatColor::Gold => (0xff, 0xaa, 0x00, 0xff),
            ChatColor::Gray => (0xaa, 0xaa, 0xaa, 0xff),
            ChatColor::DarkGray => (0x55, 0x55, 0x55, 0xff),
            ChatColor::Blue => (0x55, 0x55, 0xff, 0xff),
            ChatColor::Green => (0x55, 0xff, 0x55, 0xff),
            ChatColor::Aqua => (0x55, 0xff, 0xff, 0xff),
            ChatColor::Red => (0xff, 0x55, 0x55, 0xff),
            ChatColor::LightPurple => (0xff, 0x55, 0xff, 0xff),
            ChatColor::Yellow => (0xff, 0xff, 0x55, 0xff),
            ChatColor::White => (0xff, 0xff, 0xff, 0xff),
            ChatColor::Custom(h) => {
                let hs = h.as_str();
                let r0 = hex_val(hs.get_char(0)) * 16 + hex_val(hs.get_char(1));
                let g0 = hex_val(hs.get_char(2)) * 16 + hex_val(hs.get_char(3));
                let b0 = hex_val(hs.get_char(4)) * 16 + hex_val(hs.get_char(5));
                (r0, g0, b0, 0xff)
            },
        }
    }
}

/// The legacy format-code character of a preset color.
pub open spec fn spec_format_char(c: ChatColor) -> char {
    match c {
        ChatColor::Black => '0',
        ChatColor::DarkBlue => '1',
        ChatColor::DarkGreen => '2',
        ChatColor::DarkCyan => '3',
        ChatColor::DarkRed => '4',
        ChatColor::Purple => '5',
        ChatColor::Gold => '6',
        ChatColor::Gray => '7',
        ChatColor::DarkGray => '8',
        ChatColor::Blue => '9',
        ChatColor::Green => 'a',
        ChatColor::Aqua => 'b',
        ChatColor::Red => 'c',
        ChatColor::LightPurple => 'd',
        ChatColor::Yellow => 'e',
        _ => 'f',
    }
}

/// A node of rich chat text: content, styling, events, and ordered siblings.
#[derive(Debug)]
pub struct TextComponent {
    pub kind: String,
    pub extra: Option<Vec<TextComponent>>,
    pub text: Option<String>,
    pub color: Option<String>,
    pub bold: Option<bool>,
    pub italic: Option<bool>,
    pub underlined: Option<bool>,
    pub strikethrough: Option<bool>,
    pub obfuscated: Option<bool>,
    pub click_event: Option<ClickEvent>,
    pub hover_event: Option<Box<HoverEvent>>,
}

impl TextComponent {
    /// A fresh text node with nothing set.
    pub fn new() -> (r: TextComponent)
        ensures
            r.kind@ == "text"@,
            r.extra is None,
            r.text is None,
            r.color is None,
            r.bold is None,
            r.italic is None,
            r.underlined is None,
            r.strikethrough is None,
            r.obfuscated is None,
            r.click_event is None,
            r.hover_event is None,
    {
        TextComponent {
            kind: "text".to_owned(),
            extra: None,
            text: None,
            color: None,
            bold: None,
            italic: None,
            underlined: None,
            strikethrough: None,
            obfuscated: None,
            click_event: None,
            hover_event: None,
        }
    }

    /// A plain node holding only the given text.
    pub fn plain(text: &str) -> (r: TextComponent)
        ensures
            r.kind@ == "text"@,
            r.text matches Some(t) && t@ == text@,
            r.extra is None,
            r.color is None,
            r.bold is None,
            r.italic is None,
            r.underlined is None,
            r.strikethrough is None,
            r.obfuscated is None,
            r.click_event is None,
            r.hover_event is None,
    {
        let mut component = TextComponent::new();
        component.set_text(text);
        component
    }

    /// Appends a sibling component.
    pub fn add_component(&mut self, component: TextComponent)
        ensures
            final(self).extra matches Some(e) && e@ == (match old(self).extra {
                Some(o) => o@.push(component),
                None => seq![component],
            }),
            final(self).kind == old(self).kind,
            final(self).text == old(self).text,
            final(self).color == old(self).color,
            final(self).bold == old(self).bold,
            final(self).italic == old(self).italic,
            final(self).underlined == old(self).underlined,
            final(self).strikethrough == old(self).strikethrough,
            final(self).obfuscated == old(self).obfuscated,
            final(self).click_event == old(self).click_event,
            final(self).hover_event == old(self).hover_event,
    {
        if self.extra.is_none() {
            self.extra = Some(Vec::new());
        }
        match &mut self.extra {
            Some(extra) => {
                extra.push(component);
                proof {
                    if old(self).extra is None {
                        assert(self.extra->0@ =~= seq![component]);
                    }
                }
            },
            None => {
                proof {
                    assert(false);
                }
            },
        }
    }

    /// Prepends a sibling component.
    pub fn prepend_component(&mut self, component: TextComponent)
        ensures
            final(self).extra matches Some(e) && e@ == (match old(self).extra {
                Some(o) => seq![component] + o@,
                None => seq![component],
            }),
            final(self).kind == old(self).kind,
            final(self).text == old(self).text,
            final(self).color == old(self).color,
            final(self).bold == old(self).bold,
            final(self).italic == old(self).italic,
            final(self).underlined == old(self).underlined,
            final(self).strikethrough == old(self).strikethrough,
            final(self).obfuscated == old(self).obfuscated,
            final(self).click_event == old(self).click_event,
            final(self).hover_event == old(self).hover_event,
    {
        if self.extra.is_none() {
            self.extra = Some(Vec::new());
        }
        match &mut self.extra {
            Some(extra) => {
                extra.insert(0, component);
                proof {
                    if old(self).extra is None {
                        assert(self.extra->0@ =~= seq![component]);
                    } else {
                        assert(self.extra->0@ =~= seq![component] + old(self).extra->0@);
                    }
                }
            },
            None => {
                proof {
                    assert(false);
                }
            },
        }
    }

    /// Sets the node's own text.
    pub fn set_text(&mut self, text: &str)
        ensures
            final(self).text matches Some(t) && t@ == text@,
            final(self).kind == old(self).kind,
            final(self).extra == old(self).extra,
            final(self).color == old(self).color,
            final(self).bold == old(self).bold,
            final(self).italic == old(self).italic,
            final(self).underlined == old(self).underlined,
            final(self).strikethrough == old(self).strikethrough,
            final(self).obfuscated == old(self).obfuscated,
            final(self).click_event == old(self).click_event,
            final(self).hover_event == old(self).hover_event,
    {
        self.text = Some(text.to_owned());
    }

    pub fn set_bold(&mut self, bold: bool)
        ensures
            *final(self) == (TextComponent { bold: Some(bold), ..*old(self) }),
    {
        self.bold = Some(bold);
    }

    pub fn set_italic(&mut self, italic: bool)
        ensures
            *final(self) == (TextComponent { italic: Some(italic), ..*old(self) }),
    {
        self.italic = Some(italic);
    }

    pub fn set_underlined(&mut self, underlined: bool)
        ensures
            *final(self) == (TextComponent { underlined: Some(underlined), ..*old(self) }),
    {
        self.underlined = Some(underlined);
    }

    pub fn set_strikethrough(&mut self, strikethrough: bool)
        ensures
            *final(self) == (TextComponent { strikethrough: Some(strikethrough), ..*old(self) }),
    {
        self.strikethrough = Some(strikethrough);
    }

    pub fn set_obfuscated(&mut self, obfuscated: bool)
        ensures
            *final(self) == (TextComponent { obfuscated: Some(obfuscated), ..*old(self) }),
    {
        self.obfuscated = Some(obfuscated);
    }

    /// Sets a static color by its wire name.
    pub fn set_color(&mut self, color: ChatColor)
        ensures
            final(self).color matches Some(c) && c@ == spec_color_name(color),
            final(self).kind == old(self).kind,
            final(self).extra == old(self).extra,
            final(self).text == old(self).text,
            final(self).bold == old(self).bold,
            final(self).italic == old(self).italic,
            final(self).underlined == old(self).underlined,
            final(self).strikethrough == old(self).strikethrough,
            final(self).obfuscated == old(self).obfuscated,
            final(self).click_event == old(self).click_event,
            final(self).hover_event == old(self).hover_event,
    {
        self.color = Some(color.get_name());
    }

    pub fn set_hover_event(&mut self, event: HoverEvent)
        ensures
            final(self).hover_event matches Some(b) && *b == event,
            final(self).kind == old(self).kind,
            final(self).extra == old(self).extra,
            final(self).text == old(self).text,
            final(self).color == old(self).color,
            final(self).bold == old(self).bold,
            final(self).italic == old(self).italic,
            final(self).underlined == old(self).underlined,
            final(self).strikethrough == old(self).strikethrough,
            final(self).obfuscated == old(self).obfuscated,
            final(self).click_event == old(self).click_event,
    {
        self.hover_event = Some(Box::new(event));
    }

    /// A structural copy of this component tree, without its events.
    pub fn duplicate(&self) -> (r: TextComponent)
        ensures
            r.kind == self.kind,
            r.text == self.text,
            r.color == self.color,
            r.bold == self.bold,
            r.italic == self.italic,
            r.underlined == self.underlined,
            r.strikethrough == self.strikethrough,
            r.obfuscated == self.obfuscated,
            (self.extra is None ==> r.extra is None),
            self.extra matches Some(o) ==> r.extra matches Some(e) && e@.len() == o@.len() && (
            forall|i: int| 0 <= i < o@.len() ==> same_shape(#[trigger] e@[i], o@[i])),
            r.click_event is None,
            r.hover_event is None,
        decreases *self,
    {
        let extra: Option<Vec<TextComponent>> = match &self.extra {
            None => None,
            Some(o) => {
                let mut out: Vec<TextComponent> = Vec::new();
                let mut i: usize = 0;
                while i < o.len()
                    invariant
                        self.extra == Some(*o),
                        i <= o@.len(),
                        out@.len() == i,
                        forall|k: int| 0 <= k < i ==> same_shape(#[trigger] out@[k], o@[k]),
                    decreases o@.len() - i,
                {
                    proof {
                        assert(decreases_to!(*self => self.extra));
                        assert(decreases_to!(self.extra => self.extra->0));
                        assert(decreases_to!(self.extra->0 => self.extra->0@));
                        assert(0 <= i < self.extra->0@.len());
                        assert(decreases_to!(self.extra->0@ => self.extra->0@[i as int]));
                        assert(self.extra->0@[i as int] == o@[i as int]);
                        assert(decreases_to!(*self => o@[i as int]));
                    }
                    let c = o[i].duplicate();
                    out.push(c);
                    i = i + 1;
                }
                Some(out)
            },
        };
        TextComponent {
            kind: self.kind.clone(),
            extra,
            text: clone_opt_string(&self.text),
            color: clone_opt_string(&self.color),
            bold: self.bold,
            italic: self.italic,
            underlined: self.underlined,
            strikethrough: self.strikethrough,
            obfuscated: self.obfuscated,
            click_event: None,
            hover_event: None,
        }
    }
}

/// Whether two component trees agree on everything but their events.
pub open spec fn same_shape(a: TextComponent, b: TextComponent) -> bool
    decreases b,
{
    &&& a.kind == b.kind
    &&& a.text == b.text
    &&& a.color == b.color
    &&& a.bold == b.bold
    &&& a.italic == b.italic
    &&& a.underlined == b.underlined
    &&& a.strikethrough == b.strikethrough
    &&& a.obfuscated == b.obfuscated
    &&& (b.extra is None ==> a.extra is None)
    &&& (b.extra matches Some(o) ==> a.extra matches Some(e) && e@.len() == o@.len() && (forall|
        i: int,
    |
        0 <= i < o@.len() ==> same_shape(
            #[trigger] e@[i],
            if 0 <= i < o@.len() {
                o@[i]
            } else {
                b
            },
        )))
}

fn clone_opt_string(s: &Option<String>) -> (r: Option<String>)
    ensures
        r == *s,
{
    match s {
        None => None,
        Some(v) => Some(v.clone()),
    }
}

/// The serialized-tag form of a component: a compound with its `type`, then
/// in order its present fields among `extra`, `color`, `text`, and the five
/// style flags as byte tags.
pub open spec fn spec_text_nbt(c: TextComponent) -> SpecTag
    decreases c, 2int,
{
    SpecTag::Compound(spec_text_entries(c))
}

pub open spec fn spec_text_entries(c: TextComponent) -> Seq<(Seq<u8>, SpecTag)>
    decreases c, 1int,
{
    let s0 = seq![
        (ascii_bytes("type"@), SpecTag::String(vstd::utf8::encode_utf8(c.kind@))),
    ];
    let s1 = if c.extra is Some {
        s0.push((ascii_bytes("extra"@), SpecTag::List(spec_extra_nbt(c.extra->0@))))
    } else {
        s0
    };
    let s2 = if c.color is Some {
        s1.push((ascii_bytes("color"@), SpecTag::String(vstd::utf8::encode_utf8(c.color->0@))))
    } else {
        s1
    };
    let s3 = if c.text is Some {
        s2.push((ascii_bytes("text"@), SpecTag::String(vstd::utf8::encode_utf8(c.text->0@))))
    } else {
        s2
    };
    let s4 = if c.bold is Some {
        s3.push((ascii_bytes("bold"@), SpecTag::Byte(spec_flag_byte(c.bold->0))))
    } else {
        s3
    };
    let s5 = if c.italic is Some {
        s4.push((ascii_bytes("italic"@), SpecTag::Byte(spec_flag_byte(c.italic->0))))
    } else {
        s4
    };
    let s6 = if c.underlined is Some {
        s5.push((ascii_bytes("underlined"@), SpecTag::Byte(spec_flag_byte(c.underlined->0))))
    } else {
        s5
    };
    let s7 = if c.strikethrough is Some {
        s6.push((ascii_bytes("strikethrough"@), SpecTag::Byte(spec_flag_byte(c.strikethrough->0))))
    } else {
        s6
    };
    if c.obfuscated is Some {
        s7.push((ascii_bytes("obfuscated"@), SpecTag::Byte(spec_flag_byte(c.obfuscated->0))))
    } else {
        s7
    }
}

pub open spec fn spec_flag_byte(b: bool) -> i8 {
    if b {
        1i8
    } else {
        0i8
    }
}

pub open spec fn spec_extra_nbt(es: Seq<TextComponent>) -> Seq<SpecTag>
    decreases es, 0int,
{
    Seq::new(
        es.len(),
        |i: int|
            if 0 <= i < es.len() {
                spec_text_nbt(es[i])
            } else {
                SpecTag::End
            },
    )
}

/// Appends one named tag to a compound entry list.
fn push_entry(entries: &mut Vec<(Vec<u8>, Tag)>, name: Vec<u8>, value: Tag)
    ensures
        crate::nbt::entries_view(final(entries)@) == crate::nbt::entries_view(old(entries)@).push(
            (name@, tag_view(value)),
        ),
{
    let ghost n = name@;
    let ghost v = tag_view(value);
    entries.push((name, value));
    proof {
        assert(crate::nbt::entries_view(entries@) =~= crate::nbt::entries_view(
            old(entries)@,
        ).push((n, v)));
    }
}

/// Turns an ASCII string literal into its bytes.
pub fn key_bytes(s: &str) -> (r: Vec<u8>)
    requires
        vstd::string::is_ascii(s),
    ensures
        r@ == ascii_bytes(s@),
        r@ == s.spec_bytes(),
    {
    let v = s.as_bytes_vec();
    proof {
        vstd::string::is_ascii_spec_bytes(s);
        assert(v@ =~= ascii_bytes(s@));
    }
    v
}

impl TextComponent {
    /// The component as a serialized-tag tree, the form the wire uses from
    /// protocol 1.20.3 on.
    #[verifier::rlimit(100)]
    #[verifier::spinoff_prover]
    pub fn to_nbt(&self) -> (r: Tag)
        ensures
            tag_view(r) == spec_text_nbt(*self),
        decreases *self,
    {
        let mut entries: Vec<(Vec<u8>, Tag)> = Vec::new();
        proof {
            reveal_strlit("type");
            reveal_strlit("extra");
            reveal_strlit("color");
            reveal_strlit("text");
            reveal_strlit("bold");
            reveal_strlit("italic");
            reveal_strlit("underlined");
            reveal_strlit("strikethrough");
            reveal_strlit("obfuscated");
        }
        proof {
            assert(crate::nbt::entries_view(entries@) =~= Seq::<(Seq<u8>, SpecTag)>::empty());
        }
        push_entry(&mut entries, key_bytes("type"), Tag::String(self.kind.as_str().as_bytes_vec()));
        let ghost g0 = seq![
            (ascii_bytes("type"@), SpecTag::String(vstd::utf8::encode_utf8(self.kind@))),
        ];
        proof {
            assert(Seq::<(Seq<u8>, SpecTag)>::empty().push(
                (ascii_bytes("type"@), SpecTag::String(vstd::utf8::encode_utf8(self.kind@))),
            ) =~= g0);
        }
        match &self.extra {
            Some(o) => {
                let mut children: Vec<Tag> = Vec::new();
                let mut i: usize = 0;
                while i < o.len()
                    invariant
                        self.extra == Some(*o),
                        i <= o@.len(),
                        children@.len() == i,
                        forall|k: int|
                            0 <= k < i ==> tag_view(#[trigger] children@[k]) == spec_text_nbt(
                                o@[k],
                            ),
                    decreases o@.len() - i,
                {
                    proof {
                        assert(decreases_to!(*self => self.extra));
                        assert(decreases_to!(self.extra => self.extra->0));
                        assert(decreases_to!(self.extra->0 => self.extra->0@));
                        assert(0 <= i < self.extra->0@.len());
                        assert(decreases_to!(self.extra->0@ => self.extra->0@[i as int]));
                        assert(self.extra->0@[i as int] == o@[i as int]);
                        assert(decreases_to!(*self => o@[i as int]));
                    }
                    let c = o[i].to_nbt();
                    children.push(c);
                    i = i + 1;
                }
                proof {
                    assert(crate::nbt::tags_view(children@) =~= spec_extra_nbt(o@));
                }
                let lst = Tag::List(children);
                proof {
                    assert(tag_view(lst)->List_0 =~= spec_extra_nbt(o@));
                    assert(tag_view(lst) == SpecTag::List(spec_extra_nbt(self.extra->0@)));
                }
                push_entry(&mut entries, key_bytes("extra"), lst);
            },
            None => {},
        }
        let ghost g1 = if self.extra is Some {
            g0.push((ascii_bytes("extra"@), SpecTag::List(spec_extra_nbt(self.extra->0@))))
        } else {
            g0
        };
        proof {
            assert(crate::nbt::entries_view(entries@) == g1);
        }
        match &self.color {
            Some(c) => {
                push_entry(&mut entries, key_bytes("color"), Tag::String(c.as_str().as_bytes_vec()));
            },
            None => {},
        }
        let ghost g2 = if self.color is Some {
            g1.push((ascii_bytes("color"@), SpecTag::String(vstd::utf8::encode_utf8(self.color->0@))))
        } else {
            g1
        };
        proof {
            assert(crate::nbt::entries_view(entries@) == g2);
        }
        match &self.text {
            Some(tx) => {
                push_entry(&mut entries, key_bytes("text"), Tag::String(tx.as_str().as_bytes_vec()));
            },
            None => {},
        }
        let ghost g3 = if self.text is Some {
            g2.push((ascii_bytes("text"@), SpecTag::String(vstd::utf8::encode_utf8(self.text->0@))))
        } else {
            g2
        };
        proof {
            assert(crate::nbt::entries_view(entries@) == g3);
        }
        match self.bold {
            Some(b) => {
                push_entry(&mut entries, key_bytes("bold"), Tag::Byte(if b { 1 } else { 0 }));
            },
            None => {},
        }
        let ghost g4 = if self.bold is Some {
            g3.push((ascii_bytes("bold"@), SpecTag::Byte(spec_flag_byte(self.bold->0))))
        } else {
            g3
        };
        proof {
            assert(crate::nbt::entries_view(entries@) == g4);
        }
        match self.italic {
            Some(b) => {
                push_entry(&mut entries, key_bytes("italic"), Tag::Byte(if b { 1 } else { 0 }));
            },
            None => {},
        }
        let ghost g5 = if self.italic is Some {
            g4.push((ascii_bytes("italic"@), SpecTag::Byte(spec_flag_byte(self.italic->0))))
        } else {
            g4
        };
        proof {
            assert(crate::nbt::entries_view(entries@) == g5);
        }
        match self.underlined {
            Some(b) => {
                push_entry(&mut entries, key_bytes("underlined"), Tag::Byte(if b { 1 } else { 0 }));
            },
            None => {},
        }
        let ghost g6 = if self.underlined is Some {
            g5.push((ascii_bytes("underlined"@), SpecTag::Byte(spec_flag_byte(self.underlined->0))))
        } else {
            g5
        };
        proof {
            assert(crate::nbt::entries_view(entries@) == g6);
        }
        match self.strikethrough {
            Some(b) => {
                push_entry(&mut entries, key_bytes("strikethrough"), Tag::Byte(if b { 1 } else { 0 }));
            },
            None => {},
        }
        let ghost g7 = if self.strikethrough is Some {
            g6.push((ascii_bytes("strikethrough"@), SpecTag::Byte(spec_flag_byte(self.strikethrough->0))))
        } else {
            g6
        };
        proof {
            assert(crate::nbt::entries_view(entries@) == g7);
        }
        match self.obfuscated {
            Some(b) => {
                push_entry(&mut entries, key_bytes("obfuscated"), Tag::Byte(if b { 1 } else { 0 }));
            },
            None => {},
        }
        let ghost g8 = if self.obfuscated is Some {
            g7.push((ascii_bytes("obfuscated"@), SpecTag::Byte(spec_flag_byte(self.obfuscated->0))))
        } else {
            g7
        };
        proof {
            assert(crate::nbt::entries_view(entries@) == g8);
        }
        let r = Tag::Compound(entries);
        proof {
            assert(g8 == spec_text_entries(*self));
            assert(tag_view(r)->Compound_0 =~= g8);
        }
        r
    }
}

/// One lowercase hexadecimal digit.
pub open spec fn spec_hex_char(d: int) -> char {
    if d == 0 {
        '0'
    } else if d == 1 {
        '1'
    } else if d == 2 {
        '2'
    } else if d == 3 {
        '3'
    } else if d == 4 {
        '4'
    } else if d == 5 {
        '5'
    } else if d == 6 {
        '6'
    } else if d == 7 {
        '7'
    } else if d == 8 {
        '8'
    } else if d == 9 {
        '9'
    } else if d == 10 {
        'a'
    } else if d == 11 {
        'b'
    } else if d == 12 {
        'c'
    } else if d == 13 {
        'd'
    } else if d == 14 {
        'e'
    } else {
        'f'
    }
}

/// A byte as two lowercase hexadecimal digits.
pub open spec fn spec_hex_byte(v: u8) -> Seq<char> {
    seq![spec_hex_char(v as int / 16), spec_hex_char(v as int % 16)]
}

pub fn hex_digit_pub(d: u32) -> (r: &'static str)
    requires
        d < 16,
    ensures
        r@ == seq![spec_hex_char(d as int)],
{
    let s: &'static str = if d == 0 {
        "0"
    } else if d == 1 {
        "1"
    } else if d == 2 {
        "2"
    } else if d == 3 {
        "3"
    } else if d == 4 {
        "4"
    } else if d == 5 {
        "5"
    } else if d == 6 {
        "6"
    } else if d == 7 {
        "7"
    } else if d == 8 {
        "8"
    } else if d == 9 {
        "9"
    } else if d == 10 {
        "a"
    } else if d == 11 {
        "b"
    } else if d == 12 {
        "c"
    } else if d == 13 {
        "d"
    } else if d == 14 {
        "e"
    } else {
        "f"
    };
    proof {
        reveal_strlit("0");
        reveal_strlit("1");
        reveal_strlit("2");
        reveal_strlit("3");
        reveal_strlit("4");
        reveal_strlit("5");
        reveal_strlit("6");
        reveal_strlit("7");
        reveal_strlit("8");
        reveal_strlit("9");
        reveal_strlit("a");
        reveal_strlit("b");
        reveal_strlit("c");
        reveal_strlit("d");
        reveal_strlit("e");
        reveal_strlit("f");
        assert(s@ =~= seq![spec_hex_char(d as int)]);
    }
    s
}

pub fn append_hex_byte(s: &mut String, v: u8)
    ensures
        final(s)@ == old(s)@ + spec_hex_byte(v),
{
    s.append(hex_digit_pub((v as u32) / 16));
    s.append(hex_digit_pub((v as u32) % 16));
    proof {
        assert(s@ =~= old(s)@ + spec_hex_byte(v));
    }
}

/// One color channel linearly interpolated `num/den` of the way from `a`
/// to `b`, moving toward `b` by the truncated proportional distance.
pub open spec fn spec_lerp(a: u8, b: u8, num: int, den: int) -> u8
    recommends
        0 <= num < den,
{
    if b >= a {
        (a + ((b - a) * num) / den) as u8
    } else {
        (a - ((a - b) * num) / den) as u8
    }
}

fn lerp(a: u8, b: u8, num: u64, den: u64) -> (r: u8)
    requires
        num < den,
    ensures
        r == spec_lerp(a, b, num as int, den as int),
{
    if b >= a {
        let d: u128 = (b - a) as u128;
        proof {
            assert((d as int) * (num as int) < 0x1_0000_0000_0000_0000_0000) by (nonlinear_arith)
                requires
                    d <= 255,
                    num < 0x1_0000_0000_0000_0000,
            ;
        }
        let q: u128 = (d * (num as u128)) / (den as u128);
        proof {
            assert(0 <= (d as int) * (num as int) / (den as int) <= d) by (nonlinear_arith)
                requires
                    d >= 0,
                    0 <= num < den,
            ;
        }
        a + (q as u8)
    } else {
        let d: u128 = (a - b) as u128;
        proof {
            assert((d as int) * (num as int) < 0x1_0000_0000_0000_0000_0000) by (nonlinear_arith)
                requires
                    d <= 255,
                    num < 0x1_0000_0000_0000_0000,
            ;
        }
        let q: u128 = (d * (num as u128)) / (den as u128);
        proof {
            assert(0 <= (d as int) * (num as int) / (den as int) <= d) by (nonlinear_arith)
                requires
                    d >= 0,
                    0 <= num < den,
            ;
        }
        a - (q as u8)
    }
}

/// The interpolated color of character `i` of `n`, through the given stops:
/// the run from 0 to `n` is divided evenly among the gaps between stops.
pub open spec fn spec_gradient_rgb(stops: Seq<(u8, u8, u8)>, i: int, n: int) -> (u8, u8, u8)
    recommends
        stops.len() >= 1,
        0 <= i < n,
{
    if stops.len() == 1 {
        stops[0]
    } else {
        let num = i * (stops.len() - 1);
        let seg = num / n;
        let fr = num % n;
        (
            spec_lerp(stops[seg].0, stops[seg + 1].0, fr, n),
            spec_lerp(stops[seg].1, stops[seg + 1].1, fr, n),
            spec_lerp(stops[seg].2, stops[seg + 1].2, fr, n),
        )
    }
}

/// The six-digit hex form of an interpolated color.
pub open spec fn spec_gradient_hex(stops: Seq<(u8, u8, u8)>, i: int, n: int) -> Seq<char> {
    let rgb = spec_gradient_rgb(stops, i, n);
    spec_hex_byte(rgb.0) + spec_hex_byte(rgb.1) + spec_hex_byte(rgb.2)
}

/// The color channels of each gradient stop.
pub open spec fn spec_stops(points: Seq<ChatColor>) -> Seq<(u8, u8, u8)> {
    Seq::new(
        points.len(),
        |i: int|
            if 0 <= i < points.len() {
                let rgba = spec_color_rgba(points[i]);
                (rgba.0, rgba.1, rgba.2)
            } else {
                (0u8, 0u8, 0u8)
            },
    )
}

impl TextComponent {
    /// Colors the node's text as a gradient: the text moves into one sibling
    /// per character, each colored by linear interpolation through the given
    /// stops, and the node's own text is cleared.
    #[verifier::rlimit(100)]
    #[verifier::spinoff_prover]
    pub fn set_gradient(&mut self, points: &Vec<ChatColor>)
        requires
            points@.len() >= 1,
            forall|i: int|
                0 <= i < points@.len() ==> ((#[trigger] points@[i]) matches ChatColor::Custom(h)
                    ==> is_hex6(h@)),
        ensures
            old(self).text is None ==> *final(self) == *old(self),
            old(self).text matches Some(t) ==> {
                let n = t@.len() as int;
                &&& final(self).text matches Some(e) && e@.len() == 0
                &&& final(self).extra is Some
                &&& final(self).extra->0@.len() == n
                &&& (forall|i: int|
                    0 <= i < n ==> ((#[trigger] final(self).extra->0@[i]).text matches Some(ct)
                        && ct@ == seq![t@[i]]))
                &&& (forall|i: int|
                    0 <= i < n ==> ((#[trigger] final(self).extra->0@[i]).color matches Some(cc)
                        && cc@ == seq!['#'] + spec_gradient_hex(spec_stops(points@), i, n)))
                &&& final(self).kind == old(self).kind
                &&& final(self).bold == old(self).bold
                &&& final(self).italic == old(self).italic
                &&& final(self).color == old(self).color
                &&& final(self).underlined == old(self).underlined
                &&& final(self).strikethrough == old(self).strikethrough
                &&& final(self).obfuscated == old(self).obfuscated
                &&& final(self).click_event == old(self).click_event
                &&& final(self).hover_event == old(self).hover_event
            },
    {
        let text = match &self.text {
            None => {
                return ;
            },
            Some(t) => t.clone(),
        };
        let mut stops: Vec<(u8, u8, u8)> = Vec::new();
        let mut p: usize = 0;
        while p < points.len()
            invariant
                p <= points@.len(),
                stops@.len() == p,
                forall|k: int|
                    0 <= k < points@.len() ==> ((#[trigger] points@[k]) matches ChatColor::Custom(
                        h,
                    ) ==> is_hex6(h@)),
                forall|k: int| 0 <= k < p ==> (#[trigger] stops@[k]) == spec_stops(points@)[k],
            decreases points@.len() - p,
        {
            let rgba = points[p].as_rgba();
            stops.push((rgba.0, rgba.1, rgba.2));
            p = p + 1;
        }
        proof {
            assert(stops@ =~= spec_stops(points@));
        }
        let n = text.as_str().unicode_len();
        let mut components: Vec<TextComponent> = Vec::new();
        let mut i: usize = 0;
        while i < n
            invariant
                i <= n,
                n == text@.len(),
                n <= usize::MAX,
                stops@ == spec_stops(points@),
                stops@.len() == points@.len() >= 1,
                stops@.len() <= 0xffff_ffff_ffff_ffff,
                components@.len() == i,
                forall|k: int|
                    0 <= k < i ==> ((#[trigger] components@[k]).text matches Some(ct) && ct@
                        == seq![text@[k]]),
                forall|k: int|
                    0 <= k < i ==> ((#[trigger] components@[k]).color matches Some(cc) && cc@
                        == seq!['#'] + spec_gradient_hex(stops@, k, n as int)),
            decreases n - i,
        {
            let ch = text.as_str().get_char(i);
            let (cr, cg, cb): (u8, u8, u8) = if stops.len() == 1 {
                stops[0]
            } else {
                proof {
                    assert(i < 0x1_0000_0000_0000_0000);
                    assert(stops@.len() < 0x1_0000_0000_0000_0000);
                    assert((i as int) * (stops@.len() - 1)
                        <= 0xffff_ffff_ffff_ffff_ffff_ffff_ffff_ffff) by (nonlinear_arith)
                        requires
                            i < 0x1_0000_0000_0000_0000,
                            1 <= stops@.len() < 0x1_0000_0000_0000_0000,
                    ;
                }
                let num: u128 = (i as u128) * ((stops.len() - 1) as u128);
                proof {
                    assert((i as int) * (stops@.len() - 1) < (n as int) * (stops@.len() - 1))
                        by (nonlinear_arith)
                        requires
                            i < n,
                            stops@.len() >= 2,
                    ;
                    assert((num as int) / (n as int) < stops@.len() - 1) by (nonlinear_arith)
                        requires
                            num < (n as int) * (stops@.len() - 1),
                            n >= 1,
                            stops@.len() >= 2,
                    ;
                }
                let seg: usize = (num / (n as u128)) as usize;
                let fr: u128 = num % (n as u128);
                let c0 = stops[seg];
                let c1 = stops[seg + 1];
                proof {
                    assert(fr < n);
                }
                (
                    lerp(c0.0, c1.0, fr as u64, n as u64),
                    lerp(c0.1, c1.1, fr as u64, n as u64),
                    lerp(c0.2, c1.2, fr as u64, n as u64),
                )
            };
            let mut hex = String::new();
            append_hex_byte(&mut hex, cr);
            append_hex_byte(&mut hex, cg);
            append_hex_byte(&mut hex, cb);
            let mut component = TextComponent::new();
            let cs = char_to_string(ch);
            component.set_text(cs.as_str());
            component.set_color(ChatColor::Custom(hex));
            proof {
                assert(component.color->0@ =~= seq!['#'] + spec_gradient_hex(
                    stops@,
                    i as int,
                    n as int,
                ));
            }
            components.push(component);
            i = i + 1;
        }
        self.extra = Some(components);
        self.text = Some(String::new());
    }
}

/// Relies on String::from for char: a string holding exactly the one
/// character.
#[verifier::external_body]
fn char_to_string(c: char) -> (r: String)
    ensures
        r@ == seq![c],
{
    String::from(c)
}

/// The JSON escape of one character: quotes and backslashes get a
/// backslash, control characters the four-digit unicode form.
pub open spec fn spec_json_escape_char(c: char) -> Seq<char> {
    if c == '"' {
        seq!['\\', '"']
    } else if c == '\\' {
        seq!['\\', '\\']
    } else if (c as u32) < 0x20 {
        seq!['\\', 'u', '0', '0'] + spec_hex_byte(c as u8)
    } else {
        seq![c]
    }
}

/// The JSON escape of a string, character by character.
pub open spec fn spec_json_escape(s: Seq<char>) -> Seq<char>
    decreases s.len(),
{
    if s.len() == 0 {
        Seq::empty()
    } else {
        spec_json_escape(s.drop_last()) + spec_json_escape_char(s.last())
    }
}

/// Appends the JSON escape of `s`.
pub fn append_json_escaped_pub(out: &mut String, s: &str)
    ensures
        final(out)@ == old(out)@ + spec_json_escape(s@),
{
    let n = s.unicode_len();
    let mut i: usize = 0;
    while i < n
        invariant
            i <= n,
            n == s@.len(),
            out@ == old(out)@ + spec_json_escape(s@.take(i as int)),
        decreases n - i,
    {
        let c = s.get_char(i);
        if c == '"' {
            out.append("\\\"");
            proof {
                reveal_strlit("\\\"");
            }
        } else if c == '\\' {
            out.append("\\\\");
            proof {
                reveal_strlit("\\\\");
            }
        } else if (c as u32) < 0x20 {
            out.append("\\u00");
            proof {
                reveal_strlit("\\u00");
            }
            append_hex_byte(out, c as u8);
        } else {
            let cs = char_to_string(c);
            out.append(cs.as_str());
        }
        i = i + 1;
        proof {
            assert(s@.take(i as int).drop_last() =~= s@.take(i - 1));
            assert(s@.take(i as int).last() == s@[i - 1]);
            assert(out@ =~= old(out)@ + spec_json_escape(s@.take(i as int)));
        }
    }
    proof {
        assert(s@.take(n as int) =~= s@);
    }
}

/// The JSON form of a component: its `type`, then its present fields among
/// `extra`, `color`, `text`, and the five style flags.
pub open spec fn spec_text_json(c: TextComponent) -> Seq<char>
    decreases c, 2int, 0int,
{
    let s0 = "{\"type\":\""@ + spec_json_escape(c.kind@) + "\""@;
    let s1 = if c.extra is Some {
        s0 + ",\"extra\":["@ + spec_json_children(c.extra->0@, 0) + "]"@
    } else {
        s0
    };
    let s2 = if c.color is Some {
        s1 + ",\"color\":\""@ + spec_json_escape(c.color->0@) + "\""@
    } else {
        s1
    };
    let s3 = if c.text is Some {
        s2 + ",\"text\":\""@ + spec_json_escape(c.text->0@) + "\""@
    } else {
        s2
    };
    let s4 = if c.bold is Some {
        s3 + ",\"bold\":"@ + spec_json_bool(c.bold->0)
    } else {
        s3
    };
    let s5 = if c.italic is Some {
        s4 + ",\"italic\":"@ + spec_json_bool(c.italic->0)
    } else {
        s4
    };
    let s6 = if c.underlined is Some {
        s5 + ",\"underlined\":"@ + spec_json_bool(c.underlined->0)
    } else {
        s5
    };
    let s7 = if c.strikethrough is Some {
        s6 + ",\"strikethrough\":"@ + spec_json_bool(c.strikethrough->0)
    } else {
        s6
    };
    let s8 = if c.obfuscated is Some {
        s7 + ",\"obfuscated\":"@ + spec_json_bool(c.obfuscated->0)
    } else {
        s7
    };
    s8 + "}"@
}

pub open spec fn spec_json_bool(b: bool) -> Seq<char> {
    if b {
        "true"@
    } else {
        "false"@
    }
}

/// The comma-separated JSON forms of sibling components from index `i` on.
pub open spec fn spec_json_children(es: Seq<TextComponent>, i: int) -> Seq<char>
    decreases es, 1int, es.len() - i,
{
    if i < 0 || i >= es.len() {
        Seq::empty()
    } else {
        (if i > 0 {
            seq![',']
        } else {
            Seq::<char>::empty()
        }) + spec_text_json(es[i]) + spec_json_children(es, i + 1)
    }
}

impl TextComponent {
    /// The component as JSON text, the form the wire uses before protocol
    /// 1.20.3 and the status object embeds.
    #[verifier::rlimit(100)]
    #[verifier::spinoff_prover]
    pub fn to_json(&self) -> (r: String)
        ensures
            r@ == spec_text_json(*self),
        decreases *self,
    {
        let mut out = String::new();
        proof {
            reveal_strlit("{\"type\":\"");
            reveal_strlit("\"");
            reveal_strlit(",\"extra\":[");
            reveal_strlit("]");
            reveal_strlit(",\"color\":\"");
            reveal_strlit(",\"text\":\"");
            reveal_strlit(",\"bold\":");
            reveal_strlit(",\"italic\":");
            reveal_strlit(",\"underlined\":");
            reveal_strlit(",\"strikethrough\":");
            reveal_strlit(",\"obfuscated\":");
            reveal_strlit("}");
            reveal_strlit("true");
            reveal_strlit("false");
            reveal_strlit(",");
        }
        out.append("{\"type\":\"");
        append_json_escaped_pub(&mut out, self.kind.as_str());
        out.append("\"");
        let ghost g0 = "{\"type\":\""@ + spec_json_escape(self.kind@) + "\""@;
        proof {
            assert(out@ == g0);
        }
        match &self.extra {
            Some(o) => {
                out.append(",\"extra\":[");
                let ghost base = out@;
                let mut i: usize = 0;
                while i < o.len()
                    invariant
                        self.extra == Some(*o),
                        i <= o@.len(),
                        out@ + spec_json_children(o@, i as int) == base + spec_json_children(
                            o@,
                            0,
                        ),
                    decreases o@.len() - i,
                {
                    proof {
                        reveal_strlit(",");
                        assert(decreases_to!(*self => self.extra));
                        assert(decreases_to!(self.extra => self.extra->0));
                        assert(decreases_to!(self.extra->0 => self.extra->0@));
                        assert(0 <= i < self.extra->0@.len());
                        assert(decreases_to!(self.extra->0@ => self.extra->0@[i as int]));
                        assert(self.extra->0@[i as int] == o@[i as int]);
                        assert(decreases_to!(*self => o@[i as int]));
                    }
                    let ghost pre = out@;
                    if i > 0 {
                        out.append(",");
                    }
                    let cj = o[i].to_json();
                    out.append(cj.as_str());
                    proof {
                        assert(spec_json_children(o@, i as int) == (if i > 0 {
                            seq![',']
                        } else {
                            Seq::<char>::empty()
                        }) + spec_text_json(o@[i as int]) + spec_json_children(o@, i + 1));
                        assert(out@ + spec_json_children(o@, i + 1) =~= pre + spec_json_children(
                            o@,
                            i as int,
                        ));
                    }
                    i = i + 1;
                }
                proof {
                    assert(spec_json_children(o@, o@.len() as int) =~= Seq::<char>::empty());
                    assert(out@ =~= base + spec_json_children(o@, 0));
                }
                out.append("]");
            },
            None => {},
        }
        let ghost g1 = if self.extra is Some {
            g0 + ",\"extra\":["@ + spec_json_children(self.extra->0@, 0) + "]"@
        } else {
            g0
        };
        proof {
            assert(out@ == g1);
        }
        match &self.color {
            Some(c) => {
                out.append(",\"color\":\"");
                append_json_escaped_pub(&mut out, c.as_str());
                out.append("\"");
            },
            None => {},
        }
        let ghost g2 = if self.color is Some {
            g1 + ",\"color\":\""@ + spec_json_escape(self.color->0@) + "\""@
        } else {
            g1
        };
        proof {
            assert(out@ == g2);
        }
        match &self.text {
            Some(tx) => {
                out.append(",\"text\":\"");
                append_json_escaped_pub(&mut out, tx.as_str());
                out.append("\"");
            },
            None => {},
        }
        let ghost g3 = if self.text is Some {
            g2 + ",\"text\":\""@ + spec_json_escape(self.text->0@) + "\""@
        } else {
            g2
        };
        proof {
            assert(out@ == g3);
        }
        match self.bold {
            Some(b) => {
                out.append(",\"bold\":");
                out.append(if b { "true" } else { "false" });
            },
            None => {},
        }
        let ghost g4 = if self.bold is Some {
            g3 + ",\"bold\":"@ + spec_json_bool(self.bold->0)
        } else {
            g3
        };
        proof {
            assert(out@ == g4);
        }
        match self.italic {
            Some(b) => {
                out.append(",\"italic\":");
                out.append(if b { "true" } else { "false" });
            },
            None => {},
        }
        let ghost g5 = if self.italic is Some {
            g4 + ",\"italic\":"@ + spec_json_bool(self.italic->0)
        } else {
            g4
        };
        proof {
            assert(out@ == g5);
        }
        match self.underlined {
            Some(b) => {
                out.append(",\"underlined\":");
                out.append(if b { "true" } else { "false" });
            },
            None => {},
        }
        let ghost g6 = if self.underlined is Some {
            g5 + ",\"underlined\":"@ + spec_json_bool(self.underlined->0)
        } else {
            g5
        };
        proof {
            assert(out@ == g6);
        }
        match self.strikethrough {
            Some(b) => {
                out.append(",\"strikethrough\":");
                out.append(if b { "true" } else { "false" });
            },
            None => {},
        }
        let ghost g7 = if self.strikethrough is Some {
            g6 + ",\"strikethrough\":"@ + spec_json_bool(self.strikethrough->0)
        } else {
            g6
        };
        proof {
            assert(out@ == g7);
        }
        match self.obfuscated {
            Some(b) => {
                out.append(",\"obfuscated\":");
                out.append(if b { "true" } else { "false" });
            },
            None => {},
        }
        let ghost g8 = if self.obfuscated is Some {
            g7 + ",\"obfuscated\":"@ + spec_json_bool(self.obfuscated->0)
        } else {
            g7
        };
        proof {
            assert(out@ == g8);
        }
        out.append("}");
        proof {
            assert(out@ == spec_text_json(*self));
        }
        out
    }
}

} // verus!

use vstd::prelude::*;

use crate::chars::{decimal, push_decimal, str_chars, str_eq};

verus! {

/// Officially supported ZZT element types.
///
/// These are all the elements for which ZZT 3.2 has handler code. The file format allows any
/// `u8` as a tile type, and out-of-range values do see use (text colors beyond the official
/// seven, deliberate crashes, forks of ZZT), so [`crate::Tile`] stores raw bytes; this enum is
/// provided for convenience. [`Element::id`] gives an element's number.
#[derive(Debug, Clone, Copy, PartialEq, Eq, Structural)]
pub enum Element {
    Empty,
    BoardEdge,
    Messenger,
    Monitor,
    Player,
    Ammo,
    Torch,
    Gem,
    Key,
    Door,
    Scroll,
    Passage,
    Duplicator,
    Bomb,
    Energizer,
    Star,
    Clockwise,
    Counter,
    Bullet,
    Water,
    Forest,
    Solid,
    Normal,
    Breakable,
    Boulder,
    SliderNs,
    SliderEw,
    Fake,
    Invisible,
    BlinkWall,
    Transporter,
    Line,
    Ricochet,
    BlinkRayH,
    Bear,
    Ruffian,
    Object,
    Slime,
    Shark,
    SpinningGun,
    Pusher,
    Lion,
    Tiger,
    BlinkRayV,
    Head,
    Segment,
    // 46 is unused
    TextBlue,
    TextGreen,
    TextCyan,
    TextRed,
    TextPurple,
    TextBrown,
    TextBlack,
}

/// The number that stands for an element in ZZT files.
pub open spec fn element_id(e: Element) -> u8 {
    match e {
        Element::Empty => 0,
        Element::BoardEdge => 1,
        Element::Messenger => 2,
        Element::Monitor => 3,
        Element::Player => 4,
        Element::Ammo => 5,
        Element::Torch => 6,
        Element::Gem => 7,
        Element::Key => 8,
        Element::Door => 9,
        Element::Scroll => 10,
        Element::Passage => 11,
        Element::Duplicator => 12,
        Element::Bomb => 13,
        Element::Energizer => 14,
        Element::Star => 15,
        Element::Clockwise => 16,
        Element::Counter => 17,
        Element::Bullet => 18,
        Element::Water => 19,
        Element::Forest => 20,
        Element::Solid => 21,
        Element::Normal => 22,
        Element::Breakable => 23,
        Element::Boulder => 24,
        Element::SliderNs => 25,
        Element::SliderEw => 26,
        Element::Fake => 27,
        Element::Invisible => 28,
        Element::BlinkWall => 29,
        Element::Transporter => 30,
        Element::Line => 31,
        Element::Ricochet => 32,
        Element::BlinkRayH => 33,
        Element::Bear => 34,
        Element::Ruffian => 35,
        Element::Object => 36,
        Element::Slime => 37,
        Element::Shark => 38,
        Element::SpinningGun => 39,
        Element::Pusher => 40,
        Element::Lion => 41,
        Element::Tiger => 42,
        Element::BlinkRayV => 43,
        Element::Head => 44,
        Element::Segment => 45,
        Element::TextBlue => 47,
        Element::TextGreen => 48,
        Element::TextCyan => 49,
        Element::TextRed => 50,
        Element::TextPurple => 51,
        Element::TextBrown => 52,
        Element::TextBlack => 53,
    }
}

/// The element a number stands for, if any (0 to 45 and 47 to 53).
pub open spec fn element_from_id(id: u8) -> Option<Element> {
    match id {
        0 => Some(Element::Empty),
        1 => Some(Element::BoardEdge),
        2 => Some(Element::Messenger),
        3 => Some(Element::Monitor),
        4 => Some(Element::Player),
        5 => Some(Element::Ammo),
        6 => Some(Element::Torch),
        7 => Some(Element::Gem),
        8 => Some(Element::Key),
        9 => Some(Element::Door),
        10 => Some(Element::Scroll),
        11 => Some(Element::Passage),
        12 => Some(Element::Duplicator),
        13 => Some(Element::Bomb),
        14 => Some(Element::Energizer),
        15 => Some(Element::Star),
        16 => Some(Element::Clockwise),
        17 => Some(Element::Counter),
        18 => Some(Element::Bullet),
        19 => Some(Element::Water),
        20 => Some(Element::Forest),
        21 => Some(Element::Solid),
        22 => Some(Element::Normal),
        23 => Some(Element::Breakable),
        24 => Some(Element::Boulder),
        25 => Some(Element::SliderNs),
        26 => Some(Element::SliderEw),
        27 => Some(Element::Fake),
        28 => Some(Element::Invisible),
        29 => Some(Element::BlinkWall),
        30 => Some(Element::Transporter),
        31 => Some(Element::Line),
        32 => Some(Element::Ricochet),
        33 => Some(Element::BlinkRayH),
        34 => Some(Element::Bear),
        35 => Some(Element::Ruffian),
        36 => Some(Element::Object),
        37 => Some(Element::Slime),
        38 => Some(Element::Shark),
        39 => Some(Element::SpinningGun),
        40 => Some(Element::Pusher),
        41 => Some(Element::Lion),
        42 => Some(Element::Tiger),
        43 => Some(Element::BlinkRayV),
        44 => Some(Element::Head),
        45 => Some(Element::Segment),
        47 => Some(Element::TextBlue),
        48 => Some(Element::TextGreen),
        49 => Some(Element::TextCyan),
        50 => Some(Element::TextRed),
        51 => Some(Element::TextPurple),
        52 => Some(Element::TextBrown),
        53 => Some(Element::TextBlack),
        _ => None,
    }
}

/// The human-readable name of an element.
pub open spec fn element_name_spec(e: Element) -> Seq<char> {
    match e {
        Element::Empty => "empty"@,
        Element::BoardEdge => "board_edge"@,
        Element::Messenger => "messenger"@,
        Element::Monitor => "monitor"@,
        Element::Player => "player"@,
        Element::Ammo => "ammo"@,
        Element::Torch => "torch"@,
        Element::Gem => "gem"@,
        Element::Key => "key"@,
        Element::Door => "door"@,
        Element::Scroll => "scroll"@,
        Element::Passage => "passage"@,
        Element::Duplicator => "duplicator"@,
        Element::Bomb => "bomb"@,
        Element::Energizer => "energizer"@,
        Element::Star => "star"@,
        Element::Clockwise => "clockwise"@,
        Element::Counter => "counter"@,
        Element::Bullet => "bullet"@,
        Element::Water => "water"@,
        Element::Forest => "forest"@,
        Element::Solid => "solid"@,
        Element::Normal => "normal"@,
        Element::Breakable => "breakable"@,
        Element::Boulder => "boulder"@,
        Element::SliderNs => "sliderns"@,
        Element::SliderEw => "sliderew"@,
        Element::Fake => "fake"@,
        Element::Invisible => "invisible"@,
        Element::BlinkWall => "blinkwall"@,
        Element::Transporter => "transporter"@,
        Element::Line => "line"@,
        Element::Ricochet => "ricochet"@,
        Element::BlinkRayH => "blink_ray_h"@,
        Element::Bear => "bear"@,
        Element::Ruffian => "ruffian"@,
        Element::Object => "object"@,
        Element::Slime => "slime"@,
        Element::Shark => "shark"@,
        Element::SpinningGun => "spinninggun"@,
        Element::Pusher => "pusher"@,
        Element::Lion => "lion"@,
        Element::Tiger => "tiger"@,
        Element::BlinkRayV => "blink_ray_v"@,
        Element::Head => "head"@,
        Element::Segment => "segment"@,
        Element::TextBlue => "text_blue"@,
        Element::TextGreen => "text_green"@,
        Element::TextCyan => "text_cyan"@,
        Element::TextRed => "text_red"@,
        Element::TextPurple => "text_purple"@,
        Element::TextBrown => "text_brown"@,
        Element::TextBlack => "text_black"@,
    }
}

/// The name that parameter 1 goes by for an element, if it has one.
pub open spec fn p1_alias_spec(e: Element) -> Option<Seq<char>> {
    match e {
        Element::BlinkWall => Some("start_time"@),
        Element::Bear => Some("sensitivity"@),
        Element::Ruffian => Some("intelligence"@),
        Element::Object => Some("char"@),
        Element::Shark => Some("intelligence"@),
        Element::SpinningGun => Some("intelligence"@),
        Element::Lion => Some("intelligence"@),
        Element::Tiger => Some("intelligence"@),
        Element::Head => Some("intelligence"@),
        _ => None,
    }
}

/// The name that parameter 2 goes by for an element, if it has one.
pub open spec fn p2_alias_spec(e: Element) -> Option<Seq<char>> {
    match e {
        Element::Duplicator => Some("rate"@),
        Element::BlinkWall => Some("period"@),
        Element::Ruffian => Some("resting_time"@),
        Element::Slime => Some("speed"@),
        Element::SpinningGun => Some("firing_rate"@),
        Element::Tiger => Some("firing_rate"@),
        Element::Head => Some("deviance"@),
        _ => None,
    }
}

/// The name that parameter 3 goes by for an element, if it has one.
pub open spec fn p3_alias_spec(e: Element) -> Option<Seq<char>> {
    match e {
        Element::Passage => Some("destination"@),
        Element::SpinningGun => Some("firing_type"@),
        Element::Tiger => Some("firing_type"@),
        _ => None,
    }
}

/// An optional string slice seen as its characters.
pub open spec fn opt_str_view(o: Option<&str>) -> Option<Seq<char>> {
    match o {
        Some(s) => Some(s@),
        None => None,
    }
}

/// The parameter (1, 2 or 3) that `alias` names for an element, trying parameter 1 first.
pub open spec fn alias_param_spec(e: Element, alias: Seq<char>) -> Option<u8> {
    if p1_alias_spec(e) == Some(alias) {
        Some(1u8)
    } else if p2_alias_spec(e) == Some(alias) {
        Some(2u8)
    } else if p3_alias_spec(e) == Some(alias) {
        Some(3u8)
    } else {
        None
    }
}

/// The parameter that an alias names for some element: 1 for "char", "sensitivity",
/// "intelligence" and "start_time"; 2 for "rate", "period", "resting_time", "speed",
/// "firing_rate" and "deviance"; 3 for "destination" and "firing_type".
pub open spec fn any_alias_param(alias: Seq<char>) -> Option<u8> {
    if alias == "char"@ || alias == "sensitivity"@ || alias == "intelligence"@ || alias
        == "start_time"@ {
        Some(1u8)
    } else if alias == "rate"@ || alias == "period"@ || alias == "resting_time"@ || alias
        == "speed"@ || alias == "firing_rate"@ || alias == "deviance"@ {
        Some(2u8)
    } else if alias == "destination"@ || alias == "firing_type"@ {
        Some(3u8)
    } else {
        None
    }
}

/// The parameter an alias names: for the given element if it knows the alias, else for any
/// element.
pub open spec fn resolve_alias_spec(alias: Seq<char>, element: Option<Element>) -> Option<u8> {
    match element {
        Some(e) => match alias_param_spec(e, alias) {
            Some(p) => Some(p),
            None => any_alias_param(alias),
        },
        None => any_alias_param(alias),
    }
}

/// The text that describes an element number: the element's name, or "unknown (N)".
pub open spec fn element_name_text(id: u8) -> Seq<char> {
    match element_from_id(id) {
        Some(e) => element_name_spec(e),
        None => "unknown ("@ + decimal(id as nat) + ")"@,
    }
}

/// The number that an element name stands for.
pub open spec fn id_from_known_name(name: Seq<char>) -> Option<u8> {
    if name == "empty"@ {
        Some(0u8)
    } else if name == "board_edge"@ {
        Some(1u8)
    } else if name == "messenger"@ {
        Some(2u8)
    } else if name == "monitor"@ {
        Some(3u8)
    } else if name == "player"@ {
        Some(4u8)
    } else if name == "ammo"@ {
        Some(5u8)
    } else if name == "torch"@ {
        Some(6u8)
    } else if name == "gem"@ {
        Some(7u8)
    } else if name == "key"@ {
        Some(8u8)
    } else if name == "door"@ {
        Some(9u8)
    } else if name == "scroll"@ {
        Some(10u8)
    } else if name == "passage"@ {
        Some(11u8)
    } else if name == "duplicator"@ {
        Some(12u8)
    } else if name == "bomb"@ {
        Some(13u8)
    } else if name == "energizer"@ {
        Some(14u8)
    } else if name == "star"@ {
        Some(15u8)
    } else if name == "clockwise"@ {
        Some(16u8)
    } else if name == "counter"@ {
        Some(17u8)
    } else if name == "bullet"@ {
        Some(18u8)
    } else if name == "water"@ {
        Some(19u8)
    } else if name == "forest"@ {
        Some(20u8)
    } else if name == "solid"@ {
        Some(21u8)
    } else if name == "normal"@ {
        Some(22u8)
    } else if name == "breakable"@ {
        Some(23u8)
    } else if name == "boulder"@ {
        Some(24u8)
    } else if name == "sliderns"@ {
        Some(25u8)
    } else if name == "sliderew"@ {
        Some(26u8)
    } else if name == "fake"@ {
        Some(27u8)
    } else if name == "invisible"@ {
        Some(28u8)
    } else if name == "blinkwall"@ {
        Some(29u8)
    } else if name == "transporter"@ {
        Some(30u8)
    } else if name == "line"@ {
        Some(31u8)
    } else if name == "ricochet"@ {
        Some(32u8)
    } else if name == "blink_ray_h"@ {
        Some(33u8)
    } else if name == "bear"@ {
        Some(34u8)
    } else if name == "ruffian"@ {
        Some(35u8)
    } else if name == "object"@ {
        Some(36u8)
    } else if name == "slime"@ {
        Some(37u8)
    } else if name == "shark"@ {
        Some(38u8)
    } else if name == "spinninggun"@ {
        Some(39u8)
    } else if name == "pusher"@ {
        Some(40u8)
    } else if name == "lion"@ {
        Some(41u8)
    } else if name == "tiger"@ {
        Some(42u8)
    } else if name == "blink_ray_v"@ {
        Some(43u8)
    } else if name == "head"@ {
        Some(44u8)
    } else if name == "segment"@ {
        Some(45u8)
    } else if name == "text_blue"@ {
        Some(47u8)
    } else if name == "text_green"@ {
        Some(48u8)
    } else if name == "text_cyan"@ {
        Some(49u8)
    } else if name == "text_red"@ {
        Some(50u8)
    } else if name == "text_purple"@ {
        Some(51u8)
    } else if name == "text_brown"@ {
        Some(52u8)
    } else if name == "text_black"@ {
        Some(53u8)
    } else {
        None
    }
}

/// Whether `s` starts with the characters of `prefix`.
pub open spec fn has_prefix(s: Seq<char>, prefix: Seq<char>) -> bool {
    prefix.len() <= s.len() && s.subrange(0, prefix.len() as int) == prefix
}

/// Whether a character is an ASCII decimal digit.
pub open spec fn is_digit(c: char) -> bool {
    '0' <= c <= '9'
}

/// The value of a string of decimal digits.
pub open spec fn digits_value(d: Seq<char>) -> nat
    decreases d.len(),
{
    if d.len() == 0 {
        0
    } else {
        digits_value(d.drop_last()) * 10 + (d.last() as nat - '0' as nat) as nat
    }
}

/// Whether every character is a decimal digit.
pub open spec fn all_digits(d: Seq<char>) -> bool {
    forall|i: int| 0 <= i < d.len() ==> is_digit(#[trigger] d[i])
}

/// The characters after an optional leading `+`.
pub open spec fn unsigned_digits(s: Seq<char>) -> Seq<char> {
    if s.len() > 0 && s[0] == '+' {
        s.drop_first()
    } else {
        s
    }
}

/// What `str::parse::<u8>` accepts: an optional `+`, then one or more decimal digits whose
/// value is at most 255.
pub open spec fn parse_u8_spec(s: Seq<char>) -> Option<u8> {
    let d = unsigned_digits(s);
    if d.len() > 0 && all_digits(d) && digits_value(d) <= 255 {
        Some(digits_value(d) as u8)
    } else {
        None
    }
}

/// The number an element name stands for: "unknown_N" stands for N, any other name for the
/// element that has it.
pub open spec fn element_id_from_name_spec(name: Seq<char>) -> Option<u8> {
    if has_prefix(name, "unknown_"@) {
        parse_u8_spec(name.skip(8))
    } else {
        id_from_known_name(name)
    }
}

impl Element {
    /// The number that stands for this element in ZZT files.
    pub fn id(self) -> (r: u8)
        ensures
            r == element_id(self),
    {
        match self {
            Element::Empty => 0,
            Element::BoardEdge => 1,
            Element::Messenger => 2,
            Element::Monitor => 3,
            Element::Player => 4,
            Element::Ammo => 5,
            Element::Torch => 6,
            Element::Gem => 7,
            Element::Key => 8,
            Element::Door => 9,
            Element::Scroll => 10,
            Element::Passage => 11,
            Element::Duplicator => 12,
            Element::Bomb => 13,
            Element::Energizer => 14,
            Element::Star => 15,
            Element::Clockwise => 16,
            Element::Counter => 17,
            Element::Bullet => 18,
            Element::Water => 19,
            Element::Forest => 20,
            Element::Solid => 21,
            Element::Normal => 22,
            Element::Breakable => 23,
            Element::Boulder => 24,
            Element::SliderNs => 25,
            Element::SliderEw => 26,
            Element::Fake => 27,
            Element::Invisible => 28,
            Element::BlinkWall => 29,
            Element::Transporter => 30,
            Element::Line => 31,
            Element::Ricochet => 32,
            Element::BlinkRayH => 33,
            Element::Bear => 34,
            Element::Ruffian => 35,
            Element::Object => 36,
            Element::Slime => 37,
            Element::Shark => 38,
            Element::SpinningGun => 39,
            Element::Pusher => 40,
            Element::Lion => 41,
            Element::Tiger => 42,
            Element::BlinkRayV => 43,
            Element::Head => 44,
            Element::Segment => 45,
            Element::TextBlue => 47,
            Element::TextGreen => 48,
            Element::TextCyan => 49,
            Element::TextRed => 50,
            Element::TextPurple => 51,
            Element::TextBrown => 52,
            Element::TextBlack => 53,
        }
    }

    /// Try to convert a u8 to an Element: `None` for 46 and for numbers above 53.
    pub fn from_u8(id: u8) -> (r: Option<Element>)
        ensures
            r == element_from_id(id),
            r matches Some(e) ==> element_id(e) == id,
            r is None <==> (id == 46 || id > 53),
    {
        match id {
            0 => Some(Element::Empty),
            1 => Some(Element::BoardEdge),
            2 => Some(Element::Messenger),
            3 => Some(Element::Monitor),
            4 => Some(Element::Player),
            5 => Some(Element::Ammo),
            6 => Some(Element::Torch),
            7 => Some(Element::Gem),
            8 => Some(Element::Key),
            9 => Some(Element::Door),
            10 => Some(Element::Scroll),
            11 => Some(Element::Passage),
            12 => Some(Element::Duplicator),
            13 => Some(Element::Bomb),
            14 => Some(Element::Energizer),
            15 => Some(Element::Star),
            16 => Some(Element::Clockwise),
            17 => Some(Element::Counter),
            18 => Some(Element::Bullet),
            19 => Some(Element::Water),
            20 => Some(Element::Forest),
            21 => Some(Element::Solid),
            22 => Some(Element::Normal),
            23 => Some(Element::Breakable),
            24 => Some(Element::Boulder),
            25 => Some(Element::SliderNs),
            26 => Some(Element::SliderEw),
            27 => Some(Element::Fake),
            28 => Some(Element::Invisible),
            29 => Some(Element::BlinkWall),
            30 => Some(Element::Transporter),
            31 => Some(Element::Line),
            32 => Some(Element::Ricochet),
            33 => Some(Element::BlinkRayH),
            34 => Some(Element::Bear),
            35 => Some(Element::Ruffian),
            36 => Some(Element::Object),
            37 => Some(Element::Slime),
            38 => Some(Element::Shark),
            39 => Some(Element::SpinningGun),
            40 => Some(Element::Pusher),
            41 => Some(Element::Lion),
            42 => Some(Element::Tiger),
            43 => Some(Element::BlinkRayV),
            44 => Some(Element::Head),
            45 => Some(Element::Segment),
            47 => Some(Element::TextBlue),
            48 => Some(Element::TextGreen),
            49 => Some(Element::TextCyan),
            50 => Some(Element::TextRed),
            51 => Some(Element::TextPurple),
            52 => Some(Element::TextBrown),
            53 => Some(Element::TextBlack),
            _ => None,
        }
    }

    /// Get the human-readable name for this element.
    pub fn name(self) -> (r: &'static str)
        ensures
            r@ == element_name_spec(self),
    {
        match self {
            Element::Empty => "empty",
            Element::BoardEdge => "board_edge",
            Element::Messenger => "messenger",
            Element::Monitor => "monitor",
            Element::Player => "player",
            Element::Ammo => "ammo",
            Element::Torch => "torch",
            Element::Gem => "gem",
            Element::Key => "key",
            Element::Door => "door",
            Element::Scroll => "scroll",
            Element::Passage => "passage",
            Element::Duplicator => "duplicator",
            Element::Bomb => "bomb",
            Element::Energizer => "energizer",
            Element::Star => "star",
            Element::Clockwise => "clockwise",
            Element::Counter => "counter",
            Element::Bullet => "bullet",
            Element::Water => "water",
            Element::Forest => "forest",
            Element::Solid => "solid",
            Element::Normal => "normal",
            Element::Breakable => "breakable",
            Element::Boulder => "boulder",
            Element::SliderNs => "sliderns",
            Element::SliderEw => "sliderew",
            Element::Fake => "fake",
            Element::Invisible => "invisible",
            Element::BlinkWall => "blinkwall",
            Element::Transporter => "transporter",
            Element::Line => "line",
            Element::Ricochet => "ricochet",
            Element::BlinkRayH => "blink_ray_h",
            Element::Bear => "bear",
            Element::Ruffian => "ruffian",
            Element::Object => "object",
            Element::Slime => "slime",
            Element::Shark => "shark",
            Element::SpinningGun => "spinninggun",
            Element::Pusher => "pusher",
            Element::Lion => "lion",
            Element::Tiger => "tiger",
            Element::BlinkRayV => "blink_ray_v",
            Element::Head => "head",
            Element::Segment => "segment",
            Element::TextBlue => "text_blue",
            Element::TextGreen => "text_green",
            Element::TextCyan => "text_cyan",
            Element::TextRed => "text_red",
            Element::TextPurple => "text_purple",
            Element::TextBrown => "text_brown",
            Element::TextBlack => "text_black",
        }
    }

    /// Get the alias for parameter 1 based on element type.
    pub fn p1_alias(self) -> (r: Option<&'static str>)
        ensures
            opt_str_view(r) == p1_alias_spec(self),
    {
        match self {
            Element::BlinkWall => Some("start_time"),
            Element::Bear => Some("sensitivity"),
            Element::Ruffian => Some("intelligence"),
            Element::Object => Some("char"),
            Element::Shark => Some("intelligence"),
            Element::SpinningGun => Some("intelligence"),
            Element::Lion => Some("intelligence"),
            Element::Tiger => Some("intelligence"),
            Element::Head => Some("intelligence"),
            _ => None,
        }
    }

    /// Get the alias for parameter 2 based on element type.
    pub fn p2_alias(self) -> (r: Option<&'static str>)
        ensures
            opt_str_view(r) == p2_alias_spec(self),
    {
        match self {
            Element::Duplicator => Some("rate"),
            Element::BlinkWall => Some("period"),
            Element::Ruffian => Some("resting_time"),
            Element::Slime => Some("speed"),
            Element::SpinningGun => Some("firing_rate"),
            Element::Tiger => Some("firing_rate"),
            Element::Head => Some("deviance"),
            _ => None,
        }
    }

    /// Get the alias for parameter 3 based on element type.
    pub fn p3_alias(self) -> (r: Option<&'static str>)
        ensures
            opt_str_view(r) == p3_alias_spec(self),
    {
        match self {
            Element::Passage => Some("destination"),
            Element::SpinningGun => Some("firing_type"),
            Element::Tiger => Some("firing_type"),
            _ => None,
        }
    }

    /// Map an alias name to the parameter number (1, 2, or 3) it names for this element.
    pub fn alias_to_param(self, alias: &str) -> (r: Option<u8>)
        ensures
            r == alias_param_spec(self, alias@),
    {
        if opt_eq(self.p1_alias(), alias) {
            Some(1)
        } else if opt_eq(self.p2_alias(), alias) {
            Some(2)
        } else if opt_eq(self.p3_alias(), alias) {
            Some(3)
        } else {
            None
        }
    }
}

/// Whether an optional string slice is `Some` of the characters of `s`.
fn opt_eq(o: Option<&str>, s: &str) -> (r: bool)
    ensures
        r == (opt_str_view(o) == Some(s@)),
{
    match o {
        Some(a) => str_eq(a, s),
        None => false,
    }
}

/// Whether `alias` is one of two names.
fn is_one_of(alias: &str, a: &str, b: &str) -> (r: bool)
    ensures
        r == (alias@ == a@ || alias@ == b@),
{
    str_eq(alias, a) || str_eq(alias, b)
}

/// Resolve an alias name to a parameter number, with optional element context: the element's
/// own aliases come first, then all known aliases.
pub fn resolve_alias(alias: &str, element: Option<Element>) -> (r: Option<u8>)
    ensures
        r == resolve_alias_spec(alias@, element),
{
    if let Some(elem) = element {
        if let Some(param) = elem.alias_to_param(alias) {
            return Some(param);
        }
    }
    if is_one_of(alias, "char", "sensitivity") || is_one_of(alias, "intelligence", "start_time") {
        return Some(1);
    }
    if is_one_of(alias, "rate", "period") || is_one_of(alias, "resting_time", "speed")
        || is_one_of(alias, "firing_rate", "deviance") {
        return Some(2);
    }
    if is_one_of(alias, "destination", "firing_type") {
        return Some(3);
    }
    None
}

/// Get the human-readable name for an element number, or describe an unknown one as
/// "unknown (N)".
pub fn element_name(id: u8) -> (r: String)
    ensures
        r@ == element_name_text(id),
{
    match Element::from_u8(id) {
        Some(e) => String::from_str(e.name()),
        None => {
            let mut s = String::from_str("unknown (");
            push_decimal(&mut s, id as u64);
            s.append(")");
            s
        },
    }
}

/// The value of `str::parse::<u8>` on the characters of `s`, or `None` where it fails.
fn parse_u8(s: &[char]) -> (r: Option<u8>)
    ensures
        r == parse_u8_spec(s@),
{
    let start: usize = if s.len() > 0 && s[0] == '+' {
        1
    } else {
        0
    };
    let ghost d = unsigned_digits(s@);
    assert(d =~= s@.skip(start as int));
    if start == s.len() {
        return None;
    }
    let mut value: u32 = 0;
    let mut i: usize = start;
    assert(s@.subrange(start as int, start as int) =~= Seq::<char>::empty());
    while i < s.len()
        invariant
            start <= i <= s.len(),
            start < s.len(),
            d == unsigned_digits(s@),
            d =~= s@.skip(start as int),
            value <= 255,
            value == digits_value(s@.subrange(start as int, i as int)),
            forall|j: int| start <= j < i ==> is_digit(#[trigger] s@[j]),
        decreases s.len() - i,
    {
        let c = s[i];
        if !('0' <= c && c <= '9') {
            assert(!is_digit(d[i - start]));
            return None;
        }
        let ghost prev = s@.subrange(start as int, i as int);
        assert(s@.subrange(start as int, i + 1).drop_last() =~= prev);
        value = value * 10 + (c as u32 - '0' as u32);
        i += 1;
        if value > 255 {
            proof {
                lemma_digits_value_prefix(d, i - start);
                assert(d.subrange(0, i - start) =~= s@.subrange(start as int, i as int));
            }
            return None;
        }
    }
    assert(s@.subrange(start as int, i as int) =~= d);
    Some(value as u8)
}

/// Extending a string of digits never lowers its value.
pub proof fn lemma_digits_value_prefix(d: Seq<char>, k: int)
    requires
        0 <= k <= d.len(),
    ensures
        all_digits(d) ==> digits_value(d.subrange(0, k)) <= digits_value(d),
    decreases d.len(),
{
    if k < d.len() {
        assert(d.drop_last().subrange(0, k) =~= d.subrange(0, k));
        lemma_digits_value_prefix(d.drop_last(), k);
        if all_digits(d) {
            assert forall|i: int| 0 <= i < d.drop_last().len() implies is_digit(
                #[trigger] d.drop_last()[i],
            ) by {
                assert(d.drop_last()[i] == d[i]);
            }
        }
    } else {
        assert(d.subrange(0, k) =~= d);
    }
}

/// Convert an element name back to its number. "unknown_N" gives N, where N is what
/// `str::parse::<u8>` accepts.
pub fn element_id_from_name(name: &str) -> (r: Option<u8>)
    ensures
        r == element_id_from_name_spec(name@),
{
    let cs = str_chars(name);
    let prefix = str_chars("unknown_");
    if starts_with(&cs, &prefix) {
        proof {
            reveal_strlit("unknown_");
        }
        let mut rest: Vec<char> = Vec::new();
        let mut i: usize = 8;
        while i < cs.len()
            invariant
                8 <= i <= cs.len(),
                rest@ =~= cs@.subrange(8, i as int),
            decreases cs.len() - i,
        {
            rest.push(cs[i]);
            i += 1;
        }
        assert(rest@ =~= name@.skip(8));
        return parse_u8(rest.as_slice());
    }
    if str_eq(name, "empty") {
        return Some(0);
    }
    if str_eq(name, "board_edge") {
        return Some(1);
    }
    if str_eq(name, "messenger") {
        return Some(2);
    }
    if str_eq(name, "monitor") {
        return Some(3);
    }
    if str_eq(name, "player") {
        return Some(4);
    }
    if str_eq(name, "ammo") {
        return Some(5);
    }
    if str_eq(name, "torch") {
        return Some(6);
    }
    if str_eq(name, "gem") {
        return Some(7);
    }
    if str_eq(name, "key") {
        return Some(8);
    }
    if str_eq(name, "door") {
        return Some(9);
    }
    if str_eq(name, "scroll") {
        return Some(10);
    }
    if str_eq(name, "passage") {
        return Some(11);
    }
    if str_eq(name, "duplicator") {
        return Some(12);
    }
    if str_eq(name, "bomb") {
        return Some(13);
    }
    if str_eq(name, "energizer") {
        return Some(14);
    }
    if str_eq(name, "star") {
        return Some(15);
    }
    if str_eq(name, "clockwise") {
        return Some(16);
    }
    if str_eq(name, "counter") {
        return Some(17);
    }
    if str_eq(name, "bullet") {
        return Some(18);
    }
    if str_eq(name, "water") {
        return Some(19);
    }
    if str_eq(name, "forest") {
        return Some(20);
    }
    if str_eq(name, "solid") {
        return Some(21);
    }
    if str_eq(name, "normal") {
        return Some(22);
    }
    if str_eq(name, "breakable") {
        return Some(23);
    }
    if str_eq(name, "boulder") {
        return Some(24);
    }
    if str_eq(name, "sliderns") {
        return Some(25);
    }
    if str_eq(name, "sliderew") {
        return Some(26);
    }
    if str_eq(name, "fake") {
        return Some(27);
    }
    if str_eq(name, "invisible") {
        return Some(28);
    }
    if str_eq(name, "blinkwall") {
        return Some(29);
    }
    if str_eq(name, "transporter") {
        return Some(30);
    }
    if str_eq(name, "line") {
        return Some(31);
    }
    if str_eq(name, "ricochet") {
        return Some(32);
    }
    if str_eq(name, "blink_ray_h") {
        return Some(33);
    }
    if str_eq(name, "bear") {
        return Some(34);
    }
    if str_eq(name, "ruffian") {
        return Some(35);
    }
    if str_eq(name, "object") {
        return Some(36);
    }
    if str_eq(name, "slime") {
        return Some(37);
    }
    if str_eq(name, "shark") {
        return Some(38);
    }
    if str_eq(name, "spinninggun") {
        return Some(39);
    }
    if str_eq(name, "pusher") {
        return Some(40);
    }
    if str_eq(name, "lion") {
        return Some(41);
    }
    if str_eq(name, "tiger") {
        return Some(42);
    }
    if str_eq(name, "blink_ray_v") {
        return Some(43);
    }
    if str_eq(name, "head") {
        return Some(44);
    }
    if str_eq(name, "segment") {
        return Some(45);
    }
    if str_eq(name, "text_blue") {
        return Some(47);
    }
    if str_eq(name, "text_green") {
        return Some(48);
    }
    if str_eq(name, "text_cyan") {
        return Some(49);
    }
    if str_eq(name, "text_red") {
        return Some(50);
    }
    if str_eq(name, "text_purple") {
        return Some(51);
    }
    if str_eq(name, "text_brown") {
        return Some(52);
    }
    if str_eq(name, "text_black") {
        return Some(53);
    }
    None
}

/// Whether the characters `s` start with `prefix`.
fn starts_with(s: &Vec<char>, prefix: &Vec<char>) -> (r: bool)
    ensures
        r == has_prefix(s@, prefix@),
{
    if prefix.len() > s.len() {
        return false;
    }
    let mut i: usize = 0;
    while i < prefix.len()
        invariant
            prefix.len() <= s.len(),
            i <= prefix.len(),
            forall|j: int| 0 <= j < i ==> s@[j] == prefix@[j],
        decreases prefix.len() - i,
    {
        if s[i] != prefix[i] {
            assert(s@.subrange(0, prefix.len() as int)[i as int] != prefix@[i as int]);
            return false;
        }
        i += 1;
    }
    assert(s@.subrange(0, prefix.len() as int) =~= prefix@);
    true
}

/// Numbers and elements correspond one to one: the element a number stands for has that
/// number, and each element's number stands for it.
pub proof fn lemma_element_id_roundtrip(e: Element, id: u8)
    ensures
        element_from_id(element_id(e)) == Some(e),
        element_from_id(id) matches Some(x) ==> element_id(x) == id,
{
}


/// Element names and numbers correspond: the name of an element converts back to its
/// number.
pub proof fn lemma_name_roundtrip(e: Element)
    ensures
        element_id_from_name_spec(element_name_spec(e)) == Some(element_id(e)),
{
    reveal_strlit("unknown_");
    reveal_strlit("empty");
    reveal_strlit("board_edge");
    reveal_strlit("messenger");
    reveal_strlit("monitor");
    reveal_strlit("player");
    reveal_strlit("ammo");
    reveal_strlit("torch");
    reveal_strlit("gem");
    reveal_strlit("key");
    reveal_strlit("door");
    reveal_strlit("scroll");
    reveal_strlit("passage");
    reveal_strlit("duplicator");
    reveal_strlit("bomb");
    reveal_strlit("energizer");
    reveal_strlit("star");
    reveal_strlit("clockwise");
    reveal_strlit("counter");
    reveal_strlit("bullet");
    reveal_strlit("water");
    reveal_strlit("forest");
    reveal_strlit("solid");
    reveal_strlit("normal");
    reveal_strlit("breakable");
    reveal_strlit("boulder");
    reveal_strlit("sliderns");
    reveal_strlit("sliderew");
    reveal_strlit("fake");
    reveal_strlit("invisible");
    reveal_strlit("blinkwall");
    reveal_strlit("transporter");
    reveal_strlit("line");
    reveal_strlit("ricochet");
    reveal_strlit("blink_ray_h");
    reveal_strlit("bear");
    reveal_strlit("ruffian");
    reveal_strlit("object");
    reveal_strlit("slime");
    reveal_strlit("shark");
    reveal_strlit("spinninggun");
    reveal_strlit("pusher");
    reveal_strlit("lion");
    reveal_strlit("tiger");
    reveal_strlit("blink_ray_v");
    reveal_strlit("head");
    reveal_strlit("segment");
    reveal_strlit("text_blue");
    reveal_strlit("text_green");
    reveal_strlit("text_cyan");
    reveal_strlit("text_red");
    reveal_strlit("text_purple");
    reveal_strlit("text_brown");
    reveal_strlit("text_black");
    match e {
        Element::Empty => {
        },
        Element::BoardEdge => {
            assert("board_edge"@[0] != "unknown_"@[0]);
        },
        Element::Messenger => {
            assert("messenger"@[0] != "unknown_"@[0]);
        },
        Element::Monitor => {
        },
        Element::Player => {
        },
        Element::Ammo => {
        },
        Element::Torch => {
            assert("torch"@[0] != "empty"@[0]);
        },
        Element::Gem => {
        },
        Element::Key => {
            assert("key"@[0] != "gem"@[0]);
        },
        Element::Door => {
            assert("door"@[0] != "ammo"@[0]);
        },
        Element::Scroll => {
            assert("scroll"@[0] != "player"@[0]);
        },
        Element::Passage => {
            assert("passage"@[0] != "monitor"@[0]);
        },
        Element::Duplicator => {
            assert("duplicator"@[0] != "unknown_"@[0]);
            assert("duplicator"@[0] != "board_edge"@[0]);
        },
        Element::Bomb => {
            assert("bomb"@[0] != "ammo"@[0]);
            assert("bomb"@[0] != "door"@[0]);
        },
        Element::Energizer => {
            assert("energizer"@[0] != "unknown_"@[0]);
            assert("energizer"@[0] != "messenger"@[0]);
        },
        Element::Star => {
            assert("star"@[0] != "ammo"@[0]);
            assert("star"@[0] != "door"@[0]);
            assert("star"@[0] != "bomb"@[0]);
        },
        Element::Clockwise => {
            assert("clockwise"@[0] != "unknown_"@[0]);
            assert("clockwise"@[0] != "messenger"@[0]);
            assert("clockwise"@[0] != "energizer"@[0]);
        },
        Element::Counter => {
            assert("counter"@[0] != "monitor"@[0]);
            assert("counter"@[0] != "passage"@[0]);
        },
        Element::Bullet => {
            assert("bullet"@[0] != "player"@[0]);
            assert("bullet"@[0] != "scroll"@[0]);
        },
        Element::Water => {
            assert("water"@[0] != "empty"@[0]);
            assert("water"@[0] != "torch"@[0]);
        },
        Element::Forest => {
            assert("forest"@[0] != "player"@[0]);
            assert("forest"@[0] != "scroll"@[0]);
            assert("forest"@[0] != "bullet"@[0]);
        },
        Element::Solid => {
            assert("solid"@[0] != "empty"@[0]);
            assert("solid"@[0] != "torch"@[0]);
            assert("solid"@[0] != "water"@[0]);
        },
        Element::Normal => {
            assert("normal"@[0] != "player"@[0]);
            assert("normal"@[0] != "scroll"@[0]);
            assert("normal"@[0] != "bullet"@[0]);
            assert("normal"@[0] != "forest"@[0]);
        },
        Element::Breakable => {
            assert("breakable"@[0] != "unknown_"@[0]);
            assert("breakable"@[0] != "messenger"@[0]);
            assert("breakable"@[0] != "energizer"@[0]);
            assert("breakable"@[0] != "clockwise"@[0]);
        },
        Element::Boulder => {
            assert("boulder"@[0] != "monitor"@[0]);
            assert("boulder"@[0] != "passage"@[0]);
            assert("boulder"@[0] != "counter"@[0]);
        },
        Element::SliderNs => {
            assert("sliderns"@[0] != "unknown_"@[0]);
        },
        Element::SliderEw => {
            assert("sliderew"@[0] != "unknown_"@[0]);
            assert("sliderew"@[6] != "sliderns"@[6]);
        },
        Element::Fake => {
            assert("fake"@[0] != "ammo"@[0]);
            assert("fake"@[0] != "door"@[0]);
            assert("fake"@[0] != "bomb"@[0]);
            assert("fake"@[0] != "star"@[0]);
        },
        Element::Invisible => {
            assert("invisible"@[0] != "unknown_"@[0]);
            assert("invisible"@[0] != "messenger"@[0]);
            assert("invisible"@[0] != "energizer"@[0]);
            assert("invisible"@[0] != "clockwise"@[0]);
            assert("invisible"@[0] != "breakable"@[0]);
        },
        Element::BlinkWall => {
            assert("blinkwall"@[0] != "unknown_"@[0]);
            assert("blinkwall"@[0] != "messenger"@[0]);
            assert("blinkwall"@[0] != "energizer"@[0]);
            assert("blinkwall"@[0] != "clockwise"@[0]);
            assert("blinkwall"@[1] != "breakable"@[1]);
            assert("blinkwall"@[0] != "invisible"@[0]);
        },
        Element::Transporter => {
            assert("transporter"@[0] != "unknown_"@[0]);
        },
        Element::Line => {
            assert("line"@[0] != "ammo"@[0]);
            assert("line"@[0] != "door"@[0]);
            assert("line"@[0] != "bomb"@[0]);
            assert("line"@[0] != "star"@[0]);
            assert("line"@[0] != "fake"@[0]);
        },
        Element::Ricochet => {
            assert("ricochet"@[0] != "unknown_"@[0]);
            assert("ricochet"@[0] != "sliderns"@[0]);
            assert("ricochet"@[0] != "sliderew"@[0]);
        },
        Element::BlinkRayH => {
            assert("blink_ray_h"@[0] != "unknown_"@[0]);
            assert("blink_ray_h"@[0] != "transporter"@[0]);
        },
        Element::Bear => {
            assert("bear"@[0] != "ammo"@[0]);
            assert("bear"@[0] != "door"@[0]);
            assert("bear"@[1] != "bomb"@[1]);
            assert("bear"@[0] != "star"@[0]);
            assert("bear"@[0] != "fake"@[0]);
            assert("bear"@[0] != "line"@[0]);
        },
        Element::Ruffian => {
            assert("ruffian"@[0] != "monitor"@[0]);
            assert("ruffian"@[0] != "passage"@[0]);
            assert("ruffian"@[0] != "counter"@[0]);
            assert("ruffian"@[0] != "boulder"@[0]);
        },
        Element::Object => {
            assert("object"@[0] != "player"@[0]);
            assert("object"@[0] != "scroll"@[0]);
            assert("object"@[0] != "bullet"@[0]);
            assert("object"@[0] != "forest"@[0]);
            assert("object"@[0] != "normal"@[0]);
        },
        Element::Slime => {
            assert("slime"@[0] != "empty"@[0]);
            assert("slime"@[0] != "torch"@[0]);
            assert("slime"@[0] != "water"@[0]);
            assert("slime"@[1] != "solid"@[1]);
        },
        Element::Shark => {
            assert("shark"@[0] != "empty"@[0]);
            assert("shark"@[0] != "torch"@[0]);
            assert("shark"@[0] != "water"@[0]);
            assert("shark"@[1] != "solid"@[1]);
            assert("shark"@[1] != "slime"@[1]);
        },
        Element::SpinningGun => {
            assert("spinninggun"@[0] != "unknown_"@[0]);
            assert("spinninggun"@[0] != "transporter"@[0]);
            assert("spinninggun"@[0] != "blink_ray_h"@[0]);
        },
        Element::Pusher => {
            assert("pusher"@[1] != "player"@[1]);
            assert("pusher"@[0] != "scroll"@[0]);
            assert("pusher"@[0] != "bullet"@[0]);
            assert("pusher"@[0] != "forest"@[0]);
            assert("pusher"@[0] != "normal"@[0]);
            assert("pusher"@[0] != "object"@[0]);
        },
        Element::Lion => {
            assert("lion"@[0] != "ammo"@[0]);
            assert("lion"@[0] != "door"@[0]);
            assert("lion"@[0] != "bomb"@[0]);
            assert("lion"@[0] != "star"@[0]);
            assert("lion"@[0] != "fake"@[0]);
            assert("lion"@[2] != "line"@[2]);
            assert("lion"@[0] != "bear"@[0]);
        },
        Element::Tiger => {
            assert("tiger"@[0] != "empty"@[0]);
            assert("tiger"@[1] != "torch"@[1]);
            assert("tiger"@[0] != "water"@[0]);
            assert("tiger"@[0] != "solid"@[0]);
            assert("tiger"@[0] != "slime"@[0]);
            assert("tiger"@[0] != "shark"@[0]);
        },
        Element::BlinkRayV => {
            assert("blink_ray_v"@[0] != "unknown_"@[0]);
            assert("blink_ray_v"@[0] != "transporter"@[0]);
            assert("blink_ray_v"@[10] != "blink_ray_h"@[10]);
            assert("blink_ray_v"@[0] != "spinninggun"@[0]);
        },
        Element::Head => {
            assert("head"@[0] != "ammo"@[0]);
            assert("head"@[0] != "door"@[0]);
            assert("head"@[0] != "bomb"@[0]);
            assert("head"@[0] != "star"@[0]);
            assert("head"@[0] != "fake"@[0]);
            assert("head"@[0] != "line"@[0]);
            assert("head"@[0] != "bear"@[0]);
            assert("head"@[0] != "lion"@[0]);
        },
        Element::Segment => {
            assert("segment"@[0] != "monitor"@[0]);
            assert("segment"@[0] != "passage"@[0]);
            assert("segment"@[0] != "counter"@[0]);
            assert("segment"@[0] != "boulder"@[0]);
            assert("segment"@[0] != "ruffian"@[0]);
        },
        Element::TextBlue => {
            assert("text_blue"@[0] != "unknown_"@[0]);
            assert("text_blue"@[0] != "messenger"@[0]);
            assert("text_blue"@[0] != "energizer"@[0]);
            assert("text_blue"@[0] != "clockwise"@[0]);
            assert("text_blue"@[0] != "breakable"@[0]);
            assert("text_blue"@[0] != "invisible"@[0]);
            assert("text_blue"@[0] != "blinkwall"@[0]);
        },
        Element::TextGreen => {
            assert("text_green"@[0] != "unknown_"@[0]);
            assert("text_green"@[0] != "board_edge"@[0]);
            assert("text_green"@[0] != "duplicator"@[0]);
        },
        Element::TextCyan => {
            assert("text_cyan"@[0] != "unknown_"@[0]);
            assert("text_cyan"@[0] != "messenger"@[0]);
            assert("text_cyan"@[0] != "energizer"@[0]);
            assert("text_cyan"@[0] != "clockwise"@[0]);
            assert("text_cyan"@[0] != "breakable"@[0]);
            assert("text_cyan"@[0] != "invisible"@[0]);
            assert("text_cyan"@[0] != "blinkwall"@[0]);
            assert("text_cyan"@[5] != "text_blue"@[5]);
        },
        Element::TextRed => {
            assert("text_red"@[0] != "unknown_"@[0]);
            assert("text_red"@[0] != "sliderns"@[0]);
            assert("text_red"@[0] != "sliderew"@[0]);
            assert("text_red"@[0] != "ricochet"@[0]);
        },
        Element::TextPurple => {
            assert("text_purple"@[0] != "unknown_"@[0]);
            assert("text_purple"@[1] != "transporter"@[1]);
            assert("text_purple"@[0] != "blink_ray_h"@[0]);
            assert("text_purple"@[0] != "spinninggun"@[0]);
            assert("text_purple"@[0] != "blink_ray_v"@[0]);
        },
        Element::TextBrown => {
            assert("text_brown"@[0] != "unknown_"@[0]);
            assert("text_brown"@[0] != "board_edge"@[0]);
            assert("text_brown"@[0] != "duplicator"@[0]);
            assert("text_brown"@[5] != "text_green"@[5]);
        },
        Element::TextBlack => {
            assert("text_black"@[0] != "unknown_"@[0]);
            assert("text_black"@[0] != "board_edge"@[0]);
            assert("text_black"@[0] != "duplicator"@[0]);
            assert("text_black"@[5] != "text_green"@[5]);
            assert("text_black"@[6] != "text_brown"@[6]);
        },
    }
}

impl From<Element> for u8 {
    fn from(e: Element) -> (r: u8) {
        e.id()
    }
}

impl vstd::std_specs::convert::FromSpecImpl<Element> for u8 {
    open spec fn obeys_from_spec() -> bool {
        true
    }

    open spec fn from_spec(e: Element) -> u8 {
        element_id(e)
    }
}


/// A character that element names are made of: a lower-case ASCII letter or `_`.
pub open spec fn name_char(c: char) -> bool {
    ('a' <= c <= 'z') || c == '_'
}

/// Every element name is non-empty, made of lower-case letters and underscores, and does not
/// start with "unknown" (the form that stands for numbers without an element).
pub proof fn lemma_name_form(e: Element)
    ensures
        element_name_spec(e).len() > 0,
        forall|i: int| 0 <= i < element_name_spec(e).len() ==> name_char(#[trigger] element_name_spec(e)[i]),
        !has_prefix(element_name_spec(e), "unknown"@),
{
    reveal_strlit("unknown");
    reveal_strlit("empty");
    reveal_strlit("board_edge");
    reveal_strlit("messenger");
    reveal_strlit("monitor");
    reveal_strlit("player");
    reveal_strlit("ammo");
    reveal_strlit("torch");
    reveal_strlit("gem");
    reveal_strlit("key");
    reveal_strlit("door");
    reveal_strlit("scroll");
    reveal_strlit("passage");
    reveal_strlit("duplicator");
    reveal_strlit("bomb");
    reveal_strlit("energizer");
    reveal_strlit("star");
    reveal_strlit("clockwise");
    reveal_strlit("counter");
    reveal_strlit("bullet");
    reveal_strlit("water");
    reveal_strlit("forest");
    reveal_strlit("solid");
    reveal_strlit("normal");
    reveal_strlit("breakable");
    reveal_strlit("boulder");
    reveal_strlit("sliderns");
    reveal_strlit("sliderew");
    reveal_strlit("fake");
    reveal_strlit("invisible");
    reveal_strlit("blinkwall");
    reveal_strlit("transporter");
    reveal_strlit("line");
    reveal_strlit("ricochet");
    reveal_strlit("blink_ray_h");
    reveal_strlit("bear");
    reveal_strlit("ruffian");
    reveal_strlit("object");
    reveal_strlit("slime");
    reveal_strlit("shark");
    reveal_strlit("spinninggun");
    reveal_strlit("pusher");
    reveal_strlit("lion");
    reveal_strlit("tiger");
    reveal_strlit("blink_ray_v");
    reveal_strlit("head");
    reveal_strlit("segment");
    reveal_strlit("text_blue");
    reveal_strlit("text_green");
    reveal_strlit("text_cyan");
    reveal_strlit("text_red");
    reveal_strlit("text_purple");
    reveal_strlit("text_brown");
    reveal_strlit("text_black");
    let s = element_name_spec(e);
    match e {
        Element::Empty => {
            assert forall|i: int| 0 <= i < s.len() implies name_char(#[trigger] s[i]) by {
                assert(i == 0 || i == 1 || i == 2 || i == 3 || i == 4);
            }
            assert(s[0] != "unknown"@[0]);
        },
        Element::BoardEdge => {
            assert forall|i: int| 0 <= i < s.len() implies name_char(#[trigger] s[i]) by {
                assert(i == 0 || i == 1 || i == 2 || i == 3 || i == 4 || i == 5 || i == 6 || i == 7 || i == 8 || i == 9);
            }
            assert(s[0] != "unknown"@[0]);
        },
        Element::Messenger => {
            assert forall|i: int| 0 <= i < s.len() implies name_char(#[trigger] s[i]) by {
                assert(i == 0 || i == 1 || i == 2 || i == 3 || i == 4 || i == 5 || i == 6 || i == 7 || i == 8);
            }
            assert(s[0] != "unknown"@[0]);
        },
        Element::Monitor => {
            assert forall|i: int| 0 <= i < s.len() implies name_char(#[trigger] s[i]) by {
                assert(i == 0 || i == 1 || i == 2 || i == 3 || i == 4 || i == 5 || i == 6);
            }
            assert(s[0] != "unknown"@[0]);
        },
        Element::Player => {
            assert forall|i: int| 0 <= i < s.len() implies name_char(#[trigger] s[i]) by {
                assert(i == 0 || i == 1 || i == 2 || i == 3 || i == 4 || i == 5);
            }
            assert(s[0] != "unknown"@[0]);
        },
        Element::Ammo => {
            assert forall|i: int| 0 <= i < s.len() implies name_char(#[trigger] s[i]) by {
                assert(i == 0 || i == 1 || i == 2 || i == 3);
            }
            assert(s[0] != "unknown"@[0]);
        },
        Element::Torch => {
            assert forall|i: int| 0 <= i < s.len() implies name_char(#[trigger] s[i]) by {
                assert(i == 0 || i == 1 || i == 2 || i == 3 || i == 4);
            }
            assert(s[0] != "unknown"@[0]);
        },
        Element::Gem => {
            assert forall|i: int| 0 <= i < s.len() implies name_char(#[trigger] s[i]) by {
                assert(i == 0 || i == 1 || i == 2);
            }
            assert(s[0] != "unknown"@[0]);
        },
        Element::Key => {
            assert forall|i: int| 0 <= i < s.len() implies name_char(#[trigger] s[i]) by {
                assert(i == 0 || i == 1 || i == 2);
            }
            assert(s[0] != "unknown"@[0]);
        },
        Element::Door => {
            assert forall|i: int| 0 <= i < s.len() implies name_char(#[trigger] s[i]) by {
                assert(i == 0 || i == 1 || i == 2 || i == 3);
            }
            assert(s[0] != "unknown"@[0]);
        },
        Element::Scroll => {
            assert forall|i: int| 0 <= i < s.len() implies name_char(#[trigger] s[i]) by {
                assert(i == 0 || i == 1 || i == 2 || i == 3 || i == 4 || i == 5);
            }
            assert(s[0] != "unknown"@[0]);
        },
        Element::Passage => {
            assert forall|i: int| 0 <= i < s.len() implies name_char(#[trigger] s[i]) by {
                assert(i == 0 || i == 1 || i == 2 || i == 3 || i == 4 || i == 5 || i == 6);
            }
            assert(s[0] != "unknown"@[0]);
        },
        Element::Duplicator => {
            assert forall|i: int| 0 <= i < s.len() implies name_char(#[trigger] s[i]) by {
                assert(i == 0 || i == 1 || i == 2 || i == 3 || i == 4 || i == 5 || i == 6 || i == 7 || i == 8 || i == 9);
            }
            assert(s[0] != "unknown"@[0]);
        },
        Element::Bomb => {
            assert forall|i: int| 0 <= i < s.len() implies name_char(#[trigger] s[i]) by {
                assert(i == 0 || i == 1 || i == 2 || i == 3);
            }
            assert(s[0] != "unknown"@[0]);
        },
        Element::Energizer => {
            assert forall|i: int| 0 <= i < s.len() implies name_char(#[trigger] s[i]) by {
                assert(i == 0 || i == 1 || i == 2 || i == 3 || i == 4 || i == 5 || i == 6 || i == 7 || i == 8);
            }
            assert(s[0] != "unknown"@[0]);
        },
        Element::Star => {
            assert forall|i: int| 0 <= i < s.len() implies name_char(#[trigger] s[i]) by {
                assert(i == 0 || i == 1 || i == 2 || i == 3);
            }
            assert(s[0] != "unknown"@[0]);
        },
        Element::Clockwise => {
            assert forall|i: int| 0 <= i < s.len() implies name_char(#[trigger] s[i]) by {
                assert(i == 0 || i == 1 || i == 2 || i == 3 || i == 4 || i == 5 || i == 6 || i == 7 || i == 8);
            }
            assert(s[0] != "unknown"@[0]);
        },
        Element::Counter => {
            assert forall|i: int| 0 <= i < s.len() implies name_char(#[trigger] s[i]) by {
                assert(i == 0 || i == 1 || i == 2 || i == 3 || i == 4 || i == 5 || i == 6);
            }
            assert(s[0] != "unknown"@[0]);
        },
        Element::Bullet => {
            assert forall|i: int| 0 <= i < s.len() implies name_char(#[trigger] s[i]) by {
                assert(i == 0 || i == 1 || i == 2 || i == 3 || i == 4 || i == 5);
            }
            assert(s[0] != "unknown"@[0]);
        },
        Element::Water => {
            assert forall|i: int| 0 <= i < s.len() implies name_char(#[trigger] s[i]) by {
                assert(i == 0 || i == 1 || i == 2 || i == 3 || i == 4);
            }
            assert(s[0] != "unknown"@[0]);
        },
        Element::Forest => {
            assert forall|i: int| 0 <= i < s.len() implies name_char(#[trigger] s[i]) by {
                assert(i == 0 || i == 1 || i == 2 || i == 3 || i == 4 || i == 5);
            }
            assert(s[0] != "unknown"@[0]);
        },
        Element::Solid => {
            assert forall|i: int| 0 <= i < s.len() implies name_char(#[trigger] s[i]) by {
                assert(i == 0 || i == 1 || i == 2 || i == 3 || i == 4);
            }
            assert(s[0] != "unknown"@[0]);
        },
        Element::Normal => {
            assert forall|i: int| 0 <= i < s.len() implies name_char(#[trigger] s[i]) by {
                assert(i == 0 || i == 1 || i == 2 || i == 3 || i == 4 || i == 5);
            }
            assert(s[0] != "unknown"@[0]);
        },
        Element::Breakable => {
            assert forall|i: int| 0 <= i < s.len() implies name_char(#[trigger] s[i]) by {
                assert(i == 0 || i == 1 || i == 2 || i == 3 || i == 4 || i == 5 || i == 6 || i == 7 || i == 8);
            }
            assert(s[0] != "unknown"@[0]);
        },
        Element::Boulder => {
            assert forall|i: int| 0 <= i < s.len() implies name_char(#[trigger] s[i]) by {
                assert(i == 0 || i == 1 || i == 2 || i == 3 || i == 4 || i == 5 || i == 6);
            }
            assert(s[0] != "unknown"@[0]);
        },
        Element::SliderNs => {
            assert forall|i: int| 0 <= i < s.len() implies name_char(#[trigger] s[i]) by {
                assert(i == 0 || i == 1 || i == 2 || i == 3 || i == 4 || i == 5 || i == 6 || i == 7);
            }
            assert(s[0] != "unknown"@[0]);
        },
        Element::SliderEw => {
            assert forall|i: int| 0 <= i < s.len() implies name_char(#[trigger] s[i]) by {
                assert(i == 0 || i == 1 || i == 2 || i == 3 || i == 4 || i == 5 || i == 6 || i == 7);
            }
            assert(s[0] != "unknown"@[0]);
        },
        Element::Fake => {
            assert forall|i: int| 0 <= i < s.len() implies name_char(#[trigger] s[i]) by {
                assert(i == 0 || i == 1 || i == 2 || i == 3);
            }
            assert(s[0] != "unknown"@[0]);
        },
        Element::Invisible => {
            assert forall|i: int| 0 <= i < s.len() implies name_char(#[trigger] s[i]) by {
                assert(i == 0 || i == 1 || i == 2 || i == 3 || i == 4 || i == 5 || i == 6 || i == 7 || i == 8);
            }
            assert(s[0] != "unknown"@[0]);
        },
        Element::BlinkWall => {
            assert forall|i: int| 0 <= i < s.len() implies name_char(#[trigger] s[i]) by {
                assert(i == 0 || i == 1 || i == 2 || i == 3 || i == 4 || i == 5 || i == 6 || i == 7 || i == 8);
            }
            assert(s[0] != "unknown"@[0]);
        },
        Element::Transporter => {
            assert forall|i: int| 0 <= i < s.len() implies name_char(#[trigger] s[i]) by {
                assert(i == 0 || i == 1 || i == 2 || i == 3 || i == 4 || i == 5 || i == 6 || i == 7 || i == 8 || i == 9 || i == 10);
            }
            assert(s[0] != "unknown"@[0]);
        },
        Element::Line => {
            assert forall|i: int| 0 <= i < s.len() implies name_char(#[trigger] s[i]) by {
                assert(i == 0 || i == 1 || i == 2 || i == 3);
            }
            assert(s[0] != "unknown"@[0]);
        },
        Element::Ricochet => {
            assert forall|i: int| 0 <= i < s.len() implies name_char(#[trigger] s[i]) by {
                assert(i == 0 || i == 1 || i == 2 || i == 3 || i == 4 || i == 5 || i == 6 || i == 7);
            }
            assert(s[0] != "unknown"@[0]);
        },
        Element::BlinkRayH => {
            assert forall|i: int| 0 <= i < s.len() implies name_char(#[trigger] s[i]) by {
                assert(i == 0 || i == 1 || i == 2 || i == 3 || i == 4 || i == 5 || i == 6 || i == 7 || i == 8 || i == 9 || i == 10);
            }
            assert(s[0] != "unknown"@[0]);
        },
        Element::Bear => {
            assert forall|i: int| 0 <= i < s.len() implies name_char(#[trigger] s[i]) by {
                assert(i == 0 || i == 1 || i == 2 || i == 3);
            }
            assert(s[0] != "unknown"@[0]);
        },
        Element::Ruffian => {
            assert forall|i: int| 0 <= i < s.len() implies name_char(#[trigger] s[i]) by {
                assert(i == 0 || i == 1 || i == 2 || i == 3 || i == 4 || i == 5 || i == 6);
            }
            assert(s[0] != "unknown"@[0]);
        },
        Element::Object => {
            assert forall|i: int| 0 <= i < s.len() implies name_char(#[trigger] s[i]) by {
                assert(i == 0 || i == 1 || i == 2 || i == 3 || i == 4 || i == 5);
            }
            assert(s[0] != "unknown"@[0]);
        },
        Element::Slime => {
            assert forall|i: int| 0 <= i < s.len() implies name_char(#[trigger] s[i]) by {
                assert(i == 0 || i == 1 || i == 2 || i == 3 || i == 4);
            }
            assert(s[0] != "unknown"@[0]);
        },
        Element::Shark => {
            assert forall|i: int| 0 <= i < s.len() implies name_char(#[trigger] s[i]) by {
                assert(i == 0 || i == 1 || i == 2 || i == 3 || i == 4);
            }
            assert(s[0] != "unknown"@[0]);
        },
        Element::SpinningGun => {
            assert forall|i: int| 0 <= i < s.len() implies name_char(#[trigger] s[i]) by {
                assert(i == 0 || i == 1 || i == 2 || i == 3 || i == 4 || i == 5 || i == 6 || i == 7 || i == 8 || i == 9 || i == 10);
            }
            assert(s[0] != "unknown"@[0]);
        },
        Element::Pusher => {
            assert forall|i: int| 0 <= i < s.len() implies name_char(#[trigger] s[i]) by {
                assert(i == 0 || i == 1 || i == 2 || i == 3 || i == 4 || i == 5);
            }
            assert(s[0] != "unknown"@[0]);
        },
        Element::Lion => {
            assert forall|i: int| 0 <= i < s.len() implies name_char(#[trigger] s[i]) by {
                assert(i == 0 || i == 1 || i == 2 || i == 3);
            }
            assert(s[0] != "unknown"@[0]);
        },
        Element::Tiger => {
            assert forall|i: int| 0 <= i < s.len() implies name_char(#[trigger] s[i]) by {
                assert(i == 0 || i == 1 || i == 2 || i == 3 || i == 4);
            }
            assert(s[0] != "unknown"@[0]);
        },
        Element::BlinkRayV => {
            assert forall|i: int| 0 <= i < s.len() implies name_char(#[trigger] s[i]) by {
                assert(i == 0 || i == 1 || i == 2 || i == 3 || i == 4 || i == 5 || i == 6 || i == 7 || i == 8 || i == 9 || i == 10);
            }
            assert(s[0] != "unknown"@[0]);
        },
        Element::Head => {
            assert forall|i: int| 0 <= i < s.len() implies name_char(#[trigger] s[i]) by {
                assert(i == 0 || i == 1 || i == 2 || i == 3);
            }
            assert(s[0] != "unknown"@[0]);
        },
        Element::Segment => {
            assert forall|i: int| 0 <= i < s.len() implies name_char(#[trigger] s[i]) by {
                assert(i == 0 || i == 1 || i == 2 || i == 3 || i == 4 || i == 5 || i == 6);
            }
            assert(s[0] != "unknown"@[0]);
        },
        Element::TextBlue => {
            assert forall|i: int| 0 <= i < s.len() implies name_char(#[trigger] s[i]) by {
                assert(i == 0 || i == 1 || i == 2 || i == 3 || i == 4 || i == 5 || i == 6 || i == 7 || i == 8);
            }
            assert(s[0] != "unknown"@[0]);
        },
        Element::TextGreen => {
            assert forall|i: int| 0 <= i < s.len() implies name_char(#[trigger] s[i]) by {
                assert(i == 0 || i == 1 || i == 2 || i == 3 || i == 4 || i == 5 || i == 6 || i == 7 || i == 8 || i == 9);
            }
            assert(s[0] != "unknown"@[0]);
        },
        Element::TextCyan => {
            assert forall|i: int| 0 <= i < s.len() implies name_char(#[trigger] s[i]) by {
                assert(i == 0 || i == 1 || i == 2 || i == 3 || i == 4 || i == 5 || i == 6 || i == 7 || i == 8);
            }
            assert(s[0] != "unknown"@[0]);
        },
        Element::TextRed => {
            assert forall|i: int| 0 <= i < s.len() implies name_char(#[trigger] s[i]) by {
                assert(i == 0 || i == 1 || i == 2 || i == 3 || i == 4 || i == 5 || i == 6 || i == 7);
            }
            assert(s[0] != "unknown"@[0]);
        },
        Element::TextPurple => {
            assert forall|i: int| 0 <= i < s.len() implies name_char(#[trigger] s[i]) by {
                assert(i == 0 || i == 1 || i == 2 || i == 3 || i == 4 || i == 5 || i == 6 || i == 7 || i == 8 || i == 9 || i == 10);
            }
            assert(s[0] != "unknown"@[0]);
        },
        Element::TextBrown => {
            assert forall|i: int| 0 <= i < s.len() implies name_char(#[trigger] s[i]) by {
                assert(i == 0 || i == 1 || i == 2 || i == 3 || i == 4 || i == 5 || i == 6 || i == 7 || i == 8 || i == 9);
            }
            assert(s[0] != "unknown"@[0]);
        },
        Element::TextBlack => {
            assert forall|i: int| 0 <= i < s.len() implies name_char(#[trigger] s[i]) by {
                assert(i == 0 || i == 1 || i == 2 || i == 3 || i == 4 || i == 5 || i == 6 || i == 7 || i == 8 || i == 9);
            }
            assert(s[0] != "unknown"@[0]);
        },
    }
    if has_prefix(s, "unknown"@) {
        assert(s.subrange(0, 7)[0] == s[0]);
    }
}

/// Different elements have different names.
pub proof fn lemma_names_distinct(e1: Element, e2: Element)
    ensures
        e1 != e2 ==> element_name_spec(e1) != element_name_spec(e2),
{
    lemma_name_roundtrip(e1);
    lemma_name_roundtrip(e2);
    lemma_element_id_roundtrip(e1, 0);
    lemma_element_id_roundtrip(e2, 0);
}


/// The fallback table of aliases is exactly the aliases that elements give, each with the
/// parameter its elements give it, so naming an element never changes which parameter an
/// alias resolves to.
pub proof fn lemma_alias_fallback(alias: Seq<char>, element: Option<Element>, k: u8)
    ensures
        resolve_alias_spec(alias, element) == any_alias_param(alias),
        any_alias_param(alias) == Some(k) <==> exists|e: Element|
            #[trigger] alias_param_spec(e, alias) == Some(k),
{
    reveal_strlit("char");
    reveal_strlit("sensitivity");
    reveal_strlit("intelligence");
    reveal_strlit("start_time");
    reveal_strlit("rate");
    reveal_strlit("period");
    reveal_strlit("resting_time");
    reveal_strlit("speed");
    reveal_strlit("firing_rate");
    reveal_strlit("deviance");
    reveal_strlit("destination");
    reveal_strlit("firing_type");
    assert("char"@.len() == 4);
    assert("sensitivity"@.len() == 11);
    assert("intelligence"@.len() == 12);
    assert("start_time"@.len() == 10);
    assert("rate"@.len() == 4);
    assert("period"@.len() == 6);
    assert("resting_time"@.len() == 12);
    assert("speed"@.len() == 5);
    assert("firing_rate"@.len() == 11);
    assert("deviance"@.len() == 8);
    assert("destination"@.len() == 11);
    assert("firing_type"@.len() == 11);
    // aliases of equal length differ in some character
    assert("char"@[0] != "rate"@[0]);
    assert("sensitivity"@[0] != "firing_rate"@[0]);
    assert("sensitivity"@[0] != "destination"@[0]);
    assert("sensitivity"@[0] != "firing_type"@[0]);
    assert("firing_rate"@[0] != "destination"@[0]);
    assert("firing_rate"@[7] != "firing_type"@[7]);
    assert("destination"@[0] != "firing_type"@[0]);
    assert("intelligence"@[0] != "resting_time"@[0]);
    assert forall|e: Element| #[trigger] alias_param_spec(e, alias) is Some implies any_alias_param(
        alias,
    ) == alias_param_spec(e, alias) by {
        match e {
            Element::BlinkWall => {},
            Element::Bear => {},
            Element::Ruffian => {},
            Element::Object => {},
            Element::Shark => {},
            Element::SpinningGun => {},
            Element::Lion => {},
            Element::Tiger => {},
            Element::Head => {},
            Element::Duplicator => {},
            Element::Slime => {},
            Element::Passage => {},
            _ => {},
        }
    }
    if any_alias_param(alias) == Some(k) {
        let w = if alias == "char"@ {
            Element::Object
        } else if alias == "sensitivity"@ {
            Element::Bear
        } else if alias == "intelligence"@ {
            Element::Ruffian
        } else if alias == "start_time"@ {
            Element::BlinkWall
        } else if alias == "rate"@ {
            Element::Duplicator
        } else if alias == "period"@ {
            Element::BlinkWall
        } else if alias == "resting_time"@ {
            Element::Ruffian
        } else if alias == "speed"@ {
            Element::Slime
        } else if alias == "firing_rate"@ {
            Element::SpinningGun
        } else if alias == "deviance"@ {
            Element::Head
        } else if alias == "destination"@ {
            Element::Passage
        } else {
            Element::SpinningGun
        };
        assert(alias_param_spec(w, alias) == Some(k));
    }
}

/// The parameter alias table, read by alias: which elements call parameter 1, 2 or 3 by each
/// name, and which elements have no name for it.
pub proof fn lemma_alias_table(e: Element)
    ensures
        p1_alias_spec(e) == Some("intelligence"@) <==> (e == Element::Ruffian || e == Element::Shark || e == Element::SpinningGun || e == Element::Lion || e == Element::Tiger || e == Element::Head),
        p1_alias_spec(e) == Some("char"@) <==> e == Element::Object,
        p1_alias_spec(e) == Some("sensitivity"@) <==> e == Element::Bear,
        p1_alias_spec(e) == Some("start_time"@) <==> e == Element::BlinkWall,
        p1_alias_spec(e) is None <==> !(e == Element::BlinkWall || e == Element::Bear || e == Element::Ruffian || e == Element::Object || e == Element::Shark || e == Element::SpinningGun || e == Element::Lion || e == Element::Tiger || e == Element::Head),
        p2_alias_spec(e) == Some("rate"@) <==> e == Element::Duplicator,
        p2_alias_spec(e) == Some("period"@) <==> e == Element::BlinkWall,
        p2_alias_spec(e) == Some("resting_time"@) <==> e == Element::Ruffian,
        p2_alias_spec(e) == Some("speed"@) <==> e == Element::Slime,
        p2_alias_spec(e) == Some("firing_rate"@) <==> (e == Element::SpinningGun || e == Element::Tiger),
        p2_alias_spec(e) == Some("deviance"@) <==> e == Element::Head,
        p2_alias_spec(e) is None <==> !(e == Element::Duplicator || e == Element::BlinkWall || e == Element::Ruffian || e == Element::Slime || e == Element::SpinningGun || e == Element::Tiger || e == Element::Head),
        p3_alias_spec(e) == Some("destination"@) <==> e == Element::Passage,
        p3_alias_spec(e) == Some("firing_type"@) <==> (e == Element::SpinningGun || e == Element::Tiger),
        p3_alias_spec(e) is None <==> !(e == Element::Passage || e == Element::SpinningGun || e == Element::Tiger),
{
    reveal_strlit("char");
    reveal_strlit("sensitivity");
    reveal_strlit("intelligence");
    reveal_strlit("start_time");
    reveal_strlit("rate");
    reveal_strlit("period");
    reveal_strlit("resting_time");
    reveal_strlit("speed");
    reveal_strlit("firing_rate");
    reveal_strlit("deviance");
    reveal_strlit("destination");
    reveal_strlit("firing_type");
    assert("char"@.len() == 4);
    assert("sensitivity"@.len() == 11);
    assert("intelligence"@.len() == 12);
    assert("start_time"@.len() == 10);
    assert("rate"@.len() == 4);
    assert("period"@.len() == 6);
    assert("resting_time"@.len() == 12);
    assert("speed"@.len() == 5);
    assert("firing_rate"@.len() == 11);
    assert("deviance"@.len() == 8);
    assert("destination"@.len() == 11);
    assert("firing_type"@.len() == 11);
    assert("char"@[0] != "rate"@[0]);
    assert("sensitivity"@[0] != "firing_rate"@[0]);
    assert("sensitivity"@[0] != "destination"@[0]);
    assert("sensitivity"@[0] != "firing_type"@[0]);
    assert("firing_rate"@[0] != "destination"@[0]);
    assert("firing_rate"@[7] != "firing_type"@[7]);
    assert("destination"@[0] != "firing_type"@[0]);
    assert("intelligence"@[0] != "resting_time"@[0]);
}
} // verus!

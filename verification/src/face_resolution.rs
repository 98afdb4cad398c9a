//! Faces as colours and attributes that can be painted.

use vstd::prelude::*;

use crate::draw::{Paint, PaintView};
use crate::messages::{Face, FaceView};
use crate::strings::{chars_at, occurs_at, same_text};
use crate::text::text_chars;

verus! {

/// A colour.
#[derive(Debug, Clone, Copy, PartialEq, Eq, Structural)]
pub struct Rgba {
    pub r: u8,
    pub g: u8,
    pub b: u8,
    pub a: u8,
}

/// An opaque colour.
pub open spec fn opaque(r: u8, g: u8, b: u8) -> Rgba {
    Rgba { r, g, b, a: 0xff }
}

impl Rgba {
    /// An opaque colour.
    pub fn rgb(r: u8, g: u8, b: u8) -> (color: Self)
        ensures
            color == opaque(r, g, b),
    {
        Rgba { r, g, b, a: 0xff }
    }
}

/// The background of a window whose editor leaves it open.
pub open spec fn fallback_background() -> Rgba {
    opaque(0x1e, 0x1e, 0x2e)
}

/// The text colour of a window whose editor leaves it open.
pub open spec fn fallback_foreground() -> Rgba {
    opaque(0xdd, 0xdd, 0xdd)
}

/// How a line below the text is drawn.
#[derive(Debug, Clone, Copy, PartialEq, Eq, Structural)]
pub enum UnderlineStyle {
    Straight,
    Double,
    Curly,
}

/// A face that can be painted.
#[derive(Debug, Clone, Copy, PartialEq, Eq, Structural)]
pub struct ResolvedFace {
    pub fg: Rgba,
    pub bg: Rgba,
    pub underline: Option<Rgba>,
    pub underline_style: Option<UnderlineStyle>,
    pub bold: bool,
    pub italic: bool,
    pub strikethrough: bool,
}

/// The value of a hexadecimal digit.
pub open spec fn hex_digit(c: char) -> Option<u8> {
    if '0' <= c && c <= '9' {
        Some((c as u32 - 48) as u8)
    } else if 'a' <= c && c <= 'f' {
        Some((c as u32 - 87) as u8)
    } else if 'A' <= c && c <= 'F' {
        Some((c as u32 - 55) as u8)
    } else {
        None
    }
}

/// The value of two hexadecimal digits.
pub open spec fn hex_byte(text: Seq<char>, at: int) -> Option<u8> {
    match (hex_digit(text[at]), hex_digit(text[at + 1])) {
        (Some(high), Some(low)) => Some((high * 16 + low) as u8),
        _ => None,
    }
}

/// The colour of six hexadecimal digits from a place on, with a given opacity.
pub open spec fn hex_color(text: Seq<char>, at: int, a: u8) -> Option<Rgba> {
    match (hex_byte(text, at), hex_byte(text, at + 2), hex_byte(text, at + 4)) {
        (Some(r), Some(g), Some(b)) => Some(Rgba { r, g, b, a }),
        _ => None,
    }
}

/// The colours that have a name.
pub open spec fn named_color(name: Seq<char>) -> Option<Rgba> {
    if name == "black"@ {
        Some(opaque(0x00, 0x00, 0x00))
    } else if name == "red"@ {
        Some(opaque(0xcd, 0x00, 0x00))
    } else if name == "green"@ {
        Some(opaque(0x00, 0xcd, 0x00))
    } else if name == "yellow"@ {
        Some(opaque(0xcd, 0xcd, 0x00))
    } else if name == "blue"@ {
        Some(opaque(0x00, 0x00, 0xee))
    } else if name == "magenta"@ {
        Some(opaque(0xcd, 0x00, 0xcd))
    } else if name == "cyan"@ {
        Some(opaque(0x00, 0xcd, 0xcd))
    } else if name == "white"@ {
        Some(opaque(0xe5, 0xe5, 0xe5))
    } else if name == "bright-black"@ {
        Some(opaque(0x7f, 0x7f, 0x7f))
    } else if name == "bright-red"@ {
        Some(opaque(0xff, 0x00, 0x00))
    } else if name == "bright-green"@ {
        Some(opaque(0x00, 0xff, 0x00))
    } else if name == "bright-yellow"@ {
        Some(opaque(0xff, 0xff, 0x00))
    } else if name == "bright-blue"@ {
        Some(opaque(0x5c, 0x5c, 0xff))
    } else if name == "bright-magenta"@ {
        Some(opaque(0xff, 0x00, 0xff))
    } else if name == "bright-cyan"@ {
        Some(opaque(0x00, 0xff, 0xff))
    } else if name == "bright-white"@ {
        Some(opaque(0xff, 0xff, 0xff))
    } else {
        None
    }
}

/// The colour that a text stands for: `rgb:` and six digits, `rgba:` and eight,
/// or a name. Any other text, `default` among them, leaves the colour open.
pub open spec fn color_of(text: Seq<char>) -> Option<Rgba> {
    if occurs_at(text, "rgb:"@, 0) && text.len() == 10 {
        hex_color(text, 4, 0xff)
    } else if occurs_at(text, "rgba:"@, 0) && text.len() == 13 {
        match hex_byte(text, 11) {
            Some(a) => hex_color(text, 5, a),
            None => None,
        }
    } else {
        named_color(text)
    }
}

/// The value of a hexadecimal digit.
fn digit_value(c: char) -> (value: Option<u8>)
    ensures
        value == hex_digit(c),
        value is Some ==> value->0 < 16,
{
    if '0' <= c && c <= '9' {
        Some((c as u32 - 48) as u8)
    } else if 'a' <= c && c <= 'f' {
        Some((c as u32 - 87) as u8)
    } else if 'A' <= c && c <= 'F' {
        Some((c as u32 - 55) as u8)
    } else {
        None
    }
}

/// The value of two hexadecimal digits.
fn byte_value(text: &Vec<char>, at: usize) -> (value: Option<u8>)
    requires
        at + 1 < text.len(),
    ensures
        value == hex_byte(text@, at as int),
{
    match (digit_value(text[at]), digit_value(text[at + 1])) {
        (Some(high), Some(low)) => Some(high * 16 + low),
        _ => None,
    }
}

/// The colour of six hexadecimal digits from a place on.
fn color_value(text: &Vec<char>, at: usize, a: u8) -> (color: Option<Rgba>)
    requires
        at + 5 < text.len(),
    ensures
        color == hex_color(text@, at as int, a),
{
    match (byte_value(text, at), byte_value(text, at + 2), byte_value(text, at + 4)) {
        (Some(r), Some(g), Some(b)) => Some(Rgba { r, g, b, a }),
        _ => None,
    }
}

/// The colours that have a name.
fn color_named(name: &str) -> (color: Option<Rgba>)
    ensures
        color == named_color(name@),
{
    if same_text(name, "black") {
        Some(Rgba::rgb(0x00, 0x00, 0x00))
    } else if same_text(name, "red") {
        Some(Rgba::rgb(0xcd, 0x00, 0x00))
    } else if same_text(name, "green") {
        Some(Rgba::rgb(0x00, 0xcd, 0x00))
    } else if same_text(name, "yellow") {
        Some(Rgba::rgb(0xcd, 0xcd, 0x00))
    } else if same_text(name, "blue") {
        Some(Rgba::rgb(0x00, 0x00, 0xee))
    } else if same_text(name, "magenta") {
        Some(Rgba::rgb(0xcd, 0x00, 0xcd))
    } else if same_text(name, "cyan") {
        Some(Rgba::rgb(0x00, 0xcd, 0xcd))
    } else if same_text(name, "white") {
        Some(Rgba::rgb(0xe5, 0xe5, 0xe5))
    } else if same_text(name, "bright-black") {
        Some(Rgba::rgb(0x7f, 0x7f, 0x7f))
    } else if same_text(name, "bright-red") {
        Some(Rgba::rgb(0xff, 0x00, 0x00))
    } else if same_text(name, "bright-green") {
        Some(Rgba::rgb(0x00, 0xff, 0x00))
    } else if same_text(name, "bright-yellow") {
        Some(Rgba::rgb(0xff, 0xff, 0x00))
    } else if same_text(name, "bright-blue") {
        Some(Rgba::rgb(0x5c, 0x5c, 0xff))
    } else if same_text(name, "bright-magenta") {
        Some(Rgba::rgb(0xff, 0x00, 0xff))
    } else if same_text(name, "bright-cyan") {
        Some(Rgba::rgb(0x00, 0xff, 0xff))
    } else if same_text(name, "bright-white") {
        Some(Rgba::rgb(0xff, 0xff, 0xff))
    } else {
        None
    }
}

/// The colour that a text stands for.
pub fn parse_color(text: &str) -> (color: Option<Rgba>)
    ensures
        color == color_of(text@),
{
    let chars = text_chars(text);
    if chars.len() == 10 && chars_at(&chars, &text_chars("rgb:"), 0) {
        return color_value(&chars, 4, 0xff);
    }
    if chars.len() == 13 && chars_at(&chars, &text_chars("rgba:"), 0) {
        return match byte_value(&chars, 11) {
            Some(a) => color_value(&chars, 5, a),
            None => None,
        };
    }
    color_named(text)
}

/// Whether a face has an attribute.
pub open spec fn has_attribute(face: FaceView, name: Seq<char>) -> bool {
    exists|i: int| 0 <= i < face.attributes.len() && #[trigger] face.attributes[i] == name
}

/// Whether a face has an attribute.
fn face_has(face: &Face, name: &str) -> (yes: bool)
    ensures
        yes == has_attribute(face.deep_view(), name@),
{
    let ghost view = face.deep_view();
    for i in 0..face.attributes.len()
        invariant
            view == face.deep_view(),
            forall|k: int| 0 <= k < i ==> #[trigger] view.attributes[k] != name@,
    {
        assert(view.attributes[i as int] == face.attributes@[i as int]@);
        if same_text(face.attributes[i].as_str(), name) {
            return true;
        }
    }
    false
}

/// A colour, or the one to take where it is left open.
pub open spec fn color_or(text: Seq<char>, fallback: Rgba) -> Rgba {
    match color_of(text) {
        Some(color) => color,
        None => fallback,
    }
}

/// The line below the text that a face asks for.
pub open spec fn underline_style_of(face: FaceView) -> Option<UnderlineStyle> {
    if has_attribute(face, "curly_underline"@) {
        Some(UnderlineStyle::Curly)
    } else if has_attribute(face, "double_underline"@) {
        Some(UnderlineStyle::Double)
    } else if has_attribute(face, "underline"@) {
        Some(UnderlineStyle::Straight)
    } else {
        None
    }
}

/// A face over given colours. A reversed face has its colours exchanged.
pub open spec fn painted(face: FaceView, fg: Rgba, bg: Rgba) -> ResolvedFace {
    let own_fg = color_or(face.fg, fg);
    let own_bg = color_or(face.bg, bg);
    let reversed = has_attribute(face, "reverse"@);
    ResolvedFace {
        fg: if reversed {
            own_bg
        } else {
            own_fg
        },
        bg: if reversed {
            own_fg
        } else {
            own_bg
        },
        underline: color_of(face.underline),
        underline_style: underline_style_of(face),
        bold: has_attribute(face, "bold"@),
        italic: has_attribute(face, "italic"@),
        strikethrough: has_attribute(face, "strikethrough"@),
    }
}

/// A face that stands alone.
pub fn resolve_root_face(face: &Face, fallback_fg: Rgba, fallback_bg: Rgba) -> (resolved:
    ResolvedFace)
    ensures
        resolved == painted(face.deep_view(), fallback_fg, fallback_bg),
{
    let fg = match parse_color(face.fg.as_str()) {
        Some(color) => color,
        None => fallback_fg,
    };
    let bg = match parse_color(face.bg.as_str()) {
        Some(color) => color,
        None => fallback_bg,
    };
    let reversed = face_has(face, "reverse");
    let underline_style = if face_has(face, "curly_underline") {
        Some(UnderlineStyle::Curly)
    } else if face_has(face, "double_underline") {
        Some(UnderlineStyle::Double)
    } else if face_has(face, "underline") {
        Some(UnderlineStyle::Straight)
    } else {
        None
    };
    ResolvedFace {
        fg: if reversed {
            bg
        } else {
            fg
        },
        bg: if reversed {
            fg
        } else {
            bg
        },
        underline: parse_color(face.underline.as_str()),
        underline_style,
        bold: face_has(face, "bold"),
        italic: face_has(face, "italic"),
        strikethrough: face_has(face, "strikethrough"),
    }
}

/// A face over a base: what it leaves open is as in the base.
pub fn resolve_derived_face(
    base: &Face,
    face: &Face,
    fallback_fg: Rgba,
    fallback_bg: Rgba,
) -> (resolved: ResolvedFace)
    ensures
        ({
            let under = painted(base.deep_view(), fallback_fg, fallback_bg);
            resolved == painted(face.deep_view(), under.fg, under.bg)
        }),
{
    let under = resolve_root_face(base, fallback_fg, fallback_bg);
    resolve_root_face(face, under.fg, under.bg)
}

/// How a step is painted in a window.
pub open spec fn paint_face(paint: PaintView) -> ResolvedFace {
    match paint {
        PaintView::Root { face } => painted(face, fallback_foreground(), fallback_background()),
        PaintView::Derived { base, face } => {
            let under = painted(base, fallback_foreground(), fallback_background());
            painted(face, under.fg, under.bg)
        },
    }
}

/// How a step is painted in a window.
pub fn resolve_paint(paint: &Paint) -> (resolved: ResolvedFace)
    ensures
        resolved == paint_face(paint.deep_view()),
{
    let fg = Rgba::rgb(0xdd, 0xdd, 0xdd);
    let bg = Rgba::rgb(0x1e, 0x1e, 0x2e);
    match paint {
        Paint::Root { face } => resolve_root_face(face, fg, bg),
        Paint::Derived { base, face } => resolve_derived_face(base, face, fg, bg),
    }
}

/// A plain face over a base has the colours of the base.
pub proof fn law_plain_face_takes_the_colors_below(fg: Rgba, bg: Rgba)
    ensures
        painted(crate::messages::plain_face(), fg, bg).fg == fg,
        painted(crate::messages::plain_face(), fg, bg).bg == bg,
{
    reveal_strlit("default");
    reveal_strlit("rgb:");
    reveal_strlit("rgba:");
    reveal_strlit("black");
    reveal_strlit("red");
    reveal_strlit("green");
    reveal_strlit("yellow");
    reveal_strlit("blue");
    reveal_strlit("magenta");
    reveal_strlit("cyan");
    reveal_strlit("white");
    reveal_strlit("bright-black");
    reveal_strlit("bright-red");
    reveal_strlit("bright-green");
    reveal_strlit("bright-yellow");
    reveal_strlit("bright-blue");
    reveal_strlit("bright-magenta");
    reveal_strlit("bright-cyan");
    reveal_strlit("bright-white");
    assert("default"@[0] != "magenta"@[0]);
}

/// The digit that stands for a number below sixteen, as a small or as a capital
/// letter where it is a letter.
pub open spec fn digit_of(n: u8, capital: bool) -> char {
    if n < 10 {
        (48 + n) as char
    } else if capital {
        (55 + n) as char
    } else {
        (87 + n) as char
    }
}

/// A byte in two hexadecimal digits.
pub open spec fn hex_of(byte: u8, capital: bool) -> Seq<char> {
    seq![digit_of(byte / 16, capital), digit_of(byte % 16, capital)]
}

/// Two hexadecimal digits are read back as the byte that they were written for.
proof fn lemma_byte_is_read_back(text: Seq<char>, at: int, byte: u8, capital: bool)
    requires
        0 <= at,
        at + 1 < text.len(),
        text[at] == digit_of(byte / 16, capital),
        text[at + 1] == digit_of(byte % 16, capital),
    ensures
        hex_byte(text, at) == Some(byte),
{
    assert(hex_digit(digit_of(byte / 16, capital)) == Some((byte / 16) as u8));
    assert(hex_digit(digit_of(byte % 16, capital)) == Some((byte % 16) as u8));
    assert((byte / 16) * 16 + byte % 16 == byte);
}

/// Every colour can be written, in small or in capital digits, as its red, green
/// and blue and, if it is not opaque, its opacity behind them; and what is written
/// so stands for the colour.
pub proof fn law_written_color_is_read_back(color: Rgba, capital: bool)
    ensures
        color_of(
            seq!['r', 'g', 'b', ':'] + hex_of(color.r, capital) + hex_of(color.g, capital)
                + hex_of(color.b, capital),
        ) == Some(Rgba { a: 255, ..color }),
        color_of(
            seq!['r', 'g', 'b', 'a', ':'] + hex_of(color.r, capital) + hex_of(color.g, capital)
                + hex_of(color.b, capital) + hex_of(color.a, capital),
        ) == Some(color),
{
    reveal_strlit("rgb:");
    reveal_strlit("rgba:");
    let short = seq!['r', 'g', 'b', ':'] + hex_of(color.r, capital) + hex_of(color.g, capital)
        + hex_of(color.b, capital);
    let long = seq!['r', 'g', 'b', 'a', ':'] + hex_of(color.r, capital) + hex_of(
        color.g,
        capital,
    ) + hex_of(color.b, capital) + hex_of(color.a, capital);
    assert(short.subrange(0, 4) =~= "rgb:"@);
    assert(long.subrange(0, 5) =~= "rgba:"@);
    lemma_byte_is_read_back(short, 4, color.r, capital);
    lemma_byte_is_read_back(short, 6, color.g, capital);
    lemma_byte_is_read_back(short, 8, color.b, capital);
    lemma_byte_is_read_back(long, 5, color.r, capital);
    lemma_byte_is_read_back(long, 7, color.g, capital);
    lemma_byte_is_read_back(long, 9, color.b, capital);
    lemma_byte_is_read_back(long, 11, color.a, capital);
}

/// The name of a colour that has one, by its red, green and blue.
pub open spec fn name_of_color(color: Rgba) -> Seq<char> {
    match (color.r, color.g, color.b) {
        (0, 0, 0) => "black"@,
        (205, 0, 0) => "red"@,
        (0, 205, 0) => "green"@,
        (205, 205, 0) => "yellow"@,
        (0, 0, 238) => "blue"@,
        (205, 0, 205) => "magenta"@,
        (0, 205, 205) => "cyan"@,
        (229, 229, 229) => "white"@,
        (127, 127, 127) => "bright-black"@,
        (255, 0, 0) => "bright-red"@,
        (0, 255, 0) => "bright-green"@,
        (255, 255, 0) => "bright-yellow"@,
        (92, 92, 255) => "bright-blue"@,
        (255, 0, 255) => "bright-magenta"@,
        (0, 255, 255) => "bright-cyan"@,
        _ => "bright-white"@,
    }
}

/// A name stands for the opaque colour that bears it.
#[verifier::rlimit(40)]
pub proof fn law_names_mean_their_colors(name: Seq<char>)
    ensures
        named_color(name) matches Some(color) ==> color.a == 255 && name_of_color(color) == name && (
        name == "bright-white"@ ==> color == opaque(255, 255, 255)),
        name == "black"@ || name == "red"@ || name == "green"@ || name == "yellow"@ || name
            == "blue"@ || name == "magenta"@ || name == "cyan"@ || name == "white"@ || name
            == "bright-black"@ || name == "bright-red"@ || name == "bright-green"@ || name
            == "bright-yellow"@ || name == "bright-blue"@ || name == "bright-magenta"@ || name
            == "bright-cyan"@ || name == "bright-white"@ <==> named_color(name) is Some,
{
    reveal_strlit("black");
    reveal_strlit("red");
    reveal_strlit("green");
    reveal_strlit("yellow");
    reveal_strlit("blue");
    reveal_strlit("magenta");
    reveal_strlit("cyan");
    reveal_strlit("white");
    reveal_strlit("bright-black");
    reveal_strlit("bright-red");
    reveal_strlit("bright-green");
    reveal_strlit("bright-yellow");
    reveal_strlit("bright-blue");
    reveal_strlit("bright-magenta");
    reveal_strlit("bright-cyan");
    reveal_strlit("bright-white");
    if name == "bright-white"@ {
        assert(name[7] == 'w');
        assert(name.len() == 12);
    }
}

/// A face has the colours that it names, and where it names none, those below it;
/// a reversed face has them exchanged.
pub proof fn law_face_has_its_own_colors(face: FaceView, fg: Rgba, bg: Rgba)
    ensures
        ({
            let resolved = painted(face, fg, bg);
            let (text, ground) = if face.attributes.contains("reverse"@) {
                (resolved.bg, resolved.fg)
            } else {
                (resolved.fg, resolved.bg)
            };
            &&& color_of(face.fg) matches Some(color) ==> text == color
            &&& color_of(face.fg) is None ==> text == fg
            &&& color_of(face.bg) matches Some(color) ==> ground == color
            &&& color_of(face.bg) is None ==> ground == bg
            &&& resolved.underline == color_of(face.underline)
        }),
{
    lemma_attribute(face, "reverse"@);
}

/// Reversing a face exchanges its colours and changes nothing else.
pub proof fn law_reversing_exchanges_the_colors(face: FaceView, fg: Rgba, bg: Rgba)
    requires
        !face.attributes.contains("reverse"@),
    ensures
        ({
            let plain = painted(face, fg, bg);
            let reversed = painted(
                FaceView { attributes: face.attributes.push("reverse"@), ..face },
                fg,
                bg,
            );
            reversed == (ResolvedFace { fg: plain.bg, bg: plain.fg, ..plain })
        }),
{
    reveal_strlit("reverse");
    reveal_strlit("curly_underline");
    reveal_strlit("double_underline");
    reveal_strlit("underline");
    reveal_strlit("bold");
    reveal_strlit("italic");
    reveal_strlit("strikethrough");
    let other = FaceView { attributes: face.attributes.push("reverse"@), ..face };
    lemma_attribute(face, "reverse"@);
    assert(other.attributes[face.attributes.len() as int] == "reverse"@);
    lemma_pushed_attribute(face, "reverse"@, "curly_underline"@);
    lemma_pushed_attribute(face, "reverse"@, "double_underline"@);
    lemma_pushed_attribute(face, "reverse"@, "underline"@);
    lemma_pushed_attribute(face, "reverse"@, "bold"@);
    lemma_pushed_attribute(face, "reverse"@, "italic"@);
    lemma_pushed_attribute(face, "reverse"@, "strikethrough"@);
}

/// A face has the attributes that are listed for it.
proof fn lemma_attribute(face: FaceView, name: Seq<char>)
    ensures
        has_attribute(face, name) == face.attributes.contains(name),
{
    if face.attributes.contains(name) {
        let i = choose|i: int| 0 <= i < face.attributes.len() && face.attributes[i] == name;
        assert(face.attributes[i] == name);
    }
}

/// One attribute more leaves the others.
proof fn lemma_pushed_attribute(face: FaceView, added: Seq<char>, name: Seq<char>)
    requires
        added.len() != name.len() || added[0] != name[0],
    ensures
        has_attribute(
            FaceView { attributes: face.attributes.push(added), ..face },
            name,
        ) == has_attribute(face, name),
{
    let other = FaceView { attributes: face.attributes.push(added), ..face };
    if has_attribute(face, name) {
        let i = choose|i: int|
            0 <= i < face.attributes.len() && #[trigger] face.attributes[i] == name;
        assert(other.attributes[i] == name);
    }
    if has_attribute(other, name) {
        let i = choose|i: int|
            0 <= i < other.attributes.len() && #[trigger] other.attributes[i] == name;
        assert(i < face.attributes.len());
        assert(face.attributes[i] == name);
    }
}

/// A face is bold, italic or struck through exactly where it says so, and has the
/// most marked of the lines below the text that it asks for.
pub proof fn law_face_has_its_own_attributes(face: FaceView, fg: Rgba, bg: Rgba)
    ensures
        ({
            let resolved = painted(face, fg, bg);
            let curly = face.attributes.contains("curly_underline"@);
            let double = face.attributes.contains("double_underline"@);
            let straight = face.attributes.contains("underline"@);
            &&& resolved.bold == face.attributes.contains("bold"@)
            &&& resolved.italic == face.attributes.contains("italic"@)
            &&& resolved.strikethrough == face.attributes.contains("strikethrough"@)
            &&& resolved.underline_style is None <==> !curly && !double && !straight
            &&& curly ==> resolved.underline_style == Some(UnderlineStyle::Curly)
            &&& double && !curly ==> resolved.underline_style == Some(UnderlineStyle::Double)
            &&& straight && !double && !curly ==> resolved.underline_style == Some(
                UnderlineStyle::Straight,
            )
        }),
{
    lemma_attribute(face, "bold"@);
    lemma_attribute(face, "italic"@);
    lemma_attribute(face, "strikethrough"@);
    lemma_attribute(face, "curly_underline"@);
    lemma_attribute(face, "double_underline"@);
    lemma_attribute(face, "underline"@);
}

/// What a derived face leaves open is as in its base, as painted; what the base
/// leaves open too, and what a face that stands alone leaves open, is in the
/// colours of the window.
pub proof fn law_derived_face_fills_its_gaps(base: FaceView, face: FaceView)
    ensures
        ({
            let below = paint_face(PaintView::Root { face: base });
            let derived = paint_face(PaintView::Derived { base, face });
            &&& derived == painted(face, below.fg, below.bg)
            &&& color_of(base.fg) is None && !base.attributes.contains("reverse"@) ==> below.fg == (
            Rgba { r: 221, g: 221, b: 221, a: 255 })
            &&& color_of(base.bg) is None && !base.attributes.contains("reverse"@) ==> below.bg == (
            Rgba { r: 30, g: 30, b: 46, a: 255 })
            &&& color_of(base.fg) is Some && !base.attributes.contains("reverse"@) ==> below.fg
                == color_of(base.fg)->0
            &&& color_of(base.bg) is Some && !base.attributes.contains("reverse"@) ==> below.bg
                == color_of(base.bg)->0
            &&& color_of(face.fg) is None && !face.attributes.contains("reverse"@) ==> derived.fg
                == below.fg
            &&& color_of(face.bg) is None && !face.attributes.contains("reverse"@) ==> derived.bg
                == below.bg
        }),
{
    lemma_attribute(base, "reverse"@);
    lemma_attribute(face, "reverse"@);
}

} // verus!

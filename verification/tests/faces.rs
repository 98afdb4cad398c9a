use kakvide::draw::Paint;
use kakvide::face_resolution::{
    parse_color, resolve_derived_face, resolve_paint, resolve_root_face, Rgba, UnderlineStyle,
};
use kakvide::messages::Face;

const FALLBACK_BG: Rgba = Rgba { r: 0x1e, g: 0x1e, b: 0x2e, a: 0xff };
const FALLBACK_FG: Rgba = Rgba { r: 0xdd, g: 0xdd, b: 0xdd, a: 0xff };

#[test]
fn parses_rgba_colors_by_ignoring_alpha() {
    let resolved = resolve_root_face(
        &Face {
            fg: "rgba:ffffff80".into(),
            bg: "default".into(),
            underline: "default".into(),
            attributes: Vec::new(),
        },
        FALLBACK_FG,
        FALLBACK_BG,
    );
    assert_eq!(
        resolved.fg,
        Rgba {
            r: 0xff,
            g: 0xff,
            b: 0xff,
            a: 0x80
        }
    );
}

#[test]
fn colors_are_digits_or_names() {
    assert_eq!(parse_color("rgb:0A1b2C"), Some(Rgba::rgb(0x0a, 0x1b, 0x2c)));
    assert_eq!(parse_color("bright-white"), Some(Rgba::rgb(0xff, 0xff, 0xff)));
    assert_eq!(parse_color("black"), Some(Rgba::rgb(0, 0, 0)));
    assert_eq!(parse_color("default"), None);
    assert_eq!(parse_color("rgb:12345"), None);
    assert_eq!(parse_color("rgb:12345g"), None);
    assert_eq!(parse_color("rgba:1234567g"), None);
    assert_eq!(parse_color(""), None);
}

#[test]
fn plain_faces_take_the_colors_below() {
    let base = Face { fg: "red".into(), bg: "rgb:010203".into(), ..Face::default() };
    let resolved = resolve_derived_face(&base, &Face::default(), FALLBACK_FG, FALLBACK_BG);
    assert_eq!(resolved.fg, Rgba::rgb(0xcd, 0, 0));
    assert_eq!(resolved.bg, Rgba::rgb(1, 2, 3));
    assert_eq!(resolved.underline, None);
    assert_eq!(resolved.underline_style, None);
}

#[test]
fn attributes_are_kept() {
    let face = Face {
        attributes: vec![
            "bold".into(),
            "italic".into(),
            "strikethrough".into(),
            "underline".into(),
            "curly_underline".into(),
            "reverse".into(),
        ],
        underline: "blue".into(),
        ..Face::default()
    };
    let resolved = resolve_paint(&Paint::Root { face });
    assert!(resolved.bold && resolved.italic && resolved.strikethrough);
    assert_eq!(resolved.underline_style, Some(UnderlineStyle::Curly));
    assert_eq!(resolved.underline, Some(Rgba::rgb(0, 0, 0xee)));
    assert_eq!(resolved.fg, FALLBACK_BG);
    assert_eq!(resolved.bg, FALLBACK_FG);
}

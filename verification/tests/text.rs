use kakvide::app::StatusState;
use kakvide::messages::{Atom, Face, StatusStyle};
use kakvide::render::{
    cursor_cell, fallback_character, font_families, is_emojiish, prefers_fallback_font,
};
use kakvide::text::{
    atom_display_width, line_display_width, truncate_atoms, truncate_title,
};

fn plain(contents: &str) -> Atom {
    Atom { face: Face::default(), contents: contents.into() }
}

#[test]
fn status_uses_mode_line_and_prompt_rows() {
    let status = StatusState {
        prompt: vec![plain(":")],
        content: vec![plain("w")],
        cursor_pos: 1,
        mode_line: vec![plain("status")],
        default_face: Face::default(),
        style: StatusStyle::Status,
    };
    let mut prompt_line = status.prompt.clone();
    prompt_line.extend(status.content.clone());
    assert_eq!(line_display_width(&prompt_line), 2);
    assert_eq!(line_display_width(&status.mode_line), 6);
}

#[test]
fn line_display_width_ignores_empty_spacer_atoms() {
    let line = vec![plain("left"), plain(""), plain("right")];

    assert_eq!(atom_display_width(&line[1].contents), 0);
    assert_eq!(line_display_width(&line), 9);
}

#[test]
fn title_truncation_limits_display_width() {
    let title = truncate_title("kakvide - /tmp/long/path.txt", 12);

    assert_eq!(title, "kakvide - /t");
    assert_eq!(atom_display_width(&title), 12);
}

#[test]
fn cursor_cell_uses_visible_placeholder_at_end_of_line() {
    let cursor_face = Face {
        fg: "black".into(),
        bg: "white".into(),
        underline: "default".into(),
        attributes: Vec::new(),
    };
    let line = vec![Atom { face: cursor_face.clone(), contents: "\n".into() }];

    let cursor = cursor_cell(Some(&line), 0).expect("cursor cell should exist");
    assert_eq!(cursor.face.bg, "white");
    assert_eq!(cursor.text, Some(" ".to_string()));
}

#[test]
fn cursor_cell_finds_character_under_cursor() {
    let line = vec![
        plain("ab"),
        Atom {
            face: Face {
                fg: "black".into(),
                bg: "white".into(),
                underline: "default".into(),
                attributes: Vec::new(),
            },
            contents: "c".into(),
        },
    ];

    let cursor = cursor_cell(Some(&line), 2).expect("cursor cell should exist");
    assert_eq!(cursor.text, Some("c".to_string()));
    assert_eq!(cursor.face.bg, "white");
}

#[test]
fn atom_display_width_counts_single_emoji_as_double_width() {
    assert_eq!(atom_display_width("😀"), 2);
}

#[test]
fn atom_display_width_treats_emoji_variation_sequence_as_one_cluster() {
    assert_eq!(atom_display_width("❤️"), 2);
}

#[test]
fn truncate_atoms_does_not_split_emoji_variation_sequence() {
    let line = vec![plain("a❤️b")];

    let truncated = truncate_atoms(&line, 2);

    assert_eq!(truncated[0].contents, "a");
}

#[test]
fn control_characters_take_a_cell() {
    assert_eq!(atom_display_width("\u{7}"), 1);
    assert_eq!(atom_display_width("\u{200d}"), 1);
}

#[test]
fn line_ends_take_no_cell() {
    assert_eq!(atom_display_width("ab\n"), 2);
    assert_eq!(atom_display_width("\n"), 0);
}

#[test]
fn combining_marks_stay_with_their_letter() {
    assert_eq!(atom_display_width("e\u{301}x"), 2);
    assert_eq!(truncate_title("e\u{301}x", 1), "e\u{301}");
}

#[test]
fn truncation_goes_on_in_the_next_atom() {
    let line = vec![plain("ab\n"), plain(""), plain("cdef")];

    let truncated = truncate_atoms(&line, 4);

    assert_eq!(truncated.len(), 2);
    assert_eq!(truncated[0].contents, "ab");
    assert_eq!(truncated[1].contents, "cd");
}

#[test]
fn truncation_to_the_own_width_keeps_everything() {
    let line = vec![plain("ab"), plain("😀")];

    let truncated = truncate_atoms(&line, line_display_width(&line));

    assert_eq!(truncated.len(), 2);
    assert_eq!(truncated[1].contents, "😀");
    assert_eq!(truncate_atoms(&line, 3).len(), 1);
    assert!(truncate_atoms(&line, 0).is_empty());
}

#[test]
fn narrower_text_follows_where_a_wide_cluster_does_not_fit() {
    let line = vec![plain("a😀"), plain("b")];

    let truncated = truncate_atoms(&line, 2);

    assert_eq!(truncated.len(), 2);
    assert_eq!(truncated[0].contents, "a");
    assert_eq!(truncated[1].contents, "b");
}

#[test]
fn cursor_finds_a_cell_in_every_column_of_a_line() {
    let line = vec![plain("a😀"), plain("b")];
    let texts: Vec<Option<String>> = (0..5)
        .map(|column| cursor_cell(Some(&line), column).and_then(|cell| cell.text))
        .collect();

    assert_eq!(
        texts,
        vec![
            Some("a".to_string()),
            Some("😀".to_string()),
            Some("😀".to_string()),
            Some("b".to_string()),
            None,
        ]
    );
    assert!(cursor_cell(None, 0).is_none());
}

#[test]
fn fallback_fonts_are_looked_up_by_the_first_visible_character() {
    assert_eq!(fallback_character("\u{fe0f}\u{200d}x"), Some('x'));
    assert_eq!(fallback_character("\u{200d}"), None);
    assert!(prefers_fallback_font("❤\u{fe0f}"));
    assert!(prefers_fallback_font("☀"));
    assert!(!prefers_fallback_font("abc"));
    assert!(is_emojiish('\u{1f600}'));
    assert!(!is_emojiish('\u{25ff}'));
}

#[test]
fn configured_font_family_is_tried_first() {
    let names = font_families("Fira Code");
    assert_eq!(
        names,
        vec!["Fira Code", "SF Mono", "Menlo", "Monaco", "JetBrains Mono", "Courier New"]
    );
}

#[test]
fn cut_lines_measured_again_keep_to_their_room() {
    let line = vec![
        plain("a🇷🇸🇮🇴🇷"),
        plain(""),
        plain("e\u{301}👩\u{200d}👩\u{200d}👧x"),
        plain("हिन्दी क्षि"),
        plain("각\u{1100}\u{1161}\u{11a8}\r\u{7}"),
    ];
    let width = line_display_width(&line);
    for room in 0..=width + 1 {
        let cut = truncate_atoms(&line, room);
        assert!(line_display_width(&cut) <= room);
        assert_eq!(truncate_atoms(&cut, room), cut);
        let mut sources = line.iter();
        for part in &cut {
            assert!(!part.contents.is_empty());
            assert!(sources.any(|atom| atom.contents.starts_with(&part.contents)));
        }
    }
    let whole: Vec<Atom> = line.into_iter().filter(|atom| !atom.contents.is_empty()).collect();
    assert_eq!(truncate_atoms(&whole, width), whole);
}

#[test]
fn cut_titles_are_the_longest_that_fit() {
    let title = "🇷🇸🇮🇴e\u{301} क्षि👩\u{200d}👧.txt";
    let width = atom_display_width(title);
    for room in 0..=width + 1 {
        let cut = truncate_title(title, room);
        assert!(title.starts_with(&cut));
        assert!(atom_display_width(&cut) <= room);
        assert_eq!(cut == title, width <= room);
        assert_eq!(truncate_title(&cut, room), cut);
    }
}

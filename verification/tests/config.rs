use kakvide::config::{
    bundled_config_path, bundled_default_value, checked_config_paths, complete_cell,
    complete_config, complete_cursor_shapes, complete_macos, effective_config_value,
    user_config_path, AppConfig, CellConfig, CursorShape, DisplayConfig, MacosColorSpace,
    UserKeysConfig,
};
use kakvide::config_value::{merge_toml_value, parse_config, ConfigEntry, ConfigValue};

fn number(bits: u64) -> f64 {
    f64::from_bits(bits)
}

/// The settings of a file laid over the bundled ones.
fn settings(file: &str) -> AppConfig {
    let value = effective_config_value(Some(file)).expect("config should parse");
    complete_config(&value).expect("config should be complete")
}

fn manifest_dir() -> &'static [u8] {
    b"/src/kakvide"
}

#[test]
fn config_defaults_match_kakvide_toml_shape() {
    let config = AppConfig::default();
    assert_eq!(config.font_family, "SF Mono");
    assert_eq!(number(config.font_size.bits), 12.0);
    assert_eq!(number(config.mouse_scroll_rate.bits), 0.25);
    assert!(config.transparent_menubar);
    assert!(!config.single_session);
    assert_eq!(config.session_name, "kakvide");
    assert_eq!(config.cell, CellConfig::default());
    assert_eq!(number(config.cell.underline_offset.bits), 0.0);
    assert_eq!(config.display, DisplayConfig::default());
    assert_eq!(config.display.cursor_shape.normal, None);
    assert_eq!(config.display.cursor_shape.insert, None);
    assert_eq!(config.display.cursor_shape.replace, None);
    assert_eq!(config.macos.color_space, MacosColorSpace::P3);
    assert_eq!(config.keys, UserKeysConfig::default());
}

#[test]
fn config_path_uses_xdg_config_home_when_set() {
    let bundled = bundled_config_path(manifest_dir());
    let paths = checked_config_paths(&bundled, Some(b"/tmp/xdg"), Some(b"/Users/example"));

    assert_eq!(paths, vec![bundled, b"/tmp/xdg/kakvide/config.toml".to_vec()]);
}

#[test]
fn config_path_falls_back_to_home_when_xdg_unset() {
    let bundled = bundled_config_path(manifest_dir());
    let paths = checked_config_paths(&bundled, None, Some(b"/Users/example"));

    assert_eq!(paths, vec![bundled, b"/Users/example/.config/kakvide/config.toml".to_vec()]);
}

#[test]
fn config_path_falls_back_to_home_when_xdg_empty() {
    let bundled = bundled_config_path(manifest_dir());
    let paths = checked_config_paths(&bundled, Some(b""), Some(b"/Users/example"));

    assert_eq!(paths, vec![bundled, b"/Users/example/.config/kakvide/config.toml".to_vec()]);
}

#[test]
fn config_path_is_missing_without_xdg_or_home() {
    let bundled = bundled_config_path(manifest_dir());
    assert_eq!(checked_config_paths(&bundled, None, None), vec![bundled]);
}

#[test]
fn bundled_config_stands_beside_the_manifest() {
    assert_eq!(bundled_config_path(manifest_dir()), b"/src/kakvide/kakvide.toml".to_vec());
}

#[test]
fn load_config_uses_defaults_without_user_file() {
    let value = effective_config_value(None).expect("config should load");
    let config = complete_config(&value).expect("config should be complete");

    assert_eq!(config.font_family, AppConfig::default().font_family);
    assert_eq!(config.font_size, AppConfig::default().font_size);
    assert_eq!(config.mouse_scroll_rate, AppConfig::default().mouse_scroll_rate);
    assert_eq!(config.transparent_menubar, AppConfig::default().transparent_menubar);
    assert_eq!(config.cell, AppConfig::default().cell);
    assert_eq!(config.display, AppConfig::default().display);
    assert_eq!(config.macos, AppConfig::default().macos);
    assert_eq!(config.keys, AppConfig::default().keys);
}

#[test]
fn config_merges_user_overrides() {
    let mut value = bundled_default_value();
    let user_value = parse_config(
        r#"
font-size = 18.0
transparent-menubar = false
single-session = true
session-name = "shared"

[cell]
underline-offset = 1.5

[display.cursor-shape]
insert = "beam"

[macos]
color-space = "srgb"

[keys]
window-new = "Cmd-Shift-N"
"#,
    )
    .expect("user config should parse");

    merge_toml_value(&mut value, user_value);
    let config = complete_config(&value).expect("merged config should be complete");

    assert_eq!(config.font_family, "SF Mono");
    assert_eq!(number(config.font_size.bits), 18.0);
    assert!(!config.transparent_menubar);
    assert!(config.single_session);
    assert_eq!(config.session_name, "shared");
    assert_eq!(number(config.cell.underline_offset.bits), 1.5);
    assert_eq!(config.display.cursor_shape.normal, None);
    assert_eq!(config.display.cursor_shape.insert, Some(CursorShape::Beam));
    assert_eq!(config.display.cursor_shape.replace, None);
    assert_eq!(config.macos.color_space, MacosColorSpace::Srgb);
    assert_eq!(config.keys.window_new, "Cmd-Shift-N");
    assert_eq!(config.keys.window_close, "Cmd-W");
}

#[test]
fn user_config_path_skips_bundled_entry() {
    assert_eq!(
        user_config_path(None, Some(b"/Users/example")),
        Some(b"/Users/example/.config/kakvide/config.toml".to_vec())
    );
}

#[test]
fn user_config_path_is_missing_without_directories() {
    assert_eq!(user_config_path(Some(b""), Some(b"")), None);
}

#[test]
fn config_parses_fractional_cell_underline_offset() {
    let config = settings(
        r#"
font-family = "SF Mono"
font-size = 12.0
mouse-scroll-rate = 0.25
transparent-menubar = true
single-session = true
session-name = "shared"

[cell]
underline-offset = 1.5

[macos]
color-space = "p3"
"#,
    );

    assert!(config.single_session);
    assert_eq!(config.session_name, "shared");
    assert_eq!(number(config.cell.underline_offset.bits), 1.5);
}

#[test]
fn config_parses_cursor_shape_overrides() {
    let config = settings(
        r#"
font-family = "SF Mono"
font-size = 12.0
mouse-scroll-rate = 0.25
transparent-menubar = true
single-session = true
session-name = "shared"

[display.cursor-shape]
normal = "beam"
insert = "underline"
replace = "block"

[macos]
color-space = "p3"
"#,
    );

    assert!(config.single_session);
    assert_eq!(config.session_name, "shared");
    assert_eq!(config.display.cursor_shape.normal, Some(CursorShape::Beam));
    assert_eq!(config.display.cursor_shape.insert, Some(CursorShape::Underline));
    assert_eq!(config.display.cursor_shape.replace, Some(CursorShape::Block));
}

#[test]
fn config_parses_explicit_macos_srgb_color_space() {
    let config = settings(
        r#"
font-family = "SF Mono"
font-size = 12.0
mouse-scroll-rate = 0.25
transparent-menubar = true
single-session = true
session-name = "shared"

[macos]
color-space = "srgb"
"#,
    );

    assert!(config.single_session);
    assert_eq!(config.session_name, "shared");
    assert_eq!(config.macos.color_space, MacosColorSpace::Srgb);
}

#[test]
fn sections_are_read_only_where_they_are_complete() {
    let value = parse_config("[cell]\nunderline-offset = 1.5\n").expect("config should parse");
    assert_eq!(complete_cell(&value).map(|cell| number(cell.underline_offset.bits)), Some(1.5));
    assert!(complete_config(&value).is_none());
    let whole = parse_config("[cell]\nunderline-offset = 1\n").expect("config should parse");
    assert!(complete_cell(&whole).is_none());
}

#[test]
fn unknown_names_are_faults() {
    let shape = parse_config("[display.cursor-shape]\ninsert = \"triangle\"\n")
        .expect("config should parse");
    assert!(complete_cursor_shapes(&shape).is_none());
    let space = parse_config("[macos]\ncolor-space = \"adobe-rgb\"\n").expect("config should parse");
    assert!(complete_macos(&space).is_none());
    assert!(complete_config(&space).is_none());
}

#[test]
fn broken_user_files_are_errors() {
    assert!(effective_config_value(Some("font-size = ")).is_err());
    assert!(parse_config("a = 1\na = 2\n").is_err());
    assert!(effective_config_value(Some("")).is_ok());
}

#[test]
fn parsed_values_keep_their_kind() {
    let value = parse_config(
        "text = \"x\"\nwhole = -7\npart = 0.5\nflag = true\nday = 2024-05-06\nlist = [1, [2]]\n",
    )
    .expect("config should parse");

    assert!(matches!(value.get("text"), Some(ConfigValue::Text(text)) if text == "x"));
    assert!(matches!(value.get("whole"), Some(ConfigValue::Integer(-7))));
    assert_eq!(value.get("part").and_then(|part| part.as_float()).map(number), Some(0.5));
    assert_eq!(value.get("flag").and_then(|flag| flag.as_bool()), Some(true));
    assert!(matches!(value.get("day"), Some(ConfigValue::Datetime(day)) if day == "2024-05-06"));
    match value.get("list") {
        Some(ConfigValue::Array(items)) => {
            assert_eq!(items.len(), 2);
            assert!(matches!(items[0], ConfigValue::Integer(1)));
            assert!(matches!(&items[1], ConfigValue::Array(inner) if inner.len() == 1));
        }
        other => panic!("unexpected value: {other:?}"),
    }
    assert!(value.get("missing").is_none());
    assert!(value.get("whole").and_then(|whole| whole.as_float()).is_none());
    assert!(value.get("whole").and_then(|whole| whole.as_str()).is_none());
    assert!(value.get("whole").and_then(|whole| whole.get("x")).is_none());
}

#[test]
fn overlays_win_key_by_key() {
    let mut value = parse_config("a = 1\nb = 2\n[t]\nx = 1\ny = 2\n").expect("base should parse");
    merge_toml_value(&mut value, parse_config("b = \"two\"\nc = 3\n[t]\ny = 20\n").unwrap());

    assert!(matches!(value.get("a"), Some(ConfigValue::Integer(1))));
    assert_eq!(value.get("b").and_then(|b| b.as_str()), Some("two"));
    assert!(matches!(value.get("c"), Some(ConfigValue::Integer(3))));
    let table = value.get("t").expect("the table should be there");
    assert!(matches!(table.get("x"), Some(ConfigValue::Integer(1))));
    assert!(matches!(table.get("y"), Some(ConfigValue::Integer(20))));
}

#[test]
fn values_that_are_no_tables_give_way() {
    let mut value = ConfigValue::Integer(1);
    merge_toml_value(&mut value, parse_config("x = 1\n").unwrap());
    assert!(matches!(value.get("x"), Some(ConfigValue::Integer(1))));
    merge_toml_value(&mut value, ConfigValue::Boolean(true));
    assert_eq!(value.as_bool(), Some(true));
}

#[test]
fn merging_again_changes_nothing() {
    let text = "font-size = 18.0\n[keys]\nwindow-new = \"Cmd-Shift-N\"\n";
    let mut value = bundled_default_value();
    merge_toml_value(&mut value, parse_config(text).unwrap());
    let once = format!("{value:?}");
    merge_toml_value(&mut value, parse_config(text).unwrap());
    assert_eq!(format!("{value:?}"), once);
    merge_toml_value(&mut value, ConfigValue::Table(Vec::new()));
    assert_eq!(format!("{value:?}"), once);
}

#[test]
fn merged_tables_hold_each_key_once() {
    let mut value = ConfigValue::Table(Vec::new());
    let entry = ConfigEntry { key: "a".to_string(), value: ConfigValue::Integer(1) };
    merge_toml_value(&mut value, ConfigValue::Table(vec![entry]));
    let entry = ConfigEntry { key: "a".to_string(), value: ConfigValue::Integer(2) };
    merge_toml_value(&mut value, ConfigValue::Table(vec![entry]));
    assert!(matches!(
        &value,
        ConfigValue::Table(entries)
            if entries.len() == 1 && matches!(entries[0].value, ConfigValue::Integer(2))
    ));
}

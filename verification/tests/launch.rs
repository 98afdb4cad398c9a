use kakvide::config::{bundled_config_path, checked_config_paths};
use kakvide::launch::{
    app_command_from_user_action, default_launch_directory, early_exit_output, extract_kak_bin,
    should_show_combined_help, AppCommand,
};
use kakvide::startup::Args;
use kakvide::user_keys::{FontSizeAction, UserAction};

fn list(items: &[&str]) -> Vec<Vec<u8>> {
    items.iter().map(|item| item.as_bytes().to_vec()).collect()
}

#[test]
fn top_level_help_triggers_combined_help() {
    assert!(should_show_combined_help(&list(&["kakvide", "--help"])));
}

#[test]
fn forwarded_help_after_double_dash_does_not_trigger_combined_help() {
    assert!(should_show_combined_help(&list(&["kakvide", "--", "--help"])));
}

#[test]
fn forwarded_non_help_after_double_dash_does_not_trigger_combined_help() {
    assert!(!should_show_combined_help(&list(&["kakvide", "--", "file.txt"])));
}

#[test]
fn custom_kak_bin_is_extracted_for_help() {
    assert_eq!(
        extract_kak_bin(&list(&["kakvide", "--kak-bin", "/tmp/kak", "--help"])),
        b"/tmp/kak".to_vec()
    );
}

#[test]
fn launch_directory_defaults_to_home_when_started_at_root() {
    assert_eq!(
        default_launch_directory(b"/", Some(b"/Users/example".to_vec())),
        Some(b"/Users/example".to_vec())
    );
}

#[test]
fn launch_directory_preserves_non_root_current_directory() {
    assert_eq!(
        default_launch_directory(b"/Users/example/project", Some(b"/Users/example".to_vec())),
        None
    );
}

#[test]
fn launch_directory_ignores_missing_home() {
    assert_eq!(default_launch_directory(b"/", None), None);
}

#[test]
fn early_exit_output_returns_none_without_show_config() {
    let args = Args {
        show_config: false,
        kak_bin: "kak".to_string(),
        kak_args: list(&["file.txt"]),
    };

    assert_eq!(early_exit_output(&args, &[], ""), None);
}

#[test]
fn early_exit_output_returns_effective_config_for_show_config() {
    let args = Args { show_config: true, kak_bin: "kak".to_string(), kak_args: Vec::new() };
    let paths = checked_config_paths(&bundled_config_path(b"/src"), None, Some(b"/Users/example"));
    let toml = "font-family = \"SF Mono\"\n\n[macos]\ncolor-space = \"p3\"\n\n[keys]\n";
    let output = early_exit_output(&args, &paths, toml).expect("show config should early-exit");

    assert!(output.contains("Checked configuration paths:"));
    assert!(output.contains("Current configuration:\n\n"));
    assert!(output.contains("kakvide.toml"));
    assert!(output.contains("font-family = "));
    assert!(output.contains("[macos]"));
    assert!(output.contains("[keys]"));
}

#[test]
fn early_exit_output_lists_the_paths_line_by_line() {
    let args = Args { show_config: true, kak_bin: "kak".to_string(), kak_args: Vec::new() };
    assert_eq!(
        early_exit_output(&args, &[b"/a".to_vec(), b"/\xff".to_vec()], "x = 1\n"),
        Some(
            "Checked configuration paths:\n- /a\n- /\u{fffd}\n\nCurrent configuration:\n\nx = 1\n"
                .to_string()
        )
    );
}

#[test]
fn help_is_only_asked_for_before_the_double_dash_or_alone_behind_it() {
    assert!(should_show_combined_help(&list(&["kakvide", "file.txt", "-h"])));
    assert!(should_show_combined_help(&list(&["kakvide", "a", "--", "-help"])));
    assert!(!should_show_combined_help(&list(&["kakvide", "--", "-h"])));
    assert!(!should_show_combined_help(&list(&["kakvide", "--", "--help", "x"])));
    assert!(!should_show_combined_help(&list(&["--help"])));
    assert!(!should_show_combined_help(&[]));
}

#[test]
fn editor_is_kak_unless_another_is_named() {
    assert_eq!(extract_kak_bin(&list(&["kakvide"])), b"kak".to_vec());
    assert_eq!(extract_kak_bin(&list(&["kakvide", "--kak-bin"])), b"kak".to_vec());
    assert_eq!(extract_kak_bin(&list(&["kakvide", "--", "--kak-bin", "x"])), b"kak".to_vec());
    assert_eq!(extract_kak_bin(&[]), b"kak".to_vec());
}

#[test]
fn root_is_known_however_it_is_written() {
    assert_eq!(default_launch_directory(b"//", Some(b"/h".to_vec())), Some(b"/h".to_vec()));
    assert_eq!(default_launch_directory(b"", Some(b"/h".to_vec())), None);
}

#[test]
fn keys_stand_for_commands() {
    let actions = [
        UserAction::FontSize(FontSizeAction::Increase),
        UserAction::FontSize(FontSizeAction::Decrease),
        UserAction::FontSize(FontSizeAction::Reset),
        UserAction::WindowNew,
        UserAction::WindowClose,
    ];
    let commands: Vec<AppCommand> =
        actions.iter().map(|action| app_command_from_user_action(*action)).collect();
    assert!(matches!(commands[0], AppCommand::FontScaleUp));
    assert!(matches!(commands[1], AppCommand::FontScaleDown));
    assert!(matches!(commands[2], AppCommand::FontScaleReset));
    assert!(matches!(commands[3], AppCommand::WindowNew));
    assert!(matches!(commands[4], AppCommand::WindowClose));
}

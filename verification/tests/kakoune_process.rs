use kakvide::kakoune_process::{
    build_kakoune_command, build_kakoune_help_command, build_kakoune_list_sessions_command,
    constrained_app_path, decode_json_ui_line, expand_home_dir_with_home,
    kakvide_post_boot_command, parse_client_close_message, parse_kakoune_sessions,
    program_candidates, read_client_close_message, shell_quote, trim_line_ending,
    ClientCloseListener,
};
use kakvide::startup::Args;

fn list(items: &[&str]) -> Vec<Vec<u8>> {
    items.iter().map(|item| item.as_bytes().to_vec()).collect()
}

#[test]
fn json_ui_line_decoder_accepts_valid_utf8_line() {
    let decoded = decode_json_ui_line(b"{\"jsonrpc\":\"2.0\"}\n");

    assert_eq!(decoded.text, "{\"jsonrpc\":\"2.0\"}");
    assert!(decoded.utf8_error.is_none());
    assert_eq!(decoded.byte_len, 17);
}

#[test]
fn json_ui_line_decoder_trims_crlf() {
    let decoded = decode_json_ui_line(b"{\"jsonrpc\":\"2.0\"}\r\n");

    assert_eq!(decoded.text, "{\"jsonrpc\":\"2.0\"}");
    assert!(decoded.utf8_error.is_none());
    assert_eq!(decoded.byte_len, 17);
}

#[test]
fn json_ui_line_decoder_replaces_invalid_utf8_in_atom_contents() {
    let mut raw = br#"{"jsonrpc":"2.0","method":"draw","params":[[[{"face":{"fg":"default","bg":"default","underline":"default","attributes":[]},"contents":"a"#.to_vec();
    raw.push(0xff);
    raw.extend_from_slice(
        br#"b"}]],{"line":0,"column":0},{"fg":"default","bg":"default","underline":"default","attributes":[]},{"fg":"blue","bg":"default","underline":"default","attributes":[]},0]}"#,
    );
    raw.push(b'\n');

    let decoded = decode_json_ui_line(&raw);

    assert!(decoded.utf8_error.is_some());
    let message: serde_json::Value = serde_json::from_str(&decoded.text).unwrap();
    assert_eq!(message["method"], "draw");
    assert_eq!(message["params"][0][0][0]["contents"], "a\u{fffd}b");
}

#[test]
fn post_boot_command_tracks_working_directory_without_renaming_client() {
    let command = kakvide_post_boot_command(None);

    assert!(!command.contains("rename-client"));
    assert!(command.contains("EnterDirectory"));
    assert!(command.contains("%val{hook_param} - %val{client}"));
    assert!(command.contains("%sh{pwd} - %val{client}"));
    assert!(command.contains("%val{hook_param}"));
    assert!(command.contains("%sh{pwd}"));
    assert!(!command.contains("buffile"));
}

#[test]
fn post_boot_command_installs_client_close_hook() {
    let command = kakvide_post_boot_command(Some(b"/tmp/a b.sock"));

    assert!(command.contains("hook -once global ClientClose \"^%val{client}$\""));
    assert!(command.contains("KAKVIDE_CLIENT_CLOSE:%s:%s\\n"));
    assert!(command.contains("nc -U '/tmp/a b.sock'"));
}

#[test]
fn post_boot_command_is_written_out() {
    assert_eq!(
        kakvide_post_boot_command(None),
        "hook global EnterDirectory .* %{ set-option -add window ui_options \"kakvide_title=%val{hook_param} - %val{client}\" }; set-option -add window ui_options \"kakvide_title=%sh{pwd} - %val{client}\""
    );
    assert!(kakvide_post_boot_command(Some(b"/s")).ends_with(
        "%val{client}\"; hook -once global ClientClose \"^%val{client}$\" %{ nop %sh{ printf 'KAKVIDE_CLIENT_CLOSE:%s:%s\\n' \"$kak_session\" \"$kak_hook_param\" | nc -U '/s' } }"
    ));
}

#[test]
fn client_close_message_parser_extracts_session_and_client() {
    assert_eq!(
        parse_client_close_message("KAKVIDE_CLIENT_CLOSE:work:kakvide-123-0"),
        Some((b"work".to_vec(), "kakvide-123-0".to_string()))
    );
}

#[test]
fn client_close_messages_without_session_or_client_are_ignored() {
    assert_eq!(parse_client_close_message("KAKVIDE_CLIENT_CLOSE:work:"), None);
    assert_eq!(parse_client_close_message("KAKVIDE_CLIENT_CLOSE::client"), None);
    assert_eq!(parse_client_close_message("KAKVIDE_CLIENT_CLOSE:work"), None);
    assert_eq!(parse_client_close_message("work:client"), None);
    assert_eq!(parse_client_close_message(""), None);
}

#[test]
fn client_close_messages_are_read_back_from_a_line() {
    assert_eq!(
        read_client_close_message("KAKVIDE_CLIENT_CLOSE:work:a:b\n"),
        Some((b"work".to_vec(), "a:b".to_string()))
    );
    assert_eq!(read_client_close_message("  \n"), None);
}

#[test]
fn session_list_parser_trims_blank_lines() {
    assert_eq!(
        parse_kakoune_sessions(b"\nmain\n  scratch  \n\n"),
        list(&["main", "scratch"])
    );
}

#[test]
fn session_list_parser_replaces_what_is_no_text() {
    assert_eq!(
        parse_kakoune_sessions(b"a\xff\r\nb"),
        vec!["a\u{fffd}".as_bytes().to_vec(), b"b".to_vec()]
    );
    assert!(parse_kakoune_sessions(b"").is_empty());
}

#[test]
fn unix_shell_command_runs_kak_through_shell_lc() {
    let args = Args {
        show_config: false,
        kak_bin: "kak".to_string(),
        kak_args: list(&["file.txt"]),
    };
    let command = build_kakoune_command(&args, Some(b"/bin/sh"), None, None);

    assert_eq!(command.program, b"/bin/sh".to_vec());
    assert_eq!(
        command.args,
        list(&["-lc", "exec \"$@\"", "kakvide-kak", "kak", "-ui", "json", "file.txt"])
    );
    assert_eq!(command.path, None);
}

#[test]
fn unix_shell_help_command_runs_kak_through_shell_lc() {
    let command = build_kakoune_help_command(b"kak", Some(b"/bin/sh"), None, None);

    assert_eq!(
        command.args,
        list(&["-lc", "exec \"$@\"", "kakvide-kak", "kak", "--help"])
    );
}

#[test]
fn build_kakoune_command_includes_json_ui_before_forwarded_args() {
    let args = Args {
        show_config: false,
        kak_bin: "kak".to_string(),
        kak_args: list(&["-d", "-e", "echo hi", "file.txt"]),
    };

    let command = build_kakoune_command(&args, None, None, None);

    assert_eq!(command.program, b"kak".to_vec());
    assert_eq!(
        command.args,
        list(&["-ui", "json", "-d", "-e", "echo hi", "file.txt"])
    );
}

#[test]
fn commands_without_a_shell_run_the_file_that_was_found() {
    let command = build_kakoune_list_sessions_command(
        b"kak",
        Some(b""),
        Some(b"/bin"),
        Some(b"/opt/homebrew/bin/kak"),
    );

    assert_eq!(command.program, b"/opt/homebrew/bin/kak".to_vec());
    assert_eq!(command.args, list(&["-l"]));
    assert_eq!(
        command.path,
        Some(b"/usr/local/bin/:/opt/homebrew/bin:~/.local/bin:/bin".to_vec())
    );
}

#[test]
fn constrained_app_path_prepends_search_paths() {
    assert_eq!(
        constrained_app_path(Some(b"/usr/bin:/bin")),
        b"/usr/local/bin/:/opt/homebrew/bin:~/.local/bin:/usr/bin:/bin".to_vec()
    );
}

#[test]
fn constrained_app_path_uses_only_search_paths_without_existing_path() {
    assert_eq!(
        constrained_app_path(None),
        b"/usr/local/bin/:/opt/homebrew/bin:~/.local/bin".to_vec()
    );
}

#[test]
fn resolves_program_from_constrained_path_with_expanded_home() {
    assert_eq!(
        expand_home_dir_with_home(b"~/.local/bin", Some(b"/base/home")),
        b"/base/home/.local/bin".to_vec()
    );
    assert_eq!(
        program_candidates(b"kak", b"/base/home/.local/bin", None),
        list(&["/base/home/.local/bin/kak"])
    );
}

#[test]
fn tildes_are_only_expanded_at_the_front() {
    assert_eq!(expand_home_dir_with_home(b"~", Some(b"/h")), b"/h".to_vec());
    assert_eq!(expand_home_dir_with_home(b"~", None), b"~".to_vec());
    assert_eq!(expand_home_dir_with_home(b"~user", Some(b"/h")), b"~user".to_vec());
    assert_eq!(expand_home_dir_with_home(b"/a/~/", Some(b"/h")), b"/a/~/".to_vec());
    assert_eq!(expand_home_dir_with_home(b"~/\xff", Some(b"/h")), b"~/\xff".to_vec());
}

#[test]
fn programs_are_looked_for_in_every_directory() {
    assert_eq!(
        program_candidates(b"kak", b"/usr/local/bin/:~/bin::/bin", Some(b"/h")),
        list(&["/usr/local/bin/kak", "/h/bin/kak", "kak", "/bin/kak"])
    );
    assert!(program_candidates(b"./kak", b"/bin", None).is_empty());
}

#[test]
fn quoting_escapes_quotes() {
    assert_eq!(shell_quote("it's"), "'it'\\''s'");
    assert_eq!(shell_quote("a'"), "'a'\\'''");
    assert_eq!(shell_quote(""), "''");
    assert_eq!(shell_quote("''a"), "'a'");
}

#[test]
fn one_line_ending_is_trimmed() {
    assert_eq!(trim_line_ending(b"a\n"), b"a");
    assert_eq!(trim_line_ending(b"a\r"), b"a");
    assert_eq!(trim_line_ending(b"a\n\n"), b"a\n");
    assert_eq!(trim_line_ending(b"\r\n"), b"");
    assert_eq!(trim_line_ending(b""), b"");
}

#[test]
fn socket_of_a_process_is_a_temporary_file() {
    let listener = ClientCloseListener::for_process(b"/tmp", 120);
    assert_eq!(listener.path(), b"/tmp/kakvide-client-close-120.sock");
}

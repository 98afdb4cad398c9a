use kakvide::config::AppConfig;
use kakvide::startup::{
    connected_kakoune_args, explicit_kakoune_session, resolve_kakoune_session,
    should_create_fallback_startup_client, should_handle_startup_open_with_files,
    should_ignore_startup_open_files, startup_args, startup_open_files,
    startup_open_state_for_launch, Args, StartupOpenState,
};

fn list(items: &[&str]) -> Vec<Vec<u8>> {
    items.iter().map(|item| item.as_bytes().to_vec()).collect()
}

fn args(kak_args: &[&str]) -> Args {
    Args { show_config: false, kak_bin: "kak".to_string(), kak_args: list(kak_args) }
}

fn shared() -> AppConfig {
    AppConfig {
        single_session: true,
        session_name: "shared".to_string(),
        ..AppConfig::default()
    }
}

#[test]
fn session_resolution_uses_child_id_without_explicit_session() {
    assert_eq!(resolve_kakoune_session(&list(&["file.txt"]), 12345), b"12345".to_vec());
}

#[test]
fn session_resolution_uses_explicit_server_session() {
    assert_eq!(
        resolve_kakoune_session(&list(&["-s", "work", "file.txt"]), 12345),
        b"work".to_vec()
    );
}

#[test]
fn session_resolution_uses_explicit_client_session() {
    assert_eq!(
        resolve_kakoune_session(&list(&["-c", "work", "file.txt"]), 12345),
        b"work".to_vec()
    );

    assert_eq!(
        resolve_kakoune_session(&list(&["-C", "maybe-work", "file.txt"]), 12345),
        b"maybe-work".to_vec()
    );
}

#[test]
fn startup_args_enable_single_session_for_fresh_launch() {
    let args = startup_args(&args(&["file.txt"]), &shared(), &[]);

    assert_eq!(args.kak_args, list(&["-C", "shared", "file.txt"]));
}

#[test]
fn startup_args_use_single_session_for_startup_open_files() {
    let args = startup_args(&args(&[]), &shared(), &list(&["file.txt"]));

    assert_eq!(args.kak_args, list(&["-C", "shared", "file.txt"]));
}

#[test]
fn startup_args_preserve_explicit_session_flags() {
    let args = startup_args(&args(&["-c", "manual", "file.txt"]), &shared(), &[]);

    assert_eq!(args.kak_args, list(&["-c", "manual", "file.txt"]));
}

#[test]
fn startup_open_files_skips_known_option_values() {
    assert_eq!(
        startup_open_files(&list(&["-e", "echo hi", "-s", "work", "file.txt", "--", "-literal"])),
        list(&["file.txt", "-literal"])
    );
}

#[test]
fn startup_open_files_are_ignored_only_once() {
    let mut pending = Some(list(&["file.txt"]));

    assert!(should_ignore_startup_open_files(&mut pending, &list(&["file.txt"])));
    assert!(!should_ignore_startup_open_files(&mut pending, &list(&["file.txt"])));
}

#[test]
fn startup_open_waits_for_open_files_on_macos_only_for_empty_launch() {
    assert_eq!(
        startup_open_state_for_launch(true, &[]),
        StartupOpenState::WaitingForStartupOpenFiles
    );
    assert_eq!(
        startup_open_state_for_launch(true, &list(&["file.txt"])),
        StartupOpenState::NoPendingStartupOpen
    );
    assert_eq!(
        startup_open_state_for_launch(false, &[]),
        StartupOpenState::NoPendingStartupOpen
    );
}

#[test]
fn fallback_startup_client_is_only_created_when_nothing_else_happened() {
    assert!(should_create_fallback_startup_client(
        StartupOpenState::NoPendingStartupOpen,
        false,
        false
    ));
    assert!(!should_create_fallback_startup_client(
        StartupOpenState::StartupOpenHandled,
        false,
        false
    ));
    assert!(!should_create_fallback_startup_client(
        StartupOpenState::NoPendingStartupOpen,
        true,
        false
    ));
}

#[test]
fn files_open_the_first_window_only_while_they_are_expected() {
    let waiting = StartupOpenState::WaitingForStartupOpenFiles;
    assert!(should_handle_startup_open_with_files(waiting, false, false));
    assert!(!should_handle_startup_open_with_files(waiting, true, false));
    assert!(!should_handle_startup_open_with_files(waiting, false, true));
    assert!(!should_handle_startup_open_with_files(
        StartupOpenState::NoPendingStartupOpen,
        false,
        false
    ));
}

#[test]
fn session_option_at_the_end_names_no_session() {
    assert_eq!(explicit_kakoune_session(&list(&["file.txt", "-c"])), None);
    assert_eq!(resolve_kakoune_session(&list(&["-s"]), 0), b"0".to_vec());
    assert_eq!(resolve_kakoune_session(&[], u32::MAX), b"4294967295".to_vec());
}

#[test]
fn single_session_args_settle() {
    let once = startup_args(&args(&["file.txt"]), &shared(), &[]);
    let twice = startup_args(&once, &shared(), &[]);

    assert_eq!(once.kak_args, twice.kak_args);
    assert_eq!(explicit_kakoune_session(&twice.kak_args), Some(b"shared".to_vec()));
}

#[test]
fn args_stay_without_single_session() {
    let config = AppConfig::default();
    let args = startup_args(&args(&["-e", "echo"]), &config, &[]);

    assert_eq!(args.kak_args, list(&["-e", "echo"]));
    assert_eq!(args.kak_bin, "kak");
}

#[test]
fn open_files_skip_other_options() {
    assert_eq!(startup_open_files(&list(&["-n", "a", "-c"])), list(&["a"]));
    assert_eq!(startup_open_files(&list(&["-c", "a", ""])), list(&[""]));
    assert!(startup_open_files(&[]).is_empty());
}

#[test]
fn repeated_files_are_known_by_their_place() {
    let mut pending = Some(list(&["dir//file.txt", "./b/"]));

    assert!(!should_ignore_startup_open_files(&mut pending, &list(&["dir/file.txt"])));
    assert!(!should_ignore_startup_open_files(&mut pending, &list(&["/dir/file.txt", "./b"])));
    assert!(should_ignore_startup_open_files(&mut pending, &list(&["dir/./file.txt", "./b"])));
    assert_eq!(pending, None);
}

#[test]
fn connected_windows_join_their_session() {
    let args = connected_kakoune_args("kak", b"work", &list(&["a.txt", "b.txt"]));

    assert_eq!(args.kak_args, list(&["-c", "work", "a.txt", "b.txt"]));
    assert_eq!(resolve_kakoune_session(&args.kak_args, 7), b"work".to_vec());
    assert_eq!(startup_open_files(&args.kak_args), list(&["a.txt", "b.txt"]));
    assert!(!args.show_config);
}

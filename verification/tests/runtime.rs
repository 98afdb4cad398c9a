use kakvide::app::CURSOR_MODE_UI_OPTION;
use kakvide::config::AppConfig;
use kakvide::input::{Key, KeyEvent, Modifiers, MouseButton, NamedKey};
use kakvide::launch::AppCommand;
use kakvide::messages::{Coord, Face, KakouneNotification, KakouneRequest, MouseButtonName};
use kakvide::runtime::{Action, AppEvent, LoopEvent, Runtime, Trouble, WindowInput};
use kakvide::startup::{Args, StartupOpenState};
use kakvide::title::WINDOW_TITLE_UI_OPTION;

fn list(items: &[&str]) -> Vec<Vec<u8>> {
    items.iter().map(|item| item.as_bytes().to_vec()).collect()
}

fn args(kak_args: &[&str]) -> Args {
    Args { show_config: false, kak_bin: "kak".to_string(), kak_args: list(kak_args) }
}

fn step(runtime: &mut Runtime, event: LoopEvent) -> Vec<Action> {
    runtime.handle_event(event, &args(&["a.txt"]), &AppConfig::default())
}

fn input(runtime: &mut Runtime, window: u64, input: WindowInput) -> Vec<Action> {
    step(runtime, LoopEvent::Window(window, input))
}

fn started() -> Runtime {
    let mut runtime = Runtime::new(false, &list(&["a.txt"]));
    step(
        &mut runtime,
        LoopEvent::StartupClientCreated {
            by_files: false,
            kak_args: list(&["a.txt"]),
            window_id: 1,
            child_id: 42,
        },
    );
    runtime
}

fn draw() -> KakouneNotification {
    KakouneNotification::Draw {
        lines: Vec::new(),
        cursor_pos: Coord { line: 0, column: 0 },
        default_face: Face::default(),
        padding_face: Face::default(),
        widget_columns: 0,
    }
}

fn set_title(title: &str) -> KakouneNotification {
    let mut options = serde_json::Map::new();
    options.insert(
        WINDOW_TITLE_UI_OPTION.to_string(),
        serde_json::Value::String(title.to_string()),
    );
    KakouneNotification::SetUiOptions { options }
}

fn rpc(runtime: &mut Runtime, window: u64, notification: KakouneNotification) -> Vec<Action> {
    step(runtime, LoopEvent::User(AppEvent::Rpc(window, Box::new(notification))))
}

fn key(pressed: bool, logical_key: Key) -> WindowInput {
    WindowInput::Key {
        pressed,
        event: KeyEvent { logical_key, key_without_modifiers: Key::Unidentified },
    }
}

fn close_key(pressed: bool) -> WindowInput {
    WindowInput::Key {
        pressed,
        event: KeyEvent {
            logical_key: Key::Character("w".to_string()),
            key_without_modifiers: Key::Character("w".to_string()),
        },
    }
}

const LOGO: Modifiers = Modifiers { shift: false, control: false, alt: false, logo: true };

#[test]
fn first_window_is_asked_for_until_there_is_one() {
    let mut runtime = Runtime::new(false, &list(&["a.txt"]));
    let asked = step(&mut runtime, LoopEvent::AboutToWait);
    assert_eq!(
        asked,
        vec![Action::CreateStartupClient { by_files: false, args: args(&["a.txt"]) }]
    );
    let mut runtime = started();
    assert_eq!(step(&mut runtime, LoopEvent::AboutToWait), vec![Action::RedrawIfIndicated(1)]);
    assert_eq!(runtime.session, Some(b"42".to_vec()));
    assert_eq!(runtime.startup, StartupOpenState::NoPendingStartupOpen);
}

#[test]
fn first_window_that_cannot_be_opened_ends_the_program() {
    let mut runtime = Runtime::new(false, &[]);
    assert_eq!(
        step(&mut runtime, LoopEvent::StartupClientFailed { by_files: false }),
        vec![Action::Log(Trouble::StartupFailed), Action::Exit]
    );
    assert_eq!(
        step(&mut runtime, LoopEvent::StartupClientFailed { by_files: true }),
        vec![Action::Log(Trouble::StartupOpenFailed)]
    );
    assert_eq!(Trouble::StartupOpenFailed.text(), "startup open window creation failed");
}

#[test]
fn files_of_the_system_open_the_first_window() {
    let mut runtime = Runtime::new(true, &[]);
    let actions = step(&mut runtime, LoopEvent::User(AppEvent::OpenFiles(list(&["b.txt"]))));
    assert_eq!(
        actions,
        vec![Action::CreateStartupClient { by_files: true, args: args(&["b.txt"]) }]
    );
    step(
        &mut runtime,
        LoopEvent::StartupClientCreated {
            by_files: true,
            kak_args: list(&["-s", "work", "b.txt"]),
            window_id: 7,
            child_id: 1,
        },
    );
    assert_eq!(runtime.session, Some(b"work".to_vec()));
    assert_eq!(runtime.startup, StartupOpenState::StartupOpenHandled);
    assert_eq!(
        step(&mut runtime, LoopEvent::User(AppEvent::OpenFiles(list(&["c.txt"])))),
        vec![Action::OpenSessionWindow { session: b"work".to_vec(), paths: list(&["c.txt"]) }]
    );
}

#[test]
fn repeated_files_of_the_command_line_are_ignored_once() {
    let mut runtime = started();
    let open = || LoopEvent::User(AppEvent::OpenFiles(list(&["a.txt"])));
    assert_eq!(step(&mut runtime, open()), vec![]);
    assert_eq!(
        step(&mut runtime, open()),
        vec![Action::OpenSessionWindow { session: b"42".to_vec(), paths: list(&["a.txt"]) }]
    );
}

#[test]
fn nothing_is_opened_before_there_is_a_session() {
    let mut runtime = Runtime::new(false, &[]);
    assert_eq!(
        step(&mut runtime, LoopEvent::User(AppEvent::OpenFiles(list(&["b"])))),
        vec![Action::Log(Trouble::OpenBeforeSession)]
    );
    assert_eq!(
        step(&mut runtime, LoopEvent::User(AppEvent::Command(AppCommand::WindowNew))),
        vec![Action::Log(Trouble::CommandBeforeSession)]
    );
}

#[test]
fn commands_are_handed_on_with_the_session() {
    let mut runtime = started();
    assert_eq!(
        step(&mut runtime, LoopEvent::User(AppEvent::Command(AppCommand::WindowNew))),
        vec![Action::HandleCommand {
            session: b"42".to_vec(),
            command: AppCommand::WindowNew,
            window: None,
        }]
    );
    input(&mut runtime, 1, WindowInput::ModifiersChanged(LOGO));
    assert_eq!(input(&mut runtime, 1, close_key(false)), vec![]);
    assert_eq!(
        input(&mut runtime, 1, close_key(true)),
        vec![Action::HandleCommand {
            session: b"42".to_vec(),
            command: AppCommand::WindowClose,
            window: Some(1),
        }]
    );
    runtime.session = None;
    assert_eq!(
        input(&mut runtime, 1, close_key(true)),
        vec![Action::Log(Trouble::WindowCommandBeforeSession)]
    );
}

#[test]
fn size_is_told_once_more_at_the_first_drawing() {
    let mut runtime = started();
    assert_eq!(rpc(&mut runtime, 1, draw()), vec![Action::SendResize(1), Action::Redraw(1)]);
    assert_eq!(rpc(&mut runtime, 1, draw()), vec![Action::Redraw(1)]);
    assert_eq!(rpc(&mut runtime, 9, draw()), vec![]);
}

#[test]
fn titles_are_set_and_clients_named() {
    let mut runtime = started();
    assert_eq!(
        rpc(&mut runtime, 1, set_title("/tmp - client0")),
        vec![
            Action::SetTitle(1, "kakvide - /tmp - client0".to_string()),
            Action::Redraw(1),
        ]
    );
    assert_eq!(runtime.clients[0].client_id, Some("client0".to_string()));
    rpc(&mut runtime, 1, set_title("/tmp - other"));
    assert_eq!(runtime.clients[0].client_id, Some("client0".to_string()));
    assert_eq!(rpc(&mut runtime, 1, set_title("/tmp - other")), vec![Action::Redraw(1)]);
    let mut options = serde_json::Map::new();
    options.insert(
        CURSOR_MODE_UI_OPTION.to_string(),
        serde_json::Value::String("insert".to_string()),
    );
    rpc(&mut runtime, 1, KakouneNotification::SetUiOptions { options });
    assert_eq!(runtime.clients[0].client_id, Some("client0".to_string()));
}

#[test]
fn program_ends_with_its_last_window() {
    let mut runtime = started();
    step(
        &mut runtime,
        LoopEvent::SessionWindowOpened { window_id: 2, session: b"42".to_vec() },
    );
    assert_eq!(
        step(&mut runtime, LoopEvent::User(AppEvent::KakouneExited(1))),
        vec![Action::Close(1)]
    );
    assert_eq!(step(&mut runtime, LoopEvent::User(AppEvent::KakouneExited(5))), vec![]);
    assert_eq!(
        input(&mut runtime, 2, WindowInput::CloseRequested),
        vec![Action::Kill(2), Action::Close(2), Action::Exit]
    );
    assert!(runtime.clients.is_empty());
}

#[test]
fn closed_clients_are_known_by_session_and_name() {
    let mut runtime = started();
    rpc(&mut runtime, 1, set_title("/tmp - client0"));
    step(
        &mut runtime,
        LoopEvent::SessionWindowOpened { window_id: 2, session: b"other".to_vec() },
    );
    rpc(&mut runtime, 2, set_title("/tmp - client0"));
    let closed = |session: &[u8]| {
        LoopEvent::User(AppEvent::ClientClosed {
            session: session.to_vec(),
            client_id: "client0".to_string(),
        })
    };
    assert_eq!(step(&mut runtime, closed(b"none")), vec![]);
    assert_eq!(step(&mut runtime, closed(b"42")), vec![Action::Close(1)]);
    assert_eq!(step(&mut runtime, closed(b"other")), vec![Action::Close(2), Action::Exit]);
}

#[test]
fn windows_are_never_doubled() {
    let mut runtime = started();
    step(
        &mut runtime,
        LoopEvent::SessionWindowOpened { window_id: 1, session: b"new".to_vec() },
    );
    assert_eq!(runtime.clients.len(), 1);
    assert_eq!(runtime.clients[0].session, b"new".to_vec());
}

#[test]
fn windows_are_painted_and_resized() {
    let mut runtime = started();
    assert_eq!(
        input(&mut runtime, 1, WindowInput::Resized),
        vec![Action::ResizeSurface(1), Action::SendResize(1), Action::Redraw(1)]
    );
    assert_eq!(input(&mut runtime, 1, WindowInput::RedrawRequested), vec![Action::Render(1)]);
    assert_eq!(input(&mut runtime, 1, WindowInput::Rendered { ok: true }), vec![]);
    assert_eq!(
        input(&mut runtime, 1, WindowInput::ScaleFactorChanged),
        vec![Action::SendResize(1), Action::Redraw(1)]
    );
    assert_eq!(input(&mut runtime, 1, WindowInput::Other), vec![]);
    assert_eq!(
        input(&mut runtime, 1, WindowInput::Rendered { ok: false }),
        vec![Action::Kill(1), Action::Close(1), Action::Exit]
    );
}

#[test]
fn menus_and_icon_are_put_up_once() {
    let mut runtime = Runtime::new(true, &list(&["a.txt"]));
    assert_eq!(step(&mut runtime, LoopEvent::Resumed), vec![Action::InstallMenus]);
    step(
        &mut runtime,
        LoopEvent::SessionWindowOpened { window_id: 1, session: b"s".to_vec() },
    );
    assert_eq!(
        step(&mut runtime, LoopEvent::Resumed),
        vec![Action::SendResize(1), Action::Redraw(1)]
    );
    assert_eq!(input(&mut runtime, 1, WindowInput::Rendered { ok: true }), vec![Action::ApplyIcon]);
    assert_eq!(input(&mut runtime, 1, WindowInput::Rendered { ok: true }), vec![]);
}

#[test]
fn keys_and_text_are_sent() {
    let mut runtime = started();
    let keys = |text: &str| {
        vec![Action::Send(1, KakouneRequest::Keys { keys: vec![text.to_string()] })]
    };
    assert_eq!(input(&mut runtime, 1, WindowInput::ImeCommit("é".to_string())), keys("é"));
    assert_eq!(input(&mut runtime, 1, WindowInput::ImeCommit(String::new())), vec![]);
    assert_eq!(input(&mut runtime, 1, key(true, Key::Named(NamedKey::Tab))), keys("<tab>"));
    assert_eq!(input(&mut runtime, 1, key(false, Key::Named(NamedKey::Tab))), vec![]);
    assert_eq!(input(&mut runtime, 1, key(true, Key::Unidentified)), vec![]);
    assert_eq!(input(&mut runtime, 1, close_key(true)), keys("w"));
    input(&mut runtime, 1, WindowInput::ModifiersChanged(LOGO));
    assert_eq!(input(&mut runtime, 1, WindowInput::ImeCommit("é".to_string())), vec![]);
}

#[test]
fn pointer_is_followed_while_it_drags() {
    let mut runtime = started();
    let coord = Coord { line: 3, column: 4 };
    assert_eq!(input(&mut runtime, 1, WindowInput::CursorMoved(coord)), vec![]);
    assert_eq!(
        input(
            &mut runtime,
            1,
            WindowInput::MouseInput { pressed: true, button: MouseButton::Left }
        ),
        vec![Action::Send(
            1,
            KakouneRequest::MousePress { button: MouseButtonName::Left, coord }
        )]
    );
    let next = Coord { line: 3, column: 5 };
    assert_eq!(
        input(&mut runtime, 1, WindowInput::CursorMoved(next)),
        vec![Action::Send(1, KakouneRequest::MouseMove { coord: next })]
    );
    assert_eq!(
        input(
            &mut runtime,
            1,
            WindowInput::MouseInput { pressed: false, button: MouseButton::Left }
        ),
        vec![Action::Send(
            1,
            KakouneRequest::MouseRelease { button: MouseButtonName::Left, coord: next }
        )]
    );
    assert_eq!(input(&mut runtime, 1, WindowInput::CursorMoved(coord)), vec![]);
    input(&mut runtime, 1, WindowInput::MouseInput { pressed: true, button: MouseButton::Left });
    input(&mut runtime, 1, WindowInput::PointerLeft);
    assert_eq!(input(&mut runtime, 1, WindowInput::CursorMoved(coord)), vec![]);
    assert_eq!(
        input(&mut runtime, 1, WindowInput::Wheel(Some(-2))),
        vec![Action::Send(1, KakouneRequest::Scroll { amount: -2, coord })]
    );
    assert_eq!(input(&mut runtime, 1, WindowInput::Wheel(None)), vec![]);
}

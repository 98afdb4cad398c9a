//! The windows of the program, and what becomes of them event by event.

use vstd::prelude::*;

use crate::app::{apply_notification, initial_app, notified, AppState, AppView};
use crate::config::{AppConfig, AppConfigView, KeysView, UserKeysConfig};
use crate::input::{
    button_name, key_event_text, key_event_to_kak, mouse_button_to_kak, KeyEvent, Modifiers,
    MouseButton, MouseMotionState,
};
use crate::launch::{app_command_from_user_action, command_of, AppCommand};
use crate::messages::{Coord, KakouneNotification, KakouneRequest, RequestView};
use crate::paths::{copied_bytes, same_bytes};
use crate::startup::{
    files_from, first_args, needs_first_window, opens_first_window, resolve_kakoune_session,
    same_places, session_of, should_create_fallback_startup_client,
    should_handle_startup_open_with_files, should_ignore_startup_open_files, startup_args,
    startup_open_files, startup_open_state_for_launch, Args, ArgsView, StartupOpenState,
};
use crate::strings::same_text;
use crate::title::{decode_title_update, title_in};
use crate::user_keys::{action_for_event, action_of_key};

verus! {

/// A window, and the client of the editor that it shows.
#[derive(Debug)]
pub struct Client {
    pub window_id: u64,
    pub session: Vec<u8>,
    pub client_id: Option<String>,
    pub state: AppState,
    pub did_force_startup_resize: bool,
    pub modifiers: Modifiers,
    pub mouse_cell: Coord,
    pub mouse_motion: MouseMotionState,
}

/// A window and its client, as sequences.
pub struct ClientView {
    pub window_id: u64,
    pub session: Seq<u8>,
    pub client_id: Option<Seq<char>>,
    pub state: AppView,
    pub did_force_startup_resize: bool,
    pub modifiers: Modifiers,
    pub mouse_cell: Coord,
    pub dragging: bool,
}

impl DeepView for Client {
    type V = ClientView;

    open spec fn deep_view(&self) -> ClientView {
        ClientView {
            window_id: self.window_id,
            session: self.session@,
            client_id: match self.client_id {
                Some(name) => Some(name@),
                None => None,
            },
            state: self.state.deep_view(),
            did_force_startup_resize: self.did_force_startup_resize,
            modifiers: self.modifiers,
            mouse_cell: self.mouse_cell,
            dragging: self.mouse_motion.is_dragging(),
        }
    }
}

/// No modifier key held down.
pub open spec fn no_modifiers() -> Modifiers {
    Modifiers { shift: false, control: false, alt: false, logo: false }
}

/// A window that was just opened.
pub open spec fn new_client(window_id: u64, session: Seq<u8>) -> ClientView {
    ClientView {
        window_id,
        session,
        client_id: None,
        state: initial_app(),
        did_force_startup_resize: false,
        modifiers: no_modifiers(),
        mouse_cell: Coord { line: 0, column: 0 },
        dragging: false,
    }
}

impl Client {
    /// A window that was just opened.
    pub fn new(window_id: u64, session: Vec<u8>) -> (client: Self)
        ensures
            client.deep_view() == new_client(window_id, session@),
    {
        Client {
            window_id,
            session,
            client_id: None,
            state: AppState::default(),
            did_force_startup_resize: false,
            modifiers: Modifiers { shift: false, control: false, alt: false, logo: false },
            mouse_cell: Coord { line: 0, column: 0 },
            mouse_motion: MouseMotionState::default(),
        }
    }
}

/// What went wrong.
#[derive(Debug, Clone, Copy, PartialEq, Eq, Structural)]
pub enum Trouble {
    OpenBeforeSession,
    CommandBeforeSession,
    WindowCommandBeforeSession,
    StartupOpenFailed,
    StartupFailed,
}

/// What is said of what went wrong.
pub open spec fn trouble_text(trouble: Trouble) -> Seq<char> {
    match trouble {
        Trouble::OpenBeforeSession => "open file requested before startup session was ready"@,
        Trouble::CommandBeforeSession => "command requested before startup session was ready"@,
        Trouble::WindowCommandBeforeSession =>
            "window command requested before startup session was ready"@,
        Trouble::StartupOpenFailed => "startup open window creation failed"@,
        Trouble::StartupFailed => "startup window creation failed"@,
    }
}

impl Trouble {
    /// What is said of what went wrong.
    pub fn text(&self) -> (text: &'static str)
        ensures
            text@ == trouble_text(*self),
    {
        match self {
            Trouble::OpenBeforeSession => "open file requested before startup session was ready",
            Trouble::CommandBeforeSession => "command requested before startup session was ready",
            Trouble::WindowCommandBeforeSession =>
                "window command requested before startup session was ready",
            Trouble::StartupOpenFailed => "startup open window creation failed",
            Trouble::StartupFailed => "startup window creation failed",
        }
    }
}

/// Something for the program to do. Numbers are those of windows.
#[derive(Debug, PartialEq, Eq)]
pub enum Action {
    /// Tell the editor the size of a window.
    SendResize(u64),
    /// Have a window painted anew.
    Redraw(u64),
    /// Have a window painted anew if it shows that there are several cursors.
    RedrawIfIndicated(u64),
    /// Give a window a title.
    SetTitle(u64, String),
    /// Send a request to the editor of a window.
    Send(u64, KakouneRequest),
    /// Stop the editor of a window.
    Kill(u64),
    /// Take a window off the screen.
    Close(u64),
    /// Make the surface of a window as large as the window.
    ResizeSurface(u64),
    /// Paint a window now.
    Render(u64),
    /// Open the first window, for files that the system opens or on its own.
    CreateStartupClient { by_files: bool, args: Args },
    /// Open a window on a session, with files.
    OpenSessionWindow { session: Vec<u8>, paths: Vec<Vec<u8>> },
    /// Carry out a command, for a window if it comes from one.
    HandleCommand { session: Vec<u8>, command: AppCommand, window: Option<u64> },
    /// Say what went wrong.
    Log(Trouble),
    /// Put up the menus of macOS.
    InstallMenus,
    /// Put up the program's icon on macOS.
    ApplyIcon,
    /// End the program.
    Exit,
}

/// Something for the program to do, as sequences.
pub enum ActionView {
    SendResize(u64),
    Redraw(u64),
    RedrawIfIndicated(u64),
    SetTitle(u64, Seq<char>),
    Send(u64, RequestView),
    Kill(u64),
    Close(u64),
    ResizeSurface(u64),
    Render(u64),
    CreateStartupClient { by_files: bool, args: ArgsView },
    OpenSessionWindow { session: Seq<u8>, paths: Seq<Seq<u8>> },
    HandleCommand { session: Seq<u8>, command: AppCommand, window: Option<u64> },
    Log(Trouble),
    InstallMenus,
    ApplyIcon,
    Exit,
}

impl DeepView for Action {
    type V = ActionView;

    open spec fn deep_view(&self) -> ActionView {
        match self {
            Action::SendResize(id) => ActionView::SendResize(*id),
            Action::Redraw(id) => ActionView::Redraw(*id),
            Action::RedrawIfIndicated(id) => ActionView::RedrawIfIndicated(*id),
            Action::SetTitle(id, title) => ActionView::SetTitle(*id, title@),
            Action::Send(id, request) => ActionView::Send(*id, request.deep_view()),
            Action::Kill(id) => ActionView::Kill(*id),
            Action::Close(id) => ActionView::Close(*id),
            Action::ResizeSurface(id) => ActionView::ResizeSurface(*id),
            Action::Render(id) => ActionView::Render(*id),
            Action::CreateStartupClient { by_files, args } => ActionView::CreateStartupClient {
                by_files: *by_files,
                args: args.deep_view(),
            },
            Action::OpenSessionWindow { session, paths } => ActionView::OpenSessionWindow {
                session: session@,
                paths: paths.deep_view(),
            },
            Action::HandleCommand { session, command, window } => ActionView::HandleCommand {
                session: session@,
                command: *command,
                window: *window,
            },
            Action::Log(trouble) => ActionView::Log(*trouble),
            Action::InstallMenus => ActionView::InstallMenus,
            Action::ApplyIcon => ActionView::ApplyIcon,
            Action::Exit => ActionView::Exit,
        }
    }
}

/// Add an action.
fn push_action(actions: &mut Vec<Action>, action: Action)
    ensures
        final(actions).deep_view() == old(actions).deep_view().push(action.deep_view()),
{
    actions.push(action);
    assert(actions.deep_view() =~= old(actions).deep_view().push(action.deep_view()));
}

/// All windows, and how far the start of the program has come.
#[derive(Debug)]
pub struct Runtime {
    pub clients: Vec<Client>,
    pub session: Option<Vec<u8>>,
    pub startup: StartupOpenState,
    pub pending_open_files: Option<Vec<Vec<u8>>>,
    pub menus_pending: bool,
    pub icon_pending: bool,
}

/// All windows and the start of the program, as sequences.
pub struct RuntimeView {
    pub clients: Seq<ClientView>,
    pub session: Option<Seq<u8>>,
    pub startup: StartupOpenState,
    pub pending_open_files: Option<Seq<Seq<u8>>>,
    pub menus_pending: bool,
    pub icon_pending: bool,
}

impl DeepView for Runtime {
    type V = RuntimeView;

    open spec fn deep_view(&self) -> RuntimeView {
        RuntimeView {
            clients: self.clients.deep_view(),
            session: match self.session {
                Some(session) => Some(session@),
                None => None,
            },
            startup: self.startup,
            pending_open_files: match self.pending_open_files {
                Some(paths) => Some(paths.deep_view()),
                None => None,
            },
            menus_pending: self.menus_pending,
            icon_pending: self.icon_pending,
        }
    }
}

/// The program before its first event. Files on the command line may be handed
/// in a second time by the system; menus and icon are for macOS alone.
pub open spec fn fresh_runtime(is_macos: bool, kak_args: Seq<Seq<u8>>) -> RuntimeView {
    RuntimeView {
        clients: Seq::empty(),
        session: None,
        startup: if is_macos && kak_args.len() == 0 {
            StartupOpenState::WaitingForStartupOpenFiles
        } else {
            StartupOpenState::NoPendingStartupOpen
        },
        pending_open_files: if files_from(kak_args, 0).len() == 0 {
            None
        } else {
            Some(files_from(kak_args, 0))
        },
        menus_pending: is_macos,
        icon_pending: is_macos,
    }
}

/// The place of a window among the first `n`.
pub open spec fn window_place(clients: Seq<ClientView>, window_id: u64, n: nat) -> Option<nat>
    decreases n,
{
    if n == 0 {
        None
    } else {
        match window_place(clients, window_id, (n - 1) as nat) {
            Some(place) => Some(place),
            None => if clients[n - 1].window_id == window_id {
                Some((n - 1) as nat)
            } else {
                None
            },
        }
    }
}

/// The place of a window.
pub open spec fn place_of(clients: Seq<ClientView>, window_id: u64) -> Option<nat> {
    window_place(clients, window_id, clients.len())
}

/// Among the first `n` windows those that are not the given one.
pub open spec fn others_among(clients: Seq<ClientView>, window_id: u64, n: nat) -> Seq<ClientView>
    decreases n,
{
    if n == 0 {
        Seq::empty()
    } else {
        let before = others_among(clients, window_id, (n - 1) as nat);
        if clients[n - 1].window_id == window_id {
            before
        } else {
            before.push(clients[n - 1])
        }
    }
}

/// The windows without the given one.
pub open spec fn without_window(clients: Seq<ClientView>, window_id: u64) -> Seq<ClientView> {
    others_among(clients, window_id, clients.len())
}

/// What a place of a window says.
proof fn lemma_window_place(clients: Seq<ClientView>, window_id: u64, n: nat)
    requires
        n <= clients.len(),
    ensures
        match window_place(clients, window_id, n) {
            Some(place) => {
                &&& place < n
                &&& clients[place as int].window_id == window_id
                &&& forall|k: int|
                    0 <= k < place ==> (#[trigger] clients[k]).window_id != window_id
            },
            None => forall|k: int| 0 <= k < n ==> (#[trigger] clients[k]).window_id != window_id,
        },
    decreases n,
{
    if n > 0 {
        lemma_window_place(clients, window_id, (n - 1) as nat);
    }
}

/// A place found among the first windows is the place among all.
proof fn lemma_window_place_is_kept(
    clients: Seq<ClientView>,
    window_id: u64,
    n: nat,
    all: nat,
)
    requires
        n <= all,
        window_place(clients, window_id, n) is Some,
    ensures
        window_place(clients, window_id, all) == window_place(clients, window_id, n),
    decreases all,
{
    if n < all {
        lemma_window_place_is_kept(clients, window_id, n, (all - 1) as nat);
    }
}

/// The place of a window.
fn find_window(clients: &Vec<Client>, window_id: u64) -> (place: Option<usize>)
    ensures
        match place {
            Some(found) => found < clients@.len() && place_of(clients.deep_view(), window_id)
                == Some(found as nat),
            None => place_of(clients.deep_view(), window_id) is None,
        },
{
    let ghost views = clients.deep_view();
    for i in 0..clients.len()
        invariant
            views == clients.deep_view(),
            window_place(views, window_id, i as nat) is None,
    {
        assert(views[i as int] == clients@[i as int].deep_view());
        if clients[i].window_id == window_id {
            proof {
                lemma_window_place_is_kept(views, window_id, (i + 1) as nat, clients@.len());
            }
            return Some(i);
        }
    }
    None
}

/// Removing a window at one place leaves those before it.
proof fn lemma_others_after_remove(clients: Seq<ClientView>, window_id: u64, at: int, n: nat)
    requires
        0 <= at < clients.len(),
        at <= n < clients.len(),
        clients[at].window_id == window_id,
    ensures
        others_among(clients.remove(at), window_id, n) == others_among(
            clients,
            window_id,
            n + 1,
        ),
    decreases n,
{
    if n > at {
        lemma_others_after_remove(clients, window_id, at, (n - 1) as nat);
        assert(clients.remove(at)[n - 1] == clients[n as int]);
    } else {
        lemma_others_of_same(clients.remove(at), clients, window_id, n);
    }
}

/// Windows that begin alike leave the same others.
proof fn lemma_others_of_same(
    a: Seq<ClientView>,
    b: Seq<ClientView>,
    window_id: u64,
    n: nat,
)
    requires
        n <= a.len(),
        n <= b.len(),
        forall|k: int| 0 <= k < n ==> a[k] == b[k],
    ensures
        others_among(a, window_id, n) == others_among(b, window_id, n),
    decreases n,
{
    if n > 0 {
        lemma_others_of_same(a, b, window_id, (n - 1) as nat);
    }
}

/// Windows none of which is the given one are all others.
proof fn lemma_all_others(clients: Seq<ClientView>, window_id: u64, n: nat)
    requires
        n <= clients.len(),
        forall|k: int| 0 <= k < n ==> (#[trigger] clients[k]).window_id != window_id,
    ensures
        others_among(clients, window_id, n) == clients.take(n as int),
    decreases n,
{
    if n > 0 {
        lemma_all_others(clients, window_id, (n - 1) as nat);
        assert(clients.take(n as int) =~= clients.take(n - 1).push(clients[n - 1]));
    } else {
        assert(clients.take(0) =~= Seq::empty());
    }
}

/// Remove a window.
fn remove_window(clients: &mut Vec<Client>, window_id: u64)
    ensures
        final(clients).deep_view() == without_window(old(clients).deep_view(), window_id),
{
    let mut i: usize = 0;
    while i < clients.len()
        invariant
            i <= clients@.len(),
            without_window(clients.deep_view(), window_id) == without_window(
                old(clients).deep_view(),
                window_id,
            ),
            forall|k: int|
                0 <= k < i ==> (#[trigger] clients.deep_view()[k]).window_id != window_id,
        decreases clients@.len() - i,
    {
        let ghost views = clients.deep_view();
        assert(views[i as int] == clients@[i as int].deep_view());
        if clients[i].window_id == window_id {
            clients.remove(i);
            assert(clients.deep_view() =~= views.remove(i as int));
            proof {
                lemma_others_after_remove(
                    views,
                    window_id,
                    i as int,
                    (views.len() - 1) as nat,
                );
            }
        } else {
            i = i + 1;
        }
    }
    proof {
        lemma_all_others(clients.deep_view(), window_id, clients@.len());
        assert(clients.deep_view().take(clients@.len() as int) =~= clients.deep_view());
    }
}

/// What the program is told from outside its windows.
#[derive(Debug)]
pub enum AppEvent {
    /// The editor of a window has something to show.
    Rpc(u64, Box<KakouneNotification>),
    /// The editor of a window has ended.
    KakouneExited(u64),
    /// A client of a session was closed.
    ClientClosed { session: Vec<u8>, client_id: String },
    /// The system opens files with the program.
    OpenFiles(Vec<Vec<u8>>),
    /// A command was chosen in a menu.
    Command(AppCommand),
}

/// What happens in a window.
#[derive(Debug)]
pub enum WindowInput {
    CloseRequested,
    Resized,
    RedrawRequested,
    /// The window was painted, or could not be.
    Rendered { ok: bool },
    ModifiersChanged(Modifiers),
    ImeCommit(String),
    /// A key went down or up.
    Key { pressed: bool, event: KeyEvent },
    CursorMoved(Coord),
    MouseInput { pressed: bool, button: MouseButton },
    /// The pointer or the focus has left the window.
    PointerLeft,
    /// The wheel was turned, by whole lines if by any.
    Wheel(Option<i32>),
    ScaleFactorChanged,
    Other,
}

/// What happens to the program.
#[derive(Debug)]
pub enum LoopEvent {
    Resumed,
    User(AppEvent),
    Window(u64, WindowInput),
    AboutToWait,
    /// The first window was opened, with the arguments and the process number of
    /// its editor.
    StartupClientCreated { by_files: bool, kak_args: Vec<Vec<u8>>, window_id: u64, child_id: u32 },
    /// The first window could not be opened.
    StartupClientFailed { by_files: bool },
    /// Another window was opened on a session.
    SessionWindowOpened { window_id: u64, session: Vec<u8> },
}

/// The actions for the first `n` windows when the program is resumed.
pub open spec fn resume_actions(clients: Seq<ClientView>, n: nat) -> Seq<ActionView>
    decreases n,
{
    if n == 0 {
        Seq::empty()
    } else {
        let id = clients[n - 1].window_id;
        resume_actions(clients, (n - 1) as nat).push(ActionView::SendResize(id)).push(
            ActionView::Redraw(id),
        )
    }
}

/// The actions for the first `n` windows when there is nothing else to do.
pub open spec fn idle_actions(clients: Seq<ClientView>, n: nat) -> Seq<ActionView>
    decreases n,
{
    if n == 0 {
        Seq::empty()
    } else {
        idle_actions(clients, (n - 1) as nat).push(
            ActionView::RedrawIfIndicated(clients[n - 1].window_id),
        )
    }
}

/// A window after a notification of its editor. The first title tells the name
/// of its client, and the first drawing has its size told once more.
pub open spec fn client_notified(
    client: ClientView,
    notification: KakouneNotification,
) -> ClientView {
    ClientView {
        client_id: if client.client_id is None && notification is SetUiOptions {
            match title_in(notification->options) {
                Some(update) => update.client_name,
                None => None,
            }
        } else {
            client.client_id
        },
        state: notified(client.state, notification),
        did_force_startup_resize: client.did_force_startup_resize || notification is Draw,
        ..client
    }
}

/// The actions for a notification.
pub open spec fn notification_actions(
    client: ClientView,
    notification: KakouneNotification,
) -> Seq<ActionView> {
    let id = client.window_id;
    let title = notified(client.state, notification).window_title;
    let named = if title == client.state.window_title {
        Seq::empty()
    } else {
        seq![ActionView::SetTitle(id, title)]
    };
    let sized = if notification is Draw && !client.did_force_startup_resize {
        seq![ActionView::SendResize(id)]
    } else {
        Seq::empty()
    };
    named + sized + seq![ActionView::Redraw(id)]
}

/// The end of the program, if no window is left.
pub open spec fn exit_without(clients: Seq<ClientView>) -> Seq<ActionView> {
    if clients.len() == 0 {
        seq![ActionView::Exit]
    } else {
        Seq::empty()
    }
}

/// Whether a window shows the given client of a session.
pub open spec fn shows_client(client: ClientView, session: Seq<u8>, client_id: Seq<char>) -> bool {
    client.session == session && client.client_id == Some(client_id)
}

/// Among the first `n` windows those that do not show the given client.
pub open spec fn unclosed_among(
    clients: Seq<ClientView>,
    session: Seq<u8>,
    client_id: Seq<char>,
    n: nat,
) -> Seq<ClientView>
    decreases n,
{
    if n == 0 {
        Seq::empty()
    } else {
        let before = unclosed_among(clients, session, client_id, (n - 1) as nat);
        if shows_client(clients[n - 1], session, client_id) {
            before
        } else {
            before.push(clients[n - 1])
        }
    }
}

/// The closing of those among the first `n` windows that show the given client.
pub open spec fn closing_among(
    clients: Seq<ClientView>,
    session: Seq<u8>,
    client_id: Seq<char>,
    n: nat,
) -> Seq<ActionView>
    decreases n,
{
    if n == 0 {
        Seq::empty()
    } else {
        let before = closing_among(clients, session, client_id, (n - 1) as nat);
        if shows_client(clients[n - 1], session, client_id) {
            before.push(ActionView::Close(clients[n - 1].window_id))
        } else {
            before
        }
    }
}

/// A window after something happened in it, unless that removes it.
pub open spec fn client_after(client: ClientView, input: WindowInput) -> ClientView {
    match input {
        WindowInput::ModifiersChanged(modifiers) => ClientView { modifiers, ..client },
        WindowInput::CursorMoved(mouse_cell) => ClientView { mouse_cell, ..client },
        WindowInput::MouseInput { pressed, button } => ClientView {
            dragging: if button == MouseButton::Left {
                pressed
            } else {
                client.dragging
            },
            ..client
        },
        WindowInput::PointerLeft => ClientView { dragging: false, ..client },
        _ => client,
    }
}

/// Whether something that happens in a window removes it.
pub open spec fn removes_window(input: WindowInput) -> bool {
    input is CloseRequested || (input matches WindowInput::Rendered { ok } && !ok)
}

/// The sending of keys to the editor of a window.
pub open spec fn keys_action(window_id: u64, keys: Seq<char>) -> Seq<ActionView> {
    seq![ActionView::Send(window_id, RequestView::Keys { keys: seq![keys] })]
}

/// The actions for a key that went down: the command that it stands for, by the
/// settings and the modifiers held down in its window, or else its text.
pub open spec fn pressed_actions(
    client: ClientView,
    event: KeyEvent,
    session: Option<Seq<u8>>,
    keys: KeysView,
) -> Seq<ActionView> {
    match action_of_key(keys, event, client.modifiers) {
        Some(action) => match session {
            Some(session) => seq![
                ActionView::HandleCommand {
                    session,
                    command: command_of(action),
                    window: Some(client.window_id),
                },
            ],
            None => seq![ActionView::Log(Trouble::WindowCommandBeforeSession)],
        },
        None => match key_event_text(event, client.modifiers) {
            Some(text) => keys_action(client.window_id, text),
            None => Seq::empty(),
        },
    }
}

/// The actions for a button of the mouse.
pub open spec fn clicked_actions(
    client: ClientView,
    pressed: bool,
    button: MouseButton,
) -> Seq<ActionView> {
    match button_name(button) {
        Some(name) => seq![
            ActionView::Send(
                client.window_id,
                if pressed {
                    RequestView::MousePress { button: name, coord: client.mouse_cell }
                } else {
                    RequestView::MouseRelease { button: name, coord: client.mouse_cell }
                },
            ),
        ],
        None => Seq::empty(),
    }
}

/// The actions for what happens in a window, unless that removes it.
pub open spec fn input_actions(
    client: ClientView,
    input: WindowInput,
    session: Option<Seq<u8>>,
    icon_pending: bool,
    keys: KeysView,
) -> Seq<ActionView> {
    let id = client.window_id;
    match input {
        WindowInput::Resized => seq![
            ActionView::ResizeSurface(id),
            ActionView::SendResize(id),
            ActionView::Redraw(id),
        ],
        WindowInput::RedrawRequested => seq![ActionView::Render(id)],
        WindowInput::Rendered { ok } => if icon_pending {
            seq![ActionView::ApplyIcon]
        } else {
            Seq::empty()
        },
        WindowInput::ImeCommit(text) => if text@.len() > 0 && !client.modifiers.control
            && !client.modifiers.alt && !client.modifiers.logo {
            keys_action(id, text@)
        } else {
            Seq::empty()
        },
        WindowInput::Key { pressed, event } => if pressed {
            pressed_actions(client, event, session, keys)
        } else {
            Seq::empty()
        },
        WindowInput::CursorMoved(coord) => if client.dragging {
            seq![ActionView::Send(id, RequestView::MouseMove { coord })]
        } else {
            Seq::empty()
        },
        WindowInput::MouseInput { pressed, button } => clicked_actions(client, pressed, button),
        WindowInput::Wheel(amount) => match amount {
            Some(amount) => seq![
                ActionView::Send(id, RequestView::Scroll { amount, coord: client.mouse_cell }),
            ],
            None => Seq::empty(),
        },
        WindowInput::ScaleFactorChanged => seq![
            ActionView::SendResize(id),
            ActionView::Redraw(id),
        ],
        _ => Seq::empty(),
    }
}

/// The windows with one more, or with a new one in the place of one of the same
/// number.
pub open spec fn with_window(clients: Seq<ClientView>, client: ClientView) -> Seq<ClientView> {
    match place_of(clients, client.window_id) {
        Some(place) => clients.update(place as int, client),
        None => clients.push(client),
    }
}

/// The program after something happened in a window.
pub open spec fn after_input(before: RuntimeView, window_id: u64, input: WindowInput) -> RuntimeView {
    match place_of(before.clients, window_id) {
        Some(place) => if removes_window(input) {
            RuntimeView { clients: without_window(before.clients, window_id), ..before }
        } else {
            RuntimeView {
                clients: before.clients.update(
                    place as int,
                    client_after(before.clients[place as int], input),
                ),
                icon_pending: before.icon_pending && !(input is Rendered),
                ..before
            }
        },
        None => before,
    }
}

/// The actions for what happens in a window.
pub open spec fn window_actions(
    before: RuntimeView,
    window_id: u64,
    input: WindowInput,
    keys: KeysView,
) -> Seq<ActionView> {
    match place_of(before.clients, window_id) {
        Some(place) => if removes_window(input) {
            seq![ActionView::Kill(window_id), ActionView::Close(window_id)] + exit_without(
                without_window(before.clients, window_id),
            )
        } else {
            input_actions(
                before.clients[place as int],
                input,
                before.session,
                before.icon_pending,
                keys,
            )
        },
        None => Seq::empty(),
    }
}

/// The program after it was told something.
pub open spec fn after_user(before: RuntimeView, event: AppEvent) -> RuntimeView {
    match event {
        AppEvent::Rpc(window_id, notification) => match place_of(before.clients, window_id) {
            Some(place) => RuntimeView {
                clients: before.clients.update(
                    place as int,
                    client_notified(before.clients[place as int], *notification),
                ),
                ..before
            },
            None => before,
        },
        AppEvent::KakouneExited(window_id) => RuntimeView {
            clients: without_window(before.clients, window_id),
            ..before
        },
        AppEvent::ClientClosed { session, client_id } => RuntimeView {
            clients: unclosed_among(
                before.clients,
                session@,
                client_id@,
                before.clients.len(),
            ),
            ..before
        },
        AppEvent::OpenFiles(paths) => if opens_first_window(
            before.startup,
            before.clients.len() > 0,
            before.session is Some,
        ) {
            before
        } else if before.pending_open_files is Some && same_places(
            before.pending_open_files->0,
            paths.deep_view(),
        ) {
            RuntimeView { pending_open_files: None, ..before }
        } else {
            before
        },
        AppEvent::Command(command) => before,
    }
}

/// The actions for what the program is told.
pub open spec fn user_actions(
    before: RuntimeView,
    event: AppEvent,
    args: ArgsView,
    config: AppConfigView,
) -> Seq<ActionView> {
    match event {
        AppEvent::Rpc(window_id, notification) => match place_of(before.clients, window_id) {
            Some(place) => notification_actions(before.clients[place as int], *notification),
            None => Seq::empty(),
        },
        AppEvent::KakouneExited(window_id) => (if place_of(before.clients, window_id) is Some {
            seq![ActionView::Close(window_id)]
        } else {
            Seq::empty()
        }) + exit_without(without_window(before.clients, window_id)),
        AppEvent::ClientClosed { session, client_id } => closing_among(
            before.clients,
            session@,
            client_id@,
            before.clients.len(),
        ) + exit_without(
            unclosed_among(before.clients, session@, client_id@, before.clients.len()),
        ),
        AppEvent::OpenFiles(paths) => if opens_first_window(
            before.startup,
            before.clients.len() > 0,
            before.session is Some,
        ) {
            seq![
                ActionView::CreateStartupClient {
                    by_files: true,
                    args: first_args(
                        args,
                        config.single_session,
                        config.session_name,
                        paths.deep_view(),
                    ),
                },
            ]
        } else if before.pending_open_files is Some && same_places(
            before.pending_open_files->0,
            paths.deep_view(),
        ) {
            Seq::empty()
        } else {
            match before.session {
                Some(session) => seq![
                    ActionView::OpenSessionWindow { session, paths: paths.deep_view() },
                ],
                None => seq![ActionView::Log(Trouble::OpenBeforeSession)],
            }
        },
        AppEvent::Command(command) => match before.session {
            Some(session) => seq![ActionView::HandleCommand { session, command, window: None }],
            None => seq![ActionView::Log(Trouble::CommandBeforeSession)],
        },
    }
}

/// The program after an event.
pub open spec fn after_event(before: RuntimeView, event: LoopEvent) -> RuntimeView {
    match event {
        LoopEvent::Resumed => RuntimeView { menus_pending: false, ..before },
        LoopEvent::User(event) => after_user(before, event),
        LoopEvent::Window(window_id, input) => after_input(before, window_id, input),
        LoopEvent::AboutToWait => before,
        LoopEvent::StartupClientCreated { by_files, kak_args, window_id, child_id } => {
            let session = session_of(kak_args.deep_view(), child_id);
            RuntimeView {
                clients: with_window(before.clients, new_client(window_id, session)),
                session: Some(session),
                startup: if by_files {
                    StartupOpenState::StartupOpenHandled
                } else {
                    StartupOpenState::NoPendingStartupOpen
                },
                ..before
            }
        },
        LoopEvent::StartupClientFailed { by_files } => before,
        LoopEvent::SessionWindowOpened { window_id, session } => RuntimeView {
            clients: with_window(before.clients, new_client(window_id, session@)),
            ..before
        },
    }
}

/// The actions for an event.
pub open spec fn event_actions(
    before: RuntimeView,
    event: LoopEvent,
    args: ArgsView,
    config: AppConfigView,
) -> Seq<ActionView> {
    match event {
        LoopEvent::Resumed => (if before.menus_pending {
            seq![ActionView::InstallMenus]
        } else {
            Seq::empty()
        }) + resume_actions(before.clients, before.clients.len()),
        LoopEvent::User(event) => user_actions(before, event, args, config),
        LoopEvent::Window(window_id, input) => window_actions(
            before,
            window_id,
            input,
            config.keys,
        ),
        LoopEvent::AboutToWait => idle_actions(before.clients, before.clients.len()) + (
        if needs_first_window(before.startup, before.clients.len() > 0, before.session is Some) {
            seq![
                ActionView::CreateStartupClient {
                    by_files: false,
                    args: first_args(
                        args,
                        config.single_session,
                        config.session_name,
                        Seq::empty(),
                    ),
                },
            ]
        } else {
            Seq::empty()
        }),
        LoopEvent::StartupClientCreated { .. } => Seq::empty(),
        LoopEvent::StartupClientFailed { by_files } => if by_files {
            seq![ActionView::Log(Trouble::StartupOpenFailed)]
        } else {
            seq![ActionView::Log(Trouble::StartupFailed), ActionView::Exit]
        },
        LoopEvent::SessionWindowOpened { .. } => Seq::empty(),
    }
}

/// One action.
fn single_action(action: Action) -> (actions: Vec<Action>)
    ensures
        actions.deep_view() == seq![action.deep_view()],
{
    let mut actions: Vec<Action> = Vec::new();
    push_action(&mut actions, action);
    assert(actions.deep_view() =~= seq![action.deep_view()]);
    actions
}

/// No action.
fn no_actions() -> (actions: Vec<Action>)
    ensures
        actions.deep_view() == Seq::<ActionView>::empty(),
{
    let actions: Vec<Action> = Vec::new();
    assert(actions.deep_view() =~= Seq::<ActionView>::empty());
    actions
}

/// The sending of keys to the editor of a window.
fn send_text(window_id: u64, keys: String) -> (actions: Vec<Action>)
    ensures
        actions.deep_view() == keys_action(window_id, keys@),
{
    let ghost text = keys@;
    let mut list: Vec<String> = Vec::new();
    list.push(keys);
    assert(list.deep_view() =~= seq![text]);
    single_action(Action::Send(window_id, KakouneRequest::Keys { keys: list }))
}

/// Whether a window shows the given client of a session.
fn is_closed_client(client: &Client, session: &[u8], client_id: &str) -> (yes: bool)
    ensures
        yes == shows_client(client.deep_view(), session@, client_id@),
{
    match &client.client_id {
        Some(name) => same_bytes(client.session.as_slice(), session) && same_text(
            name.as_str(),
            client_id,
        ),
        None => false,
    }
}

/// A notification of the editor comes to a window.
fn notify_client(client: &mut Client, notification: KakouneNotification) -> (actions: Vec<Action>)
    ensures
        final(client).deep_view() == client_notified(old(client).deep_view(), notification),
        actions.deep_view() == notification_actions(old(client).deep_view(), notification),
{
    let ghost before = client.deep_view();
    let window_id = client.window_id;
    let is_drawing = match &notification {
        KakouneNotification::Draw { .. } => true,
        _ => false,
    };
    let old_title = client.state.window_title.clone();
    if client.client_id.is_none() {
        if let KakouneNotification::SetUiOptions { options } = &notification {
            client.client_id =
            match decode_title_update(options) {
                Some(update) => update.client_name,
                None => None,
            };
        }
    }
    apply_notification(&mut client.state, notification);
    let mut actions = no_actions();
    if !same_text(client.state.window_title.as_str(), old_title.as_str()) {
        push_action(
            &mut actions,
            Action::SetTitle(window_id, client.state.window_title.clone()),
        );
    }
    if is_drawing && !client.did_force_startup_resize {
        push_action(&mut actions, Action::SendResize(window_id));
        client.did_force_startup_resize = true;
    }
    push_action(&mut actions, Action::Redraw(window_id));
    assert(actions.deep_view() =~= notification_actions(before, notification));
    actions
}

/// The actions for a key that went down.
fn key_actions(
    client: &Client,
    event: &KeyEvent,
    session: &Option<Vec<u8>>,
    keys: &UserKeysConfig,
) -> (actions: Vec<Action>)
    ensures
        actions.deep_view() == pressed_actions(
            client.deep_view(),
            *event,
            match *session {
                Some(name) => Some(name@),
                None => None,
            },
            keys.deep_view(),
        ),
{
    match action_for_event(keys, event, client.modifiers) {
        Some(action) => match session {
            Some(name) => {
                let command = app_command_from_user_action(action);
                single_action(
                    Action::HandleCommand {
                        session: copied_bytes(name.as_slice()),
                        command,
                        window: Some(client.window_id),
                    },
                )
            },
            None => single_action(Action::Log(Trouble::WindowCommandBeforeSession)),
        },
        None => match key_event_to_kak(event, client.modifiers) {
            Some(text) => send_text(client.window_id, text),
            None => no_actions(),
        },
    }
}

/// The actions for a button of the mouse.
fn button_actions(client: &Client, pressed: bool, button: MouseButton) -> (actions: Vec<Action>)
    ensures
        actions.deep_view() == clicked_actions(client.deep_view(), pressed, button),
{
    match mouse_button_to_kak(button) {
        Some(name) => {
            let request = if pressed {
                KakouneRequest::MousePress { button: name, coord: client.mouse_cell }
            } else {
                KakouneRequest::MouseRelease { button: name, coord: client.mouse_cell }
            };
            single_action(Action::Send(client.window_id, request))
        },
        None => no_actions(),
    }
}

/// The actions for something that happens in a window, unless that removes it.
fn actions_for_input(
    client: &Client,
    input: &WindowInput,
    session: &Option<Vec<u8>>,
    icon_pending: bool,
    keys: &UserKeysConfig,
) -> (actions: Vec<Action>)
    ensures
        actions.deep_view() == input_actions(
            client.deep_view(),
            *input,
            match *session {
                Some(name) => Some(name@),
                None => None,
            },
            icon_pending,
            keys.deep_view(),
        ),
{
    let id = client.window_id;
    match input {
        WindowInput::Resized => {
            let mut actions = single_action(Action::ResizeSurface(id));
            push_action(&mut actions, Action::SendResize(id));
            push_action(&mut actions, Action::Redraw(id));
            assert(actions.deep_view() =~= seq![
                ActionView::ResizeSurface(id),
                ActionView::SendResize(id),
                ActionView::Redraw(id),
            ]);
            actions
        },
        WindowInput::RedrawRequested => single_action(Action::Render(id)),
        WindowInput::Rendered { ok: _ } => if icon_pending {
            single_action(Action::ApplyIcon)
        } else {
            no_actions()
        },
        WindowInput::ImeCommit(text) => if !text.as_str().is_empty() && !client.modifiers.control
            && !client.modifiers.alt && !client.modifiers.logo {
            send_text(id, text.clone())
        } else {
            no_actions()
        },
        WindowInput::Key { pressed, event } => if *pressed {
            key_actions(client, event, session, keys)
        } else {
            no_actions()
        },
        WindowInput::CursorMoved(coord) => if client.mouse_motion.should_send_move() {
            single_action(Action::Send(id, KakouneRequest::MouseMove { coord: *coord }))
        } else {
            no_actions()
        },
        WindowInput::MouseInput { pressed, button } => button_actions(client, *pressed, *button),
        WindowInput::Wheel(amount) => match amount {
            Some(amount) => single_action(
                Action::Send(
                    id,
                    KakouneRequest::Scroll { amount: *amount, coord: client.mouse_cell },
                ),
            ),
            None => no_actions(),
        },
        WindowInput::ScaleFactorChanged => {
            let mut actions = single_action(Action::SendResize(id));
            push_action(&mut actions, Action::Redraw(id));
            assert(actions.deep_view() =~= seq![
                ActionView::SendResize(id),
                ActionView::Redraw(id),
            ]);
            actions
        },
        _ => no_actions(),
    }
}

/// Something happens in a window that does not remove it.
fn update_client(client: &mut Client, input: &WindowInput)
    ensures
        final(client).deep_view() == client_after(old(client).deep_view(), *input),
{
    match input {
        WindowInput::ModifiersChanged(modifiers) => {
            client.modifiers = *modifiers;
        },
        WindowInput::CursorMoved(coord) => {
            client.mouse_cell = *coord;
        },
        WindowInput::MouseInput { pressed, button } => {
            client.mouse_motion.set_button(*button, *pressed);
        },
        WindowInput::PointerLeft => {
            client.mouse_motion.reset();
        },
        _ => {},
    }
}

impl Runtime {
    /// The program before its first event.
    pub fn new(is_macos: bool, kak_args: &[Vec<u8>]) -> (runtime: Self)
        ensures
            runtime.deep_view() == fresh_runtime(is_macos, kak_args.deep_view()),
    {
        let files = startup_open_files(kak_args);
        let pending_open_files = if files.len() == 0 {
            None
        } else {
            Some(files)
        };
        let clients: Vec<Client> = Vec::new();
        assert(clients.deep_view() =~= Seq::empty());
        Runtime {
            clients,
            session: None,
            startup: startup_open_state_for_launch(is_macos, kak_args),
            pending_open_files,
            menus_pending: is_macos,
            icon_pending: is_macos,
        }
    }

    /// Add a window.
    fn insert_window(&mut self, client: Client)
        ensures
            final(self).deep_view() == (RuntimeView {
                clients: with_window(old(self).deep_view().clients, client.deep_view()),
                ..old(self).deep_view()
            }),
    {
        let ghost before = self.clients.deep_view();
        match find_window(&self.clients, client.window_id) {
            Some(place) => {
                self.clients[place] = client;
                assert(self.clients.deep_view() =~= before.update(
                    place as int,
                    client.deep_view(),
                ));
            },
            None => {
                self.clients.push(client);
                assert(self.clients.deep_view() =~= before.push(client.deep_view()));
            },
        }
    }

    /// Remove a window, and end the program with the last.
    fn remove_and_exit(&mut self, window_id: u64, actions: &mut Vec<Action>)
        ensures
            final(self).deep_view() == (RuntimeView {
                clients: without_window(old(self).deep_view().clients, window_id),
                ..old(self).deep_view()
            }),
            final(actions).deep_view() == old(actions).deep_view() + exit_without(
                without_window(old(self).deep_view().clients, window_id),
            ),
    {
        remove_window(&mut self.clients, window_id);
        self.exit_if_empty(actions);
    }

    /// End the program if no window is left.
    fn exit_if_empty(&self, actions: &mut Vec<Action>)
        ensures
            final(actions).deep_view() == old(actions).deep_view() + exit_without(
                self.deep_view().clients,
            ),
    {
        if self.clients.len() == 0 {
            push_action(actions, Action::Exit);
        }
        assert(actions.deep_view() =~= old(actions).deep_view() + exit_without(
            self.deep_view().clients,
        ));
    }

    /// A client of a session was closed.
    fn close_client(&mut self, session: &[u8], client_id: &str) -> (actions: Vec<Action>)
        ensures
            final(self).deep_view() == (RuntimeView {
                clients: unclosed_among(
                    old(self).deep_view().clients,
                    session@,
                    client_id@,
                    old(self).deep_view().clients.len(),
                ),
                ..old(self).deep_view()
            }),
            actions.deep_view() == closing_among(
                old(self).deep_view().clients,
                session@,
                client_id@,
                old(self).deep_view().clients.len(),
            ) + exit_without(
                unclosed_among(
                    old(self).deep_view().clients,
                    session@,
                    client_id@,
                    old(self).deep_view().clients.len(),
                ),
            ),
    {
        let ghost all = self.clients.deep_view();
        let ghost rest = self.deep_view();
        let mut actions = no_actions();
        let mut kept: usize = 0;
        let ghost mut seen: nat = 0;
        assert(self.clients.deep_view() =~= unclosed_among(all, session@, client_id@, 0)
            + all.skip(0));
        while kept < self.clients.len()
            invariant
                all == old(self).deep_view().clients,
                rest == old(self).deep_view(),
                self.deep_view() == (RuntimeView { clients: self.deep_view().clients, ..rest }),
                seen <= all.len(),
                kept == unclosed_among(all, session@, client_id@, seen).len(),
                self.clients.deep_view() == unclosed_among(all, session@, client_id@, seen)
                    + all.skip(seen as int),
                actions.deep_view() == closing_among(all, session@, client_id@, seen),
            decreases self.clients@.len() - kept,
        {
            let ghost before = unclosed_among(all, session@, client_id@, seen);
            let ghost views = self.clients.deep_view();
            assert(views[kept as int] == self.clients@[kept as int].deep_view());
            assert(views[kept as int] == all[seen as int]);
            if is_closed_client(&self.clients[kept], session, client_id) {
                let gone = self.clients.remove(kept);
                push_action(&mut actions, Action::Close(gone.window_id));
                assert(self.clients.deep_view() =~= views.remove(kept as int));
                assert(self.clients.deep_view() =~= before + all.skip((seen + 1) as int));
            } else {
                kept = kept + 1;
                assert(self.clients.deep_view() =~= before.push(all[seen as int]) + all.skip(
                    (seen + 1) as int,
                ));
            }
            proof {
                seen = seen + 1;
            }
        }
        assert(seen == all.len());
        assert(self.clients.deep_view() =~= unclosed_among(all, session@, client_id@, seen));
        self.exit_if_empty(&mut actions);
        actions
    }

    /// The system opens files with the program.
    fn open_files(&mut self, paths: Vec<Vec<u8>>, args: &Args, config: &AppConfig) -> (actions: Vec<
        Action,
    >)
        ensures
            final(self).deep_view() == after_user(
                old(self).deep_view(),
                AppEvent::OpenFiles(paths),
            ),
            actions.deep_view() == user_actions(
                old(self).deep_view(),
                AppEvent::OpenFiles(paths),
                args.deep_view(),
                config.deep_view(),
            ),
    {
        if should_handle_startup_open_with_files(
            self.startup,
            self.clients.len() > 0,
            self.session.is_some(),
        ) {
            let first = startup_args(args, config, paths.as_slice());
            return single_action(Action::CreateStartupClient { by_files: true, args: first });
        }
        if should_ignore_startup_open_files(&mut self.pending_open_files, paths.as_slice()) {
            return no_actions();
        }
        match &self.session {
            Some(session) => {
                let session = copied_bytes(session.as_slice());
                single_action(Action::OpenSessionWindow { session, paths })
            },
            None => single_action(Action::Log(Trouble::OpenBeforeSession)),
        }
    }

    /// The program is told something.
    fn handle_user(&mut self, event: AppEvent, args: &Args, config: &AppConfig) -> (actions: Vec<
        Action,
    >)
        ensures
            final(self).deep_view() == after_user(old(self).deep_view(), event),
            actions.deep_view() == user_actions(
                old(self).deep_view(),
                event,
                args.deep_view(),
                config.deep_view(),
            ),
    {
        let ghost before = self.clients.deep_view();
        match event {
            AppEvent::Rpc(window_id, notification) => {
                match find_window(&self.clients, window_id) {
                    Some(place) => {
                        assert(before[place as int] == self.clients@[place as int].deep_view());
                        let actions = notify_client(&mut self.clients[place], *notification);
                        assert(self.clients.deep_view() =~= before.update(
                            place as int,
                            client_notified(before[place as int], *notification),
                        ));
                        actions
                    },
                    None => no_actions(),
                }
            },
            AppEvent::KakouneExited(window_id) => {
                let mut actions = no_actions();
                if find_window(&self.clients, window_id).is_some() {
                    push_action(&mut actions, Action::Close(window_id));
                    assert(actions.deep_view() =~= seq![ActionView::Close(window_id)]);
                }
                self.remove_and_exit(window_id, &mut actions);
                actions
            },
            AppEvent::ClientClosed { session, client_id } => {
                self.close_client(session.as_slice(), client_id.as_str())
            },
            AppEvent::OpenFiles(paths) => self.open_files(paths, args, config),
            AppEvent::Command(command) => match &self.session {
                Some(session) => {
                    let session = copied_bytes(session.as_slice());
                    single_action(Action::HandleCommand { session, command, window: None })
                },
                None => single_action(Action::Log(Trouble::CommandBeforeSession)),
            },
        }
    }

    /// Something happens in a window.
    fn handle_input(&mut self, window_id: u64, input: WindowInput, keys: &UserKeysConfig) -> (
    actions: Vec<Action>)
        ensures
            final(self).deep_view() == after_input(old(self).deep_view(), window_id, input),
            actions.deep_view() == window_actions(
                old(self).deep_view(),
                window_id,
                input,
                keys.deep_view(),
            ),
    {
        let ghost before = self.clients.deep_view();
        let place = match find_window(&self.clients, window_id) {
            Some(place) => place,
            None => return no_actions(),
        };
        let removed = match &input {
            WindowInput::CloseRequested => true,
            WindowInput::Rendered { ok } => !*ok,
            _ => false,
        };
        if removed {
            let mut actions = single_action(Action::Kill(window_id));
            push_action(&mut actions, Action::Close(window_id));
            assert(actions.deep_view() =~= seq![
                ActionView::Kill(window_id),
                ActionView::Close(window_id),
            ]);
            self.remove_and_exit(window_id, &mut actions);
            return actions;
        }
        assert(before[place as int] == self.clients@[place as int].deep_view());
        let actions = actions_for_input(
            &self.clients[place],
            &input,
            &self.session,
            self.icon_pending,
            keys,
        );
        update_client(&mut self.clients[place], &input);
        assert(self.clients.deep_view() =~= before.update(
            place as int,
            client_after(before[place as int], input),
        ));
        match &input {
            WindowInput::Rendered { ok: _ } => {
                self.icon_pending = false;
            },
            _ => {},
        }
        actions
    }

    /// The program is resumed.
    fn resume(&mut self) -> (actions: Vec<Action>)
        ensures
            final(self).deep_view() == (RuntimeView {
                menus_pending: false,
                ..old(self).deep_view()
            }),
            actions.deep_view() == (if old(self).deep_view().menus_pending {
                seq![ActionView::InstallMenus]
            } else {
                Seq::empty()
            }) + resume_actions(
                old(self).deep_view().clients,
                old(self).deep_view().clients.len(),
            ),
    {
        let mut actions = no_actions();
        if self.menus_pending {
            push_action(&mut actions, Action::InstallMenus);
            assert(actions.deep_view() =~= seq![ActionView::InstallMenus]);
            self.menus_pending = false;
        }
        let ghost head = actions.deep_view();
        let ghost views = self.clients.deep_view();
        assert(head + resume_actions(views, 0) =~= head);
        for i in 0..self.clients.len()
            invariant
                views == self.clients.deep_view(),
                actions.deep_view() == head + resume_actions(views, i as nat),
        {
            assert(views[i as int] == self.clients@[i as int].deep_view());
            let id = self.clients[i].window_id;
            push_action(&mut actions, Action::SendResize(id));
            push_action(&mut actions, Action::Redraw(id));
            assert(actions.deep_view() =~= head + resume_actions(views, (i + 1) as nat));
        }
        actions
    }

    /// There is nothing else to do.
    fn idle(&self, args: &Args, config: &AppConfig) -> (actions: Vec<Action>)
        ensures
            actions.deep_view() == event_actions(
                self.deep_view(),
                LoopEvent::AboutToWait,
                args.deep_view(),
                config.deep_view(),
            ),
    {
        let mut actions = no_actions();
        let ghost views = self.clients.deep_view();
        for i in 0..self.clients.len()
            invariant
                views == self.clients.deep_view(),
                actions.deep_view() == idle_actions(views, i as nat),
        {
            assert(views[i as int] == self.clients@[i as int].deep_view());
            push_action(&mut actions, Action::RedrawIfIndicated(self.clients[i].window_id));
        }
        if should_create_fallback_startup_client(
            self.startup,
            self.clients.len() > 0,
            self.session.is_some(),
        ) {
            let none: Vec<Vec<u8>> = Vec::new();
            assert(none.deep_view() =~= Seq::empty());
            let first = startup_args(args, config, none.as_slice());
            push_action(
                &mut actions,
                Action::CreateStartupClient { by_files: false, args: first },
            );
        }
        assert(actions.deep_view() =~= event_actions(
            self.deep_view(),
            LoopEvent::AboutToWait,
            args.deep_view(),
            config.deep_view(),
        ));
        actions
    }

    /// Take an event, and say what is to be done.
    pub fn handle_event(&mut self, event: LoopEvent, args: &Args, config: &AppConfig) -> (actions:
        Vec<Action>)
        ensures
            final(self).deep_view() == after_event(old(self).deep_view(), event),
            actions.deep_view() == event_actions(
                old(self).deep_view(),
                event,
                args.deep_view(),
                config.deep_view(),
            ),
    {
        match event {
            LoopEvent::Resumed => self.resume(),
            LoopEvent::User(event) => self.handle_user(event, args, config),
            LoopEvent::Window(window_id, input) => self.handle_input(
                window_id,
                input,
                &config.keys,
            ),
            LoopEvent::AboutToWait => self.idle(args, config),
            LoopEvent::StartupClientCreated { by_files, kak_args, window_id, child_id } => {
                let session = resolve_kakoune_session(kak_args.as_slice(), child_id);
                let own = copied_bytes(session.as_slice());
                self.insert_window(Client::new(window_id, own));
                self.session = Some(session);
                self.startup =
                if by_files {
                    StartupOpenState::StartupOpenHandled
                } else {
                    StartupOpenState::NoPendingStartupOpen
                };
                no_actions()
            },
            LoopEvent::StartupClientFailed { by_files } => if by_files {
                single_action(Action::Log(Trouble::StartupOpenFailed))
            } else {
                let mut actions = single_action(Action::Log(Trouble::StartupFailed));
                push_action(&mut actions, Action::Exit);
                assert(actions.deep_view() =~= seq![
                    ActionView::Log(Trouble::StartupFailed),
                    ActionView::Exit,
                ]);
                actions
            },
            LoopEvent::SessionWindowOpened { window_id, session } => {
                self.insert_window(Client::new(window_id, session));
                no_actions()
            },
        }
    }
}

/// Whether no two windows have the same number.
pub open spec fn unlike_windows(clients: Seq<ClientView>) -> bool {
    forall|i: int, j: int|
        0 <= i < j < clients.len() ==> (#[trigger] clients[i]).window_id != (
        #[trigger] clients[j]).window_id
}

/// Whether a window is one of the first `n`.
pub open spec fn is_among(clients: Seq<ClientView>, client: ClientView, n: nat) -> bool {
    exists|k: int| 0 <= k < n && #[trigger] clients[k] == client
}

/// Windows that are left when one is taken out are some of those that there were.
proof fn lemma_others_are_some(clients: Seq<ClientView>, window_id: u64, n: nat)
    requires
        n <= clients.len(),
        unlike_windows(clients),
    ensures
        unlike_windows(others_among(clients, window_id, n)),
        forall|i: int|
            0 <= i < others_among(clients, window_id, n).len() ==> is_among(
                clients,
                #[trigger] others_among(clients, window_id, n)[i],
                n,
            ),
    decreases n,
{
    if n > 0 {
        let before = others_among(clients, window_id, (n - 1) as nat);
        let after = others_among(clients, window_id, n);
        lemma_others_are_some(clients, window_id, (n - 1) as nat);
        lemma_grown_windows(clients, before, after, n);
    }
}

/// Some of the first windows and the next are some of the first, one more.
proof fn lemma_grown_windows(
    clients: Seq<ClientView>,
    before: Seq<ClientView>,
    after: Seq<ClientView>,
    n: nat,
)
    requires
        0 < n <= clients.len(),
        unlike_windows(clients),
        unlike_windows(before),
        after == before || after == before.push(clients[n - 1]),
        forall|i: int|
            0 <= i < before.len() ==> is_among(clients, #[trigger] before[i], (n - 1) as nat),
    ensures
        unlike_windows(after),
        forall|i: int| 0 <= i < after.len() ==> is_among(clients, #[trigger] after[i], n),
{
    assert forall|i: int| 0 <= i < after.len() implies is_among(clients, #[trigger] after[i], n) by {
        if i < before.len() {
            assert(is_among(clients, before[i], (n - 1) as nat));
            let k = choose|k: int| 0 <= k < n - 1 && #[trigger] clients[k] == before[i];
            assert(clients[k] == after[i]);
        } else {
            assert(clients[n - 1] == after[i]);
        }
    }
    assert forall|i: int, j: int| 0 <= i < j < after.len() implies (#[trigger] after[i]).window_id
        != (#[trigger] after[j]).window_id by {
        if j >= before.len() {
            assert(is_among(clients, before[i], (n - 1) as nat));
            let k = choose|k: int| 0 <= k < n - 1 && #[trigger] clients[k] == before[i];
            assert(clients[k].window_id != clients[n - 1].window_id);
        } else {
            assert(before[i].window_id != before[j].window_id);
        }
    }
}

/// Windows that are left when a client is closed are some of those that there
/// were.
proof fn lemma_unclosed_are_some(
    clients: Seq<ClientView>,
    session: Seq<u8>,
    client_id: Seq<char>,
    n: nat,
)
    requires
        n <= clients.len(),
        unlike_windows(clients),
    ensures
        unlike_windows(unclosed_among(clients, session, client_id, n)),
        forall|i: int|
            0 <= i < unclosed_among(clients, session, client_id, n).len() ==> is_among(
                clients,
                #[trigger] unclosed_among(clients, session, client_id, n)[i],
                n,
            ),
    decreases n,
{
    if n > 0 {
        let before = unclosed_among(clients, session, client_id, (n - 1) as nat);
        let after = unclosed_among(clients, session, client_id, n);
        lemma_unclosed_are_some(clients, session, client_id, (n - 1) as nat);
        lemma_grown_windows(clients, before, after, n);
    }
}

/// Windows with one more, or one replaced, stay distinct.
proof fn lemma_with_window_distinct(clients: Seq<ClientView>, client: ClientView)
    requires
        unlike_windows(clients),
    ensures
        unlike_windows(with_window(clients, client)),
{
    lemma_window_place(clients, client.window_id, clients.len());
    let after = with_window(clients, client);
    assert forall|i: int, j: int| 0 <= i < j < after.len() implies (#[trigger] after[i]).window_id
        != (#[trigger] after[j]).window_id by {
        if let Some(place) = place_of(clients, client.window_id) {
            assert(clients[i].window_id != clients[j].window_id);
        } else if j < clients.len() {
            assert(clients[i].window_id != clients[j].window_id);
        } else {
            assert(clients[i].window_id != client.window_id);
        }
    }
}

/// Two windows never have the same number.
pub proof fn law_windows_stay_distinct(before: RuntimeView, event: LoopEvent)
    requires
        unlike_windows(before.clients),
    ensures
        unlike_windows(after_event(before, event).clients),
{
    let clients = before.clients;
    match event {
        LoopEvent::User(AppEvent::Rpc(window_id, notification)) => {
            lemma_window_place(clients, window_id, clients.len());
            if let Some(place) = place_of(clients, window_id) {
                lemma_update_keeps_distinct(
                    clients,
                    place as int,
                    client_notified(clients[place as int], *notification),
                );
            }
        },
        LoopEvent::User(AppEvent::KakouneExited(window_id)) => {
            lemma_others_are_some(clients, window_id, clients.len());
        },
        LoopEvent::User(AppEvent::ClientClosed { session, client_id }) => {
            lemma_unclosed_are_some(clients, session@, client_id@, clients.len());
        },
        LoopEvent::Window(window_id, input) => {
            lemma_window_place(clients, window_id, clients.len());
            lemma_others_are_some(clients, window_id, clients.len());
            if let Some(place) = place_of(clients, window_id) {
                lemma_update_keeps_distinct(
                    clients,
                    place as int,
                    client_after(clients[place as int], input),
                );
            }
        },
        LoopEvent::StartupClientCreated { by_files, kak_args, window_id, child_id } => {
            lemma_with_window_distinct(
                clients,
                new_client(window_id, session_of(kak_args.deep_view(), child_id)),
            );
        },
        LoopEvent::SessionWindowOpened { window_id, session } => {
            lemma_with_window_distinct(clients, new_client(window_id, session@));
        },
        _ => {},
    }
}

/// A window that keeps its number stays distinct from the others.
proof fn lemma_update_keeps_distinct(clients: Seq<ClientView>, place: int, client: ClientView)
    requires
        unlike_windows(clients),
        0 <= place < clients.len(),
        client.window_id == clients[place].window_id,
    ensures
        unlike_windows(clients.update(place, client)),
{
    let after = clients.update(place, client);
    assert forall|i: int, j: int| 0 <= i < j < after.len() implies (#[trigger] after[i]).window_id
        != (#[trigger] after[j]).window_id by {
        assert(clients[i].window_id != clients[j].window_id);
    }
}

/// Once there is a session there is always one.
pub proof fn law_session_is_never_lost(before: RuntimeView, event: LoopEvent)
    requires
        before.session is Some,
    ensures
        after_event(before, event).session is Some,
{
}

/// Whether an action asks for the first window.
pub open spec fn asks_first_window(action: ActionView) -> bool {
    action is CreateStartupClient
}

/// What the actions for each window are.
proof fn lemma_actions_for_each_window(clients: Seq<ClientView>, n: nat)
    requires
        n <= clients.len(),
    ensures
        forall|i: int|
            0 <= i < idle_actions(clients, n).len() ==> #[trigger] idle_actions(
                clients,
                n,
            )[i] is RedrawIfIndicated,
        forall|i: int|
            0 <= i < resume_actions(clients, n).len() ==> (#[trigger] resume_actions(
                clients,
                n,
            )[i] is SendResize || resume_actions(clients, n)[i] is Redraw),
    decreases n,
{
    if n > 0 {
        lemma_actions_for_each_window(clients, (n - 1) as nat);
        let idle = idle_actions(clients, (n - 1) as nat);
        let resumed = resume_actions(clients, (n - 1) as nat);
        assert forall|i: int| 0 <= i < idle_actions(clients, n).len() implies #[trigger] idle_actions(
            clients,
            n,
        )[i] is RedrawIfIndicated by {
            if i < idle.len() {
                assert(idle_actions(clients, n)[i] == idle[i]);
            }
        }
        assert forall|i: int| 0 <= i < resume_actions(clients, n).len() implies (
        #[trigger] resume_actions(clients, n)[i] is SendResize || resume_actions(
            clients,
            n,
        )[i] is Redraw) by {
            if i < resumed.len() {
                assert(resume_actions(clients, n)[i] == resumed[i]);
            }
        }
    }
}

/// What the actions for a closed client are.
proof fn lemma_actions_for_closed_client(
    clients: Seq<ClientView>,
    session: Seq<u8>,
    client_id: Seq<char>,
    n: nat,
)
    requires
        n <= clients.len(),
    ensures
        forall|i: int|
            0 <= i < closing_among(clients, session, client_id, n).len()
                ==> #[trigger] closing_among(clients, session, client_id, n)[i] is Close,
    decreases n,
{
    if n > 0 {
        lemma_actions_for_closed_client(clients, session, client_id, (n - 1) as nat);
    }
}

/// Once there is a session the first window is not asked for again.
pub proof fn law_first_window_is_asked_for_once(
    before: RuntimeView,
    event: LoopEvent,
    args: ArgsView,
    config: AppConfigView,
)
    requires
        before.session is Some,
    ensures
        forall|i: int|
            0 <= i < event_actions(before, event, args, config).len()
                ==> !asks_first_window(
                #[trigger] event_actions(before, event, args, config)[i],
            ),
{
    let clients = before.clients;
    lemma_actions_for_each_window(clients, clients.len());
    if let LoopEvent::User(AppEvent::ClientClosed { session, client_id }) = event {
        lemma_actions_for_closed_client(clients, session@, client_id@, clients.len());
    }
}

/// Whether actions end the program.
pub open spec fn ends_program(actions: Seq<ActionView>) -> bool {
    exists|i: int| 0 <= i < actions.len() && #[trigger] actions[i] is Exit
}

/// The program ends when its last window is gone, and not while one is left. A
/// first window that cannot be opened ends it too.
pub proof fn law_program_ends_with_its_last_window(
    before: RuntimeView,
    event: LoopEvent,
    args: ArgsView,
    config: AppConfigView,
)
    requires
        !(event is StartupClientFailed),
    ensures
        ({
            let actions = event_actions(before, event, args, config);
            let after = after_event(before, event);
            &&& ends_program(actions) ==> after.clients.len() == 0
            &&& before.clients.len() > 0 && after.clients.len() == 0 ==> ends_program(actions)
        }),
{
    let clients = before.clients;
    let actions = event_actions(before, event, args, config);
    let after = after_event(before, event);
    lemma_actions_for_each_window(clients, clients.len());
    match event {
        LoopEvent::User(AppEvent::ClientClosed { session, client_id }) => {
            lemma_actions_for_closed_client(clients, session@, client_id@, clients.len());
            let closing = closing_among(clients, session@, client_id@, clients.len());
            assert(actions == closing + exit_without(after.clients));
            if after.clients.len() == 0 {
                assert(actions[closing.len() as int] is Exit);
                assert(ends_program(actions));
            } else {
                assert(actions =~= closing);
                assert forall|i: int| 0 <= i < actions.len() implies !(
                #[trigger] actions[i] is Exit) by {
                    assert(closing[i] is Close);
                }
                assert(!ends_program(actions));
            }
        },
        LoopEvent::User(AppEvent::KakouneExited(window_id)) => {
            if after.clients.len() == 0 {
                assert(actions[actions.len() - 1] is Exit);
            }
        },
        LoopEvent::User(AppEvent::Rpc(window_id, notification)) => {
            lemma_window_place(clients, window_id, clients.len());
        },
        LoopEvent::StartupClientCreated { by_files, kak_args, window_id, child_id } => {
            lemma_window_place(clients, window_id, clients.len());
        },
        LoopEvent::SessionWindowOpened { window_id, session } => {
            lemma_window_place(clients, window_id, clients.len());
        },
        LoopEvent::Window(window_id, input) => {
            lemma_window_place(clients, window_id, clients.len());
            if removes_window(input) && after.clients.len() == 0 && before.clients.len() > 0 {
                assert(actions[actions.len() - 1] is Exit);
            }
        },
        _ => {},
    }
}

/// What comes for a window that is not there changes nothing, and nothing is
/// done about it.
pub proof fn law_unknown_windows_change_nothing(
    before: RuntimeView,
    window_id: u64,
    input: WindowInput,
    notification: Box<KakouneNotification>,
    args: ArgsView,
    config: AppConfigView,
)
    requires
        place_of(before.clients, window_id) is None,
    ensures
        after_event(before, LoopEvent::Window(window_id, input)) == before,
        event_actions(
            before,
            LoopEvent::Window(window_id, input),
            args,
            config,
        ).len() == 0,
        after_event(before, LoopEvent::User(AppEvent::Rpc(window_id, notification))) == before,
        event_actions(
            before,
            LoopEvent::User(AppEvent::Rpc(window_id, notification)),
            args,
            config,
        ).len() == 0,
{
}

/// What happens in one window, or comes from its editor, leaves the others as
/// they are.
pub proof fn law_windows_do_not_mix(
    before: RuntimeView,
    window_id: u64,
    input: WindowInput,
    notification: Box<KakouneNotification>,
    k: int,
)
    requires
        0 <= k < before.clients.len(),
        before.clients[k].window_id != window_id,
        !removes_window(input),
    ensures
        after_event(before, LoopEvent::Window(window_id, input)).clients[k] == before.clients[k],
        after_event(before, LoopEvent::User(AppEvent::Rpc(window_id, notification))).clients[k]
            == before.clients[k],
{
    lemma_window_place(before.clients, window_id, before.clients.len());
}

/// The size of a window is told once more at its first drawing, and at no later
/// one; its client keeps the name that it was first given.
pub proof fn law_first_drawing_and_first_name_count(
    client: ClientView,
    notification: KakouneNotification,
)
    ensures
        notification is Draw ==> client_notified(client, notification).did_force_startup_resize,
        client.did_force_startup_resize ==> client_notified(
            client,
            notification,
        ).did_force_startup_resize && forall|i: int|
            0 <= i < notification_actions(client, notification).len() ==> !(
            #[trigger] notification_actions(client, notification)[i] is SendResize),
        client.client_id is Some ==> client_notified(client, notification).client_id
            == client.client_id,
{
}

/// Whether a window stands at a place, and is the first of its number.
pub open spec fn stands_at(clients: Seq<ClientView>, window_id: u64, place: int) -> bool {
    &&& 0 <= place < clients.len()
    &&& clients[place].window_id == window_id
    &&& forall|k: int| 0 <= k < place ==> (#[trigger] clients[k]).window_id != window_id
}

/// A window is found where it stands.
proof fn lemma_stands_at(clients: Seq<ClientView>, window_id: u64, place: int)
    requires
        stands_at(clients, window_id, place),
    ensures
        place_of(clients, window_id) == Some(place as nat),
{
    lemma_window_place(clients, window_id, clients.len());
    if let Some(found) = place_of(clients, window_id) {
        if found < place {
            assert(clients[found as int].window_id != window_id);
        }
    }
}

/// A window that changes stays where it stands.
proof fn lemma_still_stands(
    clients: Seq<ClientView>,
    window_id: u64,
    place: int,
    client: ClientView,
)
    requires
        stands_at(clients, window_id, place),
        client.window_id == window_id,
    ensures
        stands_at(clients.update(place, client), window_id, place),
{
}

/// A key that goes down in a window, and that the settings do not name, is sent to
/// the editor of that window, as the key with the modifiers that were last said to
/// be held down there. A key that goes up does nothing.
pub proof fn law_keys_are_sent_with_their_modifiers(
    before: RuntimeView,
    window_id: u64,
    place: int,
    modifiers: Modifiers,
    event: KeyEvent,
    args: ArgsView,
    config: AppConfigView,
)
    requires
        stands_at(before.clients, window_id, place),
        action_of_key(config.keys, event, modifiers) is None,
    ensures
        ({
            let held = after_event(
                before,
                LoopEvent::Window(window_id, WindowInput::ModifiersChanged(modifiers)),
            );
            let down = LoopEvent::Window(window_id, WindowInput::Key { pressed: true, event });
            let up = LoopEvent::Window(window_id, WindowInput::Key { pressed: false, event });
            let actions = event_actions(held, down, args, config);
            &&& key_event_text(event, modifiers) matches Some(text) ==> actions == seq![
                ActionView::Send(window_id, RequestView::Keys { keys: seq![text] }),
            ]
            &&& key_event_text(event, modifiers) is None ==> actions.len() == 0
            &&& event_actions(held, up, args, config).len() == 0
            &&& after_event(held, down) == held
        }),
{
    lemma_stands_at(before.clients, window_id, place);
    let client = client_after(
        before.clients[place],
        WindowInput::ModifiersChanged(modifiers),
    );
    lemma_still_stands(before.clients, window_id, place, client);
    let clients = before.clients.update(place, client);
    lemma_stands_at(clients, window_id, place);
    assert(clients.update(place, client) =~= clients);
}

/// A key that the settings name is carried out for its window in the session, and
/// not sent to the editor; without a session it is only reported.
pub proof fn law_named_keys_are_carried_out(
    before: RuntimeView,
    window_id: u64,
    place: int,
    event: KeyEvent,
    args: ArgsView,
    config: AppConfigView,
)
    requires
        stands_at(before.clients, window_id, place),
        action_of_key(config.keys, event, before.clients[place].modifiers) is Some,
    ensures
        ({
            let action = action_of_key(config.keys, event, before.clients[place].modifiers)->0;
            let actions = event_actions(
                before,
                LoopEvent::Window(window_id, WindowInput::Key { pressed: true, event }),
                args,
                config,
            );
            &&& before.session matches Some(session) ==> actions == seq![
                ActionView::HandleCommand {
                    session,
                    command: command_of(action),
                    window: Some(window_id),
                },
            ]
            &&& before.session is None ==> actions == seq![
                ActionView::Log(Trouble::WindowCommandBeforeSession),
            ]
        }),
{
    lemma_stands_at(before.clients, window_id, place);
}

/// Text from an input method is sent to the editor as it is, unless it is empty or
/// control, alt or command is held down.
pub proof fn law_committed_text_is_sent(
    before: RuntimeView,
    window_id: u64,
    place: int,
    text: String,
    args: ArgsView,
    config: AppConfigView,
)
    requires
        stands_at(before.clients, window_id, place),
    ensures
        ({
            let held = before.clients[place].modifiers;
            let actions = event_actions(
                before,
                LoopEvent::Window(window_id, WindowInput::ImeCommit(text)),
                args,
                config,
            );
            if text@.len() > 0 && !held.control && !held.alt && !held.logo {
                actions == seq![
                    ActionView::Send(window_id, RequestView::Keys { keys: seq![text@] }),
                ]
            } else {
                actions.len() == 0
            }
        }),
{
    lemma_stands_at(before.clients, window_id, place);
}

/// Buttons and the wheel tell the editor the cell that the pointer was last moved
/// to: a press as a press, a release as a release, and the wheel by its lines.
pub proof fn law_clicks_tell_where_the_pointer_is(
    before: RuntimeView,
    window_id: u64,
    place: int,
    coord: Coord,
    button: MouseButton,
    amount: i32,
    args: ArgsView,
    config: AppConfigView,
)
    requires
        stands_at(before.clients, window_id, place),
    ensures
        ({
            let moved = after_event(
                before,
                LoopEvent::Window(window_id, WindowInput::CursorMoved(coord)),
            );
            let pressed = event_actions(
                moved,
                LoopEvent::Window(window_id, WindowInput::MouseInput { pressed: true, button }),
                args,
                config,
            );
            let released = event_actions(
                moved,
                LoopEvent::Window(window_id, WindowInput::MouseInput { pressed: false, button }),
                args,
                config,
            );
            let turned = event_actions(
                moved,
                LoopEvent::Window(window_id, WindowInput::Wheel(Some(amount))),
                args,
                config,
            );
            &&& button_name(button) matches Some(name) ==> pressed == seq![
                ActionView::Send(window_id, RequestView::MousePress { button: name, coord }),
            ] && released == seq![
                ActionView::Send(window_id, RequestView::MouseRelease { button: name, coord }),
            ]
            &&& button_name(button) is None ==> pressed.len() == 0 && released.len() == 0
            &&& turned == seq![ActionView::Send(window_id, RequestView::Scroll { amount, coord })]
            &&& event_actions(
                moved,
                LoopEvent::Window(window_id, WindowInput::Wheel(None)),
                args,
                config,
            ).len() == 0
        }),
{
    lemma_stands_at(before.clients, window_id, place);
    let client = client_after(before.clients[place], WindowInput::CursorMoved(coord));
    lemma_still_stands(before.clients, window_id, place, client);
    lemma_stands_at(before.clients.update(place, client), window_id, place);
}

/// Moves are told to the editor while the left button is down, and only then: from
/// its press on, until it is released or the pointer leaves the window. Other
/// buttons make no difference.
pub proof fn law_moves_are_told_while_dragging(
    before: RuntimeView,
    window_id: u64,
    place: int,
    pressed: bool,
    button: MouseButton,
    coord: Coord,
    args: ArgsView,
    config: AppConfigView,
)
    requires
        stands_at(before.clients, window_id, place),
    ensures
        ({
            let told = seq![ActionView::Send(window_id, RequestView::MouseMove { coord })];
            let moved = LoopEvent::Window(window_id, WindowInput::CursorMoved(coord));
            let clicked = after_event(
                before,
                LoopEvent::Window(window_id, WindowInput::MouseInput { pressed, button }),
            );
            let left = after_event(
                before,
                LoopEvent::Window(window_id, WindowInput::PointerLeft),
            );
            let actions = event_actions(clicked, moved, args, config);
            &&& button is Left && pressed ==> actions == told
            &&& button is Left && !pressed ==> actions.len() == 0
            &&& !(button is Left) ==> actions == event_actions(before, moved, args, config)
            &&& event_actions(left, moved, args, config).len() == 0
        }),
{
    lemma_stands_at(before.clients, window_id, place);
    let clicked = client_after(
        before.clients[place],
        WindowInput::MouseInput { pressed, button },
    );
    lemma_still_stands(before.clients, window_id, place, clicked);
    lemma_stands_at(before.clients.update(place, clicked), window_id, place);
    let left = client_after(before.clients[place], WindowInput::PointerLeft);
    lemma_still_stands(before.clients, window_id, place, left);
    lemma_stands_at(before.clients.update(place, left), window_id, place);
}

/// A window that gets another size gets a surface of that size, tells the editor
/// the new size, and is painted anew; at another scale likewise, but for the
/// surface; and a window that is to be painted is painted.
pub proof fn law_resized_windows_tell_their_size(
    before: RuntimeView,
    window_id: u64,
    place: int,
    args: ArgsView,
    config: AppConfigView,
)
    requires
        stands_at(before.clients, window_id, place),
    ensures
        event_actions(
            before,
            LoopEvent::Window(window_id, WindowInput::Resized),
            args,
            config,
        ) == seq![
            ActionView::ResizeSurface(window_id),
            ActionView::SendResize(window_id),
            ActionView::Redraw(window_id),
        ],
        event_actions(
            before,
            LoopEvent::Window(window_id, WindowInput::ScaleFactorChanged),
            args,
            config,
        ) == seq![ActionView::SendResize(window_id), ActionView::Redraw(window_id)],
        event_actions(
            before,
            LoopEvent::Window(window_id, WindowInput::RedrawRequested),
            args,
            config,
        ) == seq![ActionView::Render(window_id)],
        after_event(before, LoopEvent::Window(window_id, WindowInput::Resized)) == before,
{
    lemma_stands_at(before.clients, window_id, place);
    assert(before.clients.update(place, before.clients[place]) =~= before.clients);
}

/// The icon is put up once, when a window was first painted.
pub proof fn law_icon_is_put_up_once(
    before: RuntimeView,
    window_id: u64,
    place: int,
    args: ArgsView,
    config: AppConfigView,
)
    requires
        stands_at(before.clients, window_id, place),
    ensures
        ({
            let painted = LoopEvent::Window(window_id, WindowInput::Rendered { ok: true });
            let after = after_event(before, painted);
            &&& before.icon_pending ==> event_actions(before, painted, args, config) == seq![
                ActionView::ApplyIcon,
            ]
            &&& !before.icon_pending ==> event_actions(before, painted, args, config).len() == 0
            &&& !after.icon_pending
            &&& after.clients == before.clients
        }),
{
    lemma_stands_at(before.clients, window_id, place);
    assert(before.clients.update(place, before.clients[place]) =~= before.clients);
}

/// Removing a window leaves every other, and no window of its number.
proof fn lemma_removed(clients: Seq<ClientView>, window_id: u64, n: nat, k: int)
    requires
        n <= clients.len(),
    ensures
        forall|i: int|
            0 <= i < others_among(clients, window_id, n).len() ==> (#[trigger] others_among(
                clients,
                window_id,
                n,
            )[i]).window_id != window_id,
        0 <= k < n && clients[k].window_id != window_id ==> others_among(
            clients,
            window_id,
            n,
        ).contains(clients[k]),
    decreases n,
{
    if n > 0 {
        lemma_removed(clients, window_id, (n - 1) as nat, k);
        let before = others_among(clients, window_id, (n - 1) as nat);
        let after = others_among(clients, window_id, n);
        assert forall|i: int| 0 <= i < after.len() implies (#[trigger] after[i]).window_id
            != window_id by {
            if i < before.len() {
                assert(after[i] == before[i]);
            }
        }
        if 0 <= k < n && clients[k].window_id != window_id {
            if k < n - 1 {
                let i = choose|i: int| 0 <= i < before.len() && before[i] == clients[k];
                assert(after[i] == clients[k]);
            } else {
                assert(after[after.len() - 1] == clients[k]);
            }
        }
    }
}

/// A window that is closed, or that could not be painted, has its editor stopped
/// and is taken off the screen. It is gone afterwards, and every other is still
/// there.
pub proof fn law_closed_windows_are_gone(
    before: RuntimeView,
    window_id: u64,
    place: int,
    input: WindowInput,
    k: int,
    args: ArgsView,
    config: AppConfigView,
)
    requires
        stands_at(before.clients, window_id, place),
        input is CloseRequested || input == (WindowInput::Rendered { ok: false }),
        0 <= k < before.clients.len(),
    ensures
        ({
            let event = LoopEvent::Window(window_id, input);
            let actions = event_actions(before, event, args, config);
            let after = after_event(before, event);
            &&& actions.len() >= 2
            &&& actions[0] == ActionView::Kill(window_id)
            &&& actions[1] == ActionView::Close(window_id)
            &&& place_of(after.clients, window_id) is None
            &&& before.clients[k].window_id != window_id ==> after.clients.contains(
                before.clients[k],
            )
            &&& after == (RuntimeView { clients: after.clients, ..before })
        }),
{
    lemma_stands_at(before.clients, window_id, place);
    lemma_removed(before.clients, window_id, before.clients.len(), k);
    let after = without_window(before.clients, window_id);
    lemma_window_place(after, window_id, after.len());
}

/// A window whose editor has ended is taken off the screen. It is gone afterwards,
/// and every other is still there.
pub proof fn law_windows_go_with_their_editor(
    before: RuntimeView,
    window_id: u64,
    place: int,
    k: int,
    args: ArgsView,
    config: AppConfigView,
)
    requires
        stands_at(before.clients, window_id, place),
        0 <= k < before.clients.len(),
    ensures
        ({
            let event = LoopEvent::User(AppEvent::KakouneExited(window_id));
            let actions = event_actions(before, event, args, config);
            let after = after_event(before, event);
            &&& actions.len() >= 1
            &&& actions[0] == ActionView::Close(window_id)
            &&& place_of(after.clients, window_id) is None
            &&& before.clients[k].window_id != window_id ==> after.clients.contains(
                before.clients[k],
            )
            &&& after == (RuntimeView { clients: after.clients, ..before })
        }),
{
    lemma_stands_at(before.clients, window_id, place);
    lemma_removed(before.clients, window_id, before.clients.len(), k);
    let after = without_window(before.clients, window_id);
    lemma_window_place(after, window_id, after.len());
}

/// The windows that show a client are closed, and the others stay.
proof fn lemma_unclosed(
    clients: Seq<ClientView>,
    session: Seq<u8>,
    client_id: Seq<char>,
    n: nat,
    k: int,
)
    requires
        n <= clients.len(),
        0 <= k < n,
    ensures
        ({
            let shown = clients[k].session == session && clients[k].client_id == Some(client_id);
            let left = unclosed_among(clients, session, client_id, n);
            let closed = closing_among(clients, session, client_id, n);
            &&& shown ==> closed.contains(ActionView::Close(clients[k].window_id))
            &&& !shown ==> left.contains(clients[k])
        }),
    decreases n,
{
    let left = unclosed_among(clients, session, client_id, n);
    let closed = closing_among(clients, session, client_id, n);
    let left_before = unclosed_among(clients, session, client_id, (n - 1) as nat);
    let closed_before = closing_among(clients, session, client_id, (n - 1) as nat);
    let shown = clients[k].session == session && clients[k].client_id == Some(client_id);
    if k < n - 1 {
        lemma_unclosed(clients, session, client_id, (n - 1) as nat, k);
        if shown {
            let close = ActionView::Close(clients[k].window_id);
            let i = choose|i: int| 0 <= i < closed_before.len() && closed_before[i] == close;
            assert(closed[i] == close);
        } else {
            let i = choose|i: int| 0 <= i < left_before.len() && left_before[i] == clients[k];
            assert(left[i] == clients[k]);
        }
    } else if shown {
        assert(closed[closed.len() - 1] == ActionView::Close(clients[k].window_id));
    } else {
        assert(left[left.len() - 1] == clients[k]);
    }
}

/// No window that is left shows a client that was closed.
proof fn lemma_none_shows(
    clients: Seq<ClientView>,
    session: Seq<u8>,
    client_id: Seq<char>,
    n: nat,
    k: int,
)
    requires
        n <= clients.len(),
        0 <= k < unclosed_among(clients, session, client_id, n).len(),
    ensures
        ({
            let left = unclosed_among(clients, session, client_id, n)[k];
            !(left.session == session && left.client_id == Some(client_id))
        }),
    decreases n,
{
    let before = unclosed_among(clients, session, client_id, (n - 1) as nat);
    if k < before.len() {
        lemma_none_shows(clients, session, client_id, (n - 1) as nat, k);
    }
}

/// When a client of a session was closed, every window that shows it is taken off
/// the screen and gone, and every other window is still there: one of another
/// session, one of another client, and one whose client is not known.
pub proof fn law_windows_go_with_their_client(
    before: RuntimeView,
    session: Vec<u8>,
    client_id: String,
    k: int,
    args: ArgsView,
    config: AppConfigView,
)
    requires
        0 <= k < before.clients.len(),
    ensures
        ({
            let event = LoopEvent::User(AppEvent::ClientClosed { session, client_id });
            let actions = event_actions(before, event, args, config);
            let after = after_event(before, event);
            let client = before.clients[k];
            let shown = client.session == session@ && client.client_id == Some(client_id@);
            &&& shown ==> actions.contains(ActionView::Close(client.window_id))
            &&& !shown ==> after.clients.contains(client)
            &&& forall|i: int|
                0 <= i < after.clients.len() ==> !((#[trigger] after.clients[i]).session == session@
                    && after.clients[i].client_id == Some(client_id@))
            &&& after == (RuntimeView { clients: after.clients, ..before })
        }),
{
    let clients = before.clients;
    let event = LoopEvent::User(AppEvent::ClientClosed { session, client_id });
    let actions = event_actions(before, event, args, config);
    let after = after_event(before, event);
    lemma_unclosed(clients, session@, client_id@, clients.len(), k);
    let closed = closing_among(clients, session@, client_id@, clients.len());
    if clients[k].session == session@ && clients[k].client_id == Some(client_id@) {
        let close = ActionView::Close(clients[k].window_id);
        let i = choose|i: int| 0 <= i < closed.len() && closed[i] == close;
        assert(actions[i] == close);
    }
    assert forall|i: int| 0 <= i < after.clients.len() implies !((
    #[trigger] after.clients[i]).session == session@ && after.clients[i].client_id == Some(
        client_id@,
    )) by {
        lemma_none_shows(clients, session@, client_id@, clients.len(), i);
    }
}

/// What the editor of a window tells it is shown in that window, which is painted
/// anew afterwards. A title that changed is given to the window; the first drawing
/// has the size told once more; and the first title that names the client tells
/// whom the window shows.
#[verifier::rlimit(40)]
pub proof fn law_windows_show_what_they_are_told(
    before: RuntimeView,
    window_id: u64,
    place: int,
    notification: Box<KakouneNotification>,
    args: ArgsView,
    config: AppConfigView,
)
    requires
        stands_at(before.clients, window_id, place),
    ensures
        ({
            let event = LoopEvent::User(AppEvent::Rpc(window_id, notification));
            let actions = event_actions(before, event, args, config);
            let old_client = before.clients[place];
            let client = after_event(before, event).clients[place];
            &&& client.state == notified(old_client.state, *notification)
            &&& client.window_id == window_id
            &&& client.session == old_client.session
            &&& client.modifiers == old_client.modifiers
            &&& client.mouse_cell == old_client.mouse_cell
            &&& client.dragging == old_client.dragging
            &&& actions.last() == ActionView::Redraw(window_id)
            &&& client.state.window_title != old_client.state.window_title ==> actions[0]
                == ActionView::SetTitle(window_id, client.state.window_title)
            &&& client.state.window_title == old_client.state.window_title ==> forall|i: int|
                0 <= i < actions.len() ==> !(#[trigger] actions[i] is SetTitle)
            &&& *notification is Draw && !old_client.did_force_startup_resize ==> actions.contains(
                ActionView::SendResize(window_id),
            )
            &&& old_client.client_id is None ==> (*notification matches
                KakouneNotification::SetUiOptions { options } ==> match title_in(options) {
                Some(update) => client.client_id == update.client_name,
                None => client.client_id is None,
            })
            &&& old_client.client_id is Some || !(*notification is SetUiOptions)
                ==> client.client_id == old_client.client_id
        }),
{
    lemma_stands_at(before.clients, window_id, place);
    let event = LoopEvent::User(AppEvent::Rpc(window_id, notification));
    let actions = event_actions(before, event, args, config);
    let old_client = before.clients[place];
    if *notification is Draw && !old_client.did_force_startup_resize {
        assert(actions[actions.len() - 2] == ActionView::SendResize(window_id));
    }
}

/// The first window makes the session: the one that its editor's arguments name, or
/// the one by its process. The window belongs to that session, and so does every
/// window that is opened on it later.
pub proof fn law_new_windows_belong_to_their_session(
    before: RuntimeView,
    by_files: bool,
    kak_args: Vec<Vec<u8>>,
    window_id: u64,
    child_id: u32,
    session: Vec<u8>,
    k: int,
)
    requires
        0 <= k < before.clients.len(),
    ensures
        ({
            let started = after_event(
                before,
                LoopEvent::StartupClientCreated { by_files, kak_args, window_id, child_id },
            );
            let opened = after_event(
                before,
                LoopEvent::SessionWindowOpened { window_id, session },
            );
            let name = session_of(kak_args.deep_view(), child_id);
            &&& started.session == Some(name)
            &&& place_of(started.clients, window_id) matches Some(place)
                && started.clients[place as int].session == name
                && started.clients[place as int].window_id == window_id
            &&& started.startup == if by_files {
                StartupOpenState::StartupOpenHandled
            } else {
                StartupOpenState::NoPendingStartupOpen
            }
            &&& opened.session == before.session
            &&& opened.startup == before.startup
            &&& place_of(opened.clients, window_id) matches Some(place)
                && opened.clients[place as int].session == session@
                && opened.clients[place as int].window_id == window_id
            &&& before.clients[k].window_id != window_id ==> started.clients[k]
                == before.clients[k] && opened.clients[k] == before.clients[k]
        }),
{
    let name = session_of(kak_args.deep_view(), child_id);
    lemma_window_place(before.clients, window_id, before.clients.len());
    lemma_inserted(before.clients, new_client(window_id, name));
    lemma_inserted(before.clients, new_client(window_id, session@));
}

/// A window that was put among others is found there.
proof fn lemma_inserted(clients: Seq<ClientView>, client: ClientView)
    ensures
        ({
            let after = with_window(clients, client);
            place_of(after, client.window_id) matches Some(place) && place < after.len()
                && after[place as int] == client
        }),
{
    let id = client.window_id;
    let after = with_window(clients, client);
    lemma_window_place(clients, id, clients.len());
    match place_of(clients, id) {
        Some(place) => {
            lemma_still_stands(clients, id, place as int, client);
            lemma_stands_at(after, id, place as int);
        },
        None => {
            assert forall|k: int| 0 <= k < clients.len() implies (#[trigger] after[k]).window_id
                != id by {
                assert(after[k] == clients[k]);
            }
            lemma_stands_at(after, id, clients.len() as int);
        },
    }
}

/// A window begins empty: with nothing of an editor in it, without a client's name,
/// with no key held down, and with the pointer in the first cell.
pub proof fn law_windows_begin_empty(window_id: u64, session: Seq<u8>)
    ensures
        ({
            let client = new_client(window_id, session);
            &&& client.window_id == window_id
            &&& client.session == session
            &&& client.client_id is None
            &&& client.state == initial_app()
            &&& !client.did_force_startup_resize
            &&& !client.modifiers.shift && !client.modifiers.control && !client.modifiers.alt
                && !client.modifiers.logo
            &&& client.mouse_cell.line == 0 && client.mouse_cell.column == 0
            &&& !client.dragging
        }),
{
}

/// Files that the system opens are opened in the session. A request for the files
/// of the command line is passed over once, and heeded when it comes again.
pub proof fn law_files_are_opened_in_the_session(
    before: RuntimeView,
    paths: Vec<Vec<u8>>,
    args: ArgsView,
    config: AppConfigView,
)
    requires
        before.session is Some,
    ensures
        ({
            let event = LoopEvent::User(AppEvent::OpenFiles(paths));
            let opened = seq![
                ActionView::OpenSessionWindow {
                    session: before.session->0,
                    paths: paths.deep_view(),
                },
            ];
            let expected = before.pending_open_files is Some && same_places(
                before.pending_open_files->0,
                paths.deep_view(),
            );
            let after = after_event(before, event);
            &&& !expected ==> event_actions(before, event, args, config) == opened && after
                == before
            &&& expected ==> event_actions(before, event, args, config).len() == 0
                && after.pending_open_files is None
            &&& expected ==> event_actions(after, event, args, config) == opened
        }),
{
}

/// Before there is a session, files make the first window where they are waited
/// for, and are otherwise only reported, as are commands.
pub proof fn law_nothing_is_opened_before_the_session(
    before: RuntimeView,
    paths: Vec<Vec<u8>>,
    command: AppCommand,
    args: ArgsView,
    config: AppConfigView,
)
    requires
        before.session is None,
    ensures
        ({
            let files = LoopEvent::User(AppEvent::OpenFiles(paths));
            let actions = event_actions(before, files, args, config);
            &&& before.startup is WaitingForStartupOpenFiles && before.clients.len() == 0
                ==> actions == seq![
                ActionView::CreateStartupClient {
                    by_files: true,
                    args: first_args(
                        args,
                        config.single_session,
                        config.session_name,
                        paths.deep_view(),
                    ),
                },
            ]
            &&& !(before.startup is WaitingForStartupOpenFiles) && before.pending_open_files is None
                ==> actions == seq![ActionView::Log(Trouble::OpenBeforeSession)]
            &&& event_actions(
                before,
                LoopEvent::User(AppEvent::Command(command)),
                args,
                config,
            ) == seq![ActionView::Log(Trouble::CommandBeforeSession)]
        }),
{
}

/// A command from a menu is carried out in the session, for no window of its own.
pub proof fn law_menu_commands_are_carried_out(
    before: RuntimeView,
    command: AppCommand,
    args: ArgsView,
    config: AppConfigView,
)
    requires
        before.session is Some,
    ensures
        event_actions(before, LoopEvent::User(AppEvent::Command(command)), args, config) == seq![
            ActionView::HandleCommand { session: before.session->0, command, window: None },
        ],
        after_event(before, LoopEvent::User(AppEvent::Command(command))) == before,
{
}

/// What every window is told when the program is resumed, and when it is idle.
proof fn lemma_each_window_is_told(clients: Seq<ClientView>, n: nat, k: int)
    requires
        0 <= k < n <= clients.len(),
    ensures
        resume_actions(clients, n).contains(ActionView::SendResize(clients[k].window_id)),
        resume_actions(clients, n).contains(ActionView::Redraw(clients[k].window_id)),
        idle_actions(clients, n).contains(ActionView::RedrawIfIndicated(clients[k].window_id)),
    decreases n,
{
    let id = clients[k].window_id;
    let resumed = resume_actions(clients, n);
    let idle = idle_actions(clients, n);
    if k == n - 1 {
        assert(resumed[resumed.len() - 2] == ActionView::SendResize(id));
        assert(resumed[resumed.len() - 1] == ActionView::Redraw(id));
        assert(idle[idle.len() - 1] == ActionView::RedrawIfIndicated(id));
    } else {
        lemma_each_window_is_told(clients, (n - 1) as nat, k);
        let resumed_before = resume_actions(clients, (n - 1) as nat);
        let idle_before = idle_actions(clients, (n - 1) as nat);
        let a = choose|i: int|
            0 <= i < resumed_before.len() && resumed_before[i] == ActionView::SendResize(id);
        assert(resumed[a] == ActionView::SendResize(id));
        let b = choose|i: int|
            0 <= i < resumed_before.len() && resumed_before[i] == ActionView::Redraw(id);
        assert(resumed[b] == ActionView::Redraw(id));
        let c = choose|i: int|
            0 <= i < idle_before.len() && idle_before[i] == ActionView::RedrawIfIndicated(id);
        assert(idle[c] == ActionView::RedrawIfIndicated(id));
    }
}

/// When the program is resumed, every window tells its size and is painted anew,
/// and the menus are put up once; when it is idle, every window is painted anew
/// that shows that there are several cursors.
pub proof fn law_every_window_is_looked_after(
    before: RuntimeView,
    k: int,
    args: ArgsView,
    config: AppConfigView,
)
    requires
        0 <= k < before.clients.len(),
    ensures
        ({
            let resumed = event_actions(before, LoopEvent::Resumed, args, config);
            let idle = event_actions(before, LoopEvent::AboutToWait, args, config);
            let id = before.clients[k].window_id;
            &&& resumed.contains(ActionView::SendResize(id))
            &&& resumed.contains(ActionView::Redraw(id))
            &&& idle.contains(ActionView::RedrawIfIndicated(id))
            &&& before.menus_pending ==> resumed[0] is InstallMenus
            &&& !before.menus_pending ==> !(resumed[0] is InstallMenus)
            &&& !after_event(before, LoopEvent::Resumed).menus_pending
            &&& after_event(before, LoopEvent::AboutToWait) == before
        }),
{
    let n = before.clients.len();
    lemma_each_window_is_told(before.clients, n, k);
    lemma_actions_for_each_window(before.clients, n);
    let resumed = event_actions(before, LoopEvent::Resumed, args, config);
    let idle = event_actions(before, LoopEvent::AboutToWait, args, config);
    let id = before.clients[k].window_id;
    let plain = resume_actions(before.clients, n);
    let start: int = if before.menus_pending {
        1
    } else {
        0
    };
    let a = choose|i: int| 0 <= i < plain.len() && plain[i] == ActionView::SendResize(id);
    assert(resumed[start + a] == ActionView::SendResize(id));
    let b = choose|i: int| 0 <= i < plain.len() && plain[i] == ActionView::Redraw(id);
    assert(resumed[start + b] == ActionView::Redraw(id));
    let own = idle_actions(before.clients, n);
    let c = choose|i: int| 0 <= i < own.len() && own[i] == ActionView::RedrawIfIndicated(id);
    assert(idle[c] == ActionView::RedrawIfIndicated(id));
    if !before.menus_pending {
        assert(resumed =~= plain);
        assert(plain[0] is SendResize || plain[0] is Redraw);
    }
}

/// A program without windows that has not opened one for files asks for its first
/// window when it is idle, with what the command line names.
pub proof fn law_first_window_is_asked_for_when_idle(
    before: RuntimeView,
    args: ArgsView,
    config: AppConfigView,
)
    requires
        before.clients.len() == 0,
        before.session is None,
    ensures
        !(before.startup is StartupOpenHandled) ==> event_actions(
            before,
            LoopEvent::AboutToWait,
            args,
            config,
        ) == seq![
            ActionView::CreateStartupClient {
                by_files: false,
                args: first_args(
                    args,
                    config.single_session,
                    config.session_name,
                    Seq::empty(),
                ),
            },
        ],
        before.startup is StartupOpenHandled ==> event_actions(
            before,
            LoopEvent::AboutToWait,
            args,
            config,
        ).len() == 0,
{
}

/// A first window that cannot be opened is reported; it ends the program unless it
/// was to be opened for files.
pub proof fn law_failed_start_is_reported(
    before: RuntimeView,
    by_files: bool,
    args: ArgsView,
    config: AppConfigView,
)
    ensures
        ({
            let event = LoopEvent::StartupClientFailed { by_files };
            let actions = event_actions(before, event, args, config);
            &&& actions[0] is Log
            &&& ends_program(actions) <==> !by_files
            &&& actions[0] == ActionView::Log(Trouble::StartupOpenFailed) <==> by_files
            &&& actions[0] == ActionView::Log(Trouble::StartupFailed) <==> !by_files
            &&& after_event(before, event) == before
        }),
{
    let event = LoopEvent::StartupClientFailed { by_files };
    let actions = event_actions(before, event, args, config);
    if !by_files {
        assert(actions[1] is Exit);
    }
}

/// A program begins without windows and without a session. On macOS it has menus
/// and an icon to put up, and waits for files where it was started without
/// arguments; files on the command line are expected to be handed in again.
pub proof fn law_program_begins_empty(is_macos: bool, kak_args: Seq<Seq<u8>>)
    ensures
        ({
            let fresh = fresh_runtime(is_macos, kak_args);
            let files = files_from(kak_args, 0);
            &&& fresh.clients.len() == 0
            &&& fresh.session is None
            &&& fresh.menus_pending == is_macos
            &&& fresh.icon_pending == is_macos
            &&& fresh.startup is WaitingForStartupOpenFiles <==> is_macos && kak_args.len() == 0
            &&& !(fresh.startup is StartupOpenHandled)
            &&& files.len() > 0 ==> fresh.pending_open_files == Some(files)
            &&& files.len() == 0 ==> fresh.pending_open_files is None
        }),
{
}

/// What is said of what went wrong tells what it was: whether files, a command or a
/// window's command came too early, or a window could not be made, for files or at
/// all.
pub proof fn law_troubles_are_told_apart(trouble: Trouble)
    ensures
        trouble is OpenBeforeSession <==> trouble_text(trouble).take(9) == "open file"@,
        trouble is CommandBeforeSession <==> trouble_text(trouble).take(9) == "command r"@,
        trouble is WindowCommandBeforeSession <==> trouble_text(trouble).take(9) == "window co"@,
        trouble is StartupOpenFailed <==> trouble_text(trouble).take(9) == "startup o"@,
        trouble is StartupFailed <==> trouble_text(trouble).take(9) == "startup w"@,
{
    reveal_strlit("open file requested before startup session was ready");
    reveal_strlit("command requested before startup session was ready");
    reveal_strlit("window command requested before startup session was ready");
    reveal_strlit("startup open window creation failed");
    reveal_strlit("startup window creation failed");
    reveal_strlit("open file");
    reveal_strlit("command r");
    reveal_strlit("window co");
    reveal_strlit("startup o");
    reveal_strlit("startup w");
    let start = trouble_text(trouble).take(9);
    match trouble {
        Trouble::OpenBeforeSession => assert(start =~= "open file"@),
        Trouble::CommandBeforeSession => assert(start =~= "command r"@),
        Trouble::WindowCommandBeforeSession => assert(start =~= "window co"@),
        Trouble::StartupOpenFailed => assert(start =~= "startup o"@),
        Trouble::StartupFailed => assert(start =~= "startup w"@),
    }
    assert("open file"@[0] == 'o' && "command r"@[0] == 'c' && "window co"@[0] == 'w');
    assert("startup o"@[8] == 'o' && "startup w"@[8] == 'w' && "startup o"@[0] == 's'
        && "startup w"@[0] == 's');
}

} // verus!

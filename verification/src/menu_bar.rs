//! The menus of the program on macOS.

use vstd::prelude::*;

use crate::kakoune_process::{lossy_string, text_in};
use crate::launch::AppCommand;
use crate::strings::same_text;

verus! {

/// The menu of sessions to open a window on.
pub const CONNECT_SESSIONS_MENU: &'static str = "Connect to Session";

/// The menu of sessions to take the window to.
pub const SWITCH_SESSIONS_MENU: &'static str = "Switch to Session";

/// What choosing an item does.
#[derive(Debug, Clone, Copy, PartialEq, Eq, Structural)]
pub enum MenuChoice {
    Separator,
    HideApplication,
    HideOthers,
    ShowAll,
    Quit,
    NewWindow,
    CloseWindow,
    IncreaseFontSize,
    DecreaseFontSize,
    ResetFontSize,
    ConnectSessions,
    SwitchSessions,
    Minimize,
    Zoom,
    BringAllToFront,
}

/// An item of a menu, with the key that chooses it.
#[derive(Debug, PartialEq, Eq)]
pub struct MenuEntry {
    pub title: &'static str,
    pub key: &'static str,
    pub choice: MenuChoice,
}

/// A menu of the menu bar.
#[derive(Debug, PartialEq, Eq)]
pub struct MenuSection {
    pub title: &'static str,
    pub entries: Vec<MenuEntry>,
}

/// An item of a menu, as sequences.
pub struct MenuEntryView {
    pub title: Seq<char>,
    pub key: Seq<char>,
    pub choice: MenuChoice,
}

/// A menu of the menu bar, as sequences.
pub struct MenuSectionView {
    pub title: Seq<char>,
    pub entries: Seq<MenuEntryView>,
}

impl DeepView for MenuEntry {
    type V = MenuEntryView;

    open spec fn deep_view(&self) -> MenuEntryView {
        MenuEntryView { title: self.title@, key: self.key@, choice: self.choice }
    }
}

impl DeepView for MenuSection {
    type V = MenuSectionView;

    open spec fn deep_view(&self) -> MenuSectionView {
        MenuSectionView { title: self.title@, entries: self.entries.deep_view() }
    }
}

/// An item of a menu.
pub open spec fn entry_of(title: Seq<char>, key: Seq<char>, choice: MenuChoice) -> MenuEntryView {
    MenuEntryView { title, key, choice }
}

/// The menu bar.
pub open spec fn menu_bar() -> Seq<MenuSectionView> {
    seq![
        MenuSectionView {
            title: "Kakvide"@,
            entries: seq![
                entry_of("Hide Kakvide"@, "h"@, MenuChoice::HideApplication),
                entry_of("Hide Others"@, ""@, MenuChoice::HideOthers),
                entry_of("Show All"@, ""@, MenuChoice::ShowAll),
                entry_of(""@, ""@, MenuChoice::Separator),
                entry_of("Quit Kakvide"@, "q"@, MenuChoice::Quit),
            ],
        },
        MenuSectionView {
            title: "File"@,
            entries: seq![
                entry_of("New Window"@, "n"@, MenuChoice::NewWindow),
                entry_of("Close Window"@, "w"@, MenuChoice::CloseWindow),
            ],
        },
        MenuSectionView {
            title: "View"@,
            entries: seq![
                entry_of("Increase Font Size"@, "="@, MenuChoice::IncreaseFontSize),
                entry_of("Decrease Font Size"@, "-"@, MenuChoice::DecreaseFontSize),
                entry_of("Reset Font Size"@, "0"@, MenuChoice::ResetFontSize),
            ],
        },
        MenuSectionView {
            title: "Sessions"@,
            entries: seq![
                entry_of(CONNECT_SESSIONS_MENU@, ""@, MenuChoice::ConnectSessions),
                entry_of(SWITCH_SESSIONS_MENU@, ""@, MenuChoice::SwitchSessions),
            ],
        },
        MenuSectionView {
            title: "Window"@,
            entries: seq![
                entry_of("Minimize"@, "m"@, MenuChoice::Minimize),
                entry_of("Zoom"@, ""@, MenuChoice::Zoom),
                entry_of(""@, ""@, MenuChoice::Separator),
                entry_of("Bring All to Front"@, ""@, MenuChoice::BringAllToFront),
            ],
        },
    ]
}

/// Add an item to a menu.
fn add_item(
    entries: &mut Vec<MenuEntry>,
    title: &'static str,
    key: &'static str,
    choice: MenuChoice,
)
    ensures
        final(entries).deep_view() == old(entries).deep_view().push(
            entry_of(title@, key@, choice),
        ),
{
    entries.push(MenuEntry { title, key, choice });
    assert(entries.deep_view() =~= old(entries).deep_view().push(entry_of(title@, key@, choice)));
}

/// Add a menu to the menu bar.
fn append_submenu(sections: &mut Vec<MenuSection>, title: &'static str, entries: Vec<MenuEntry>)
    ensures
        final(sections).deep_view() == old(sections).deep_view().push(
            MenuSectionView { title: title@, entries: entries.deep_view() },
        ),
{
    let ghost views = entries.deep_view();
    sections.push(MenuSection { title, entries });
    assert(sections.deep_view() =~= old(sections).deep_view().push(
        MenuSectionView { title: title@, entries: views },
    ));
}

/// The menu bar.
pub fn main_menu() -> (sections: Vec<MenuSection>)
    ensures
        sections.deep_view() == menu_bar(),
{
    let mut sections: Vec<MenuSection> = Vec::new();
    let mut app: Vec<MenuEntry> = Vec::new();
    add_item(&mut app, "Hide Kakvide", "h", MenuChoice::HideApplication);
    add_item(&mut app, "Hide Others", "", MenuChoice::HideOthers);
    add_item(&mut app, "Show All", "", MenuChoice::ShowAll);
    add_item(&mut app, "", "", MenuChoice::Separator);
    add_item(&mut app, "Quit Kakvide", "q", MenuChoice::Quit);
    assert(app.deep_view() =~= menu_bar()[0].entries);
    append_submenu(&mut sections, "Kakvide", app);
    let mut file: Vec<MenuEntry> = Vec::new();
    add_item(&mut file, "New Window", "n", MenuChoice::NewWindow);
    add_item(&mut file, "Close Window", "w", MenuChoice::CloseWindow);
    assert(file.deep_view() =~= menu_bar()[1].entries);
    append_submenu(&mut sections, "File", file);
    let mut view: Vec<MenuEntry> = Vec::new();
    add_item(&mut view, "Increase Font Size", "=", MenuChoice::IncreaseFontSize);
    add_item(&mut view, "Decrease Font Size", "-", MenuChoice::DecreaseFontSize);
    add_item(&mut view, "Reset Font Size", "0", MenuChoice::ResetFontSize);
    assert(view.deep_view() =~= menu_bar()[2].entries);
    append_submenu(&mut sections, "View", view);
    let mut sessions: Vec<MenuEntry> = Vec::new();
    add_item(&mut sessions, CONNECT_SESSIONS_MENU, "", MenuChoice::ConnectSessions);
    add_item(&mut sessions, SWITCH_SESSIONS_MENU, "", MenuChoice::SwitchSessions);
    assert(sessions.deep_view() =~= menu_bar()[3].entries);
    append_submenu(&mut sections, "Sessions", sessions);
    let mut window: Vec<MenuEntry> = Vec::new();
    add_item(&mut window, "Minimize", "m", MenuChoice::Minimize);
    add_item(&mut window, "Zoom", "", MenuChoice::Zoom);
    add_item(&mut window, "", "", MenuChoice::Separator);
    add_item(&mut window, "Bring All to Front", "", MenuChoice::BringAllToFront);
    assert(window.deep_view() =~= menu_bar()[4].entries);
    append_submenu(&mut sections, "Window", window);
    assert(sections.deep_view() =~= menu_bar());
    sections
}

/// The command for a choice, if the program itself carries it out.
pub open spec fn choice_command(choice: MenuChoice) -> Option<AppCommand> {
    match choice {
        MenuChoice::NewWindow => Some(AppCommand::WindowNew),
        MenuChoice::CloseWindow => Some(AppCommand::WindowClose),
        MenuChoice::IncreaseFontSize => Some(AppCommand::FontScaleUp),
        MenuChoice::DecreaseFontSize => Some(AppCommand::FontScaleDown),
        MenuChoice::ResetFontSize => Some(AppCommand::FontScaleReset),
        _ => None,
    }
}

/// The command for a choice, if the program itself carries it out.
pub fn command_for_choice(choice: MenuChoice) -> (command: Option<AppCommand>)
    ensures
        command == choice_command(choice),
{
    match choice {
        MenuChoice::NewWindow => Some(AppCommand::WindowNew),
        MenuChoice::CloseWindow => Some(AppCommand::WindowClose),
        MenuChoice::IncreaseFontSize => Some(AppCommand::FontScaleUp),
        MenuChoice::DecreaseFontSize => Some(AppCommand::FontScaleDown),
        MenuChoice::ResetFontSize => Some(AppCommand::FontScaleReset),
        _ => None,
    }
}

/// The sessions that are listed in a menu, or why there are none.
#[derive(Debug)]
pub enum SessionListing {
    Listed(Vec<Vec<u8>>),
    Failed,
    NoEditor,
}

/// An item of a menu of sessions.
#[derive(Debug, PartialEq, Eq)]
pub struct SessionItem {
    pub title: String,
    pub enabled: bool,
}

/// An item of a menu of sessions, as sequences.
pub struct SessionItemView {
    pub title: Seq<char>,
    pub enabled: bool,
}

impl DeepView for SessionItem {
    type V = SessionItemView;

    open spec fn deep_view(&self) -> SessionItemView {
        SessionItemView { title: self.title@, enabled: self.enabled }
    }
}

/// The items of a menu of sessions: the sessions, or one item that cannot be
/// chosen and says why there are none.
pub open spec fn session_items(listing: SessionListing) -> Seq<SessionItemView> {
    match listing {
        SessionListing::Listed(sessions) => if sessions@.len() > 0 {
            Seq::new(
                sessions@.len(),
                |i: int| SessionItemView { title: text_in(sessions@[i]@), enabled: true },
            )
        } else {
            seq![SessionItemView { title: "No Sessions Available"@, enabled: false }]
        },
        _ => seq![SessionItemView { title: "Unable to List Sessions"@, enabled: false }],
    }
}

/// A single item that cannot be chosen.
fn disabled_item(title: &str) -> (items: Vec<SessionItem>)
    ensures
        items.deep_view() == seq![SessionItemView { title: title@, enabled: false }],
{
    let mut items: Vec<SessionItem> = Vec::new();
    items.push(SessionItem { title: title.to_string(), enabled: false });
    assert(items.deep_view() =~= seq![SessionItemView { title: title@, enabled: false }]);
    items
}

/// The items of a menu of sessions.
pub fn session_menu_items(listing: &SessionListing) -> (items: Vec<SessionItem>)
    ensures
        items.deep_view() == session_items(*listing),
{
    match listing {
        SessionListing::Listed(sessions) => {
            if sessions.len() == 0 {
                return disabled_item("No Sessions Available");
            }
            let ghost all = session_items(*listing);
            let mut items: Vec<SessionItem> = Vec::new();
            assert(items.deep_view() =~= all.take(0));
            for i in 0..sessions.len()
                invariant
                    sessions@.len() > 0,
                    *listing == SessionListing::Listed(*sessions),
                    all == session_items(*listing),
                    items.deep_view() == all.take(i as int),
            {
                let ghost before = items.deep_view();
                let item = SessionItem {
                    title: lossy_string(sessions[i].as_slice()),
                    enabled: true,
                };
                assert(item.deep_view() == all[i as int]);
                items.push(item);
                assert(items.deep_view() =~= before.push(all[i as int]));
                assert(items.deep_view() =~= all.take(i + 1));
            }
            assert(all.take(sessions.len() as int) =~= all);
            items
        },
        _ => disabled_item("Unable to List Sessions"),
    }
}

/// What an item of a menu of sessions stands for, by the title of its menu.
pub fn session_command(menu_title: &str, session: Vec<u8>) -> (command: Option<AppCommand>)
    ensures
        command == if menu_title@ == CONNECT_SESSIONS_MENU@ {
            Some(AppCommand::ConnectToSession(session))
        } else if menu_title@ == SWITCH_SESSIONS_MENU@ {
            Some(AppCommand::SwitchToSession(session))
        } else {
            None
        },
        command == Some(AppCommand::ConnectToSession(session)) <==> menu_title@
            == "Connect to Session"@,
        command == Some(AppCommand::SwitchToSession(session)) <==> menu_title@
            == "Switch to Session"@,
{
    proof {
        reveal_strlit("Connect to Session");
        reveal_strlit("Switch to Session");
        assert("Connect to Session"@.len() != "Switch to Session"@.len());
    }
    if same_text(menu_title, CONNECT_SESSIONS_MENU) {
        Some(AppCommand::ConnectToSession(session))
    } else if same_text(menu_title, SWITCH_SESSIONS_MENU) {
        Some(AppCommand::SwitchToSession(session))
    } else {
        None
    }
}

/// A choice has the command that is meant for it, and the choices that the system
/// carries out have none.
pub proof fn law_choices_mean_their_commands(choice: MenuChoice)
    ensures
        choice_command(choice) == Some(AppCommand::WindowNew) <==> choice is NewWindow,
        choice_command(choice) == Some(AppCommand::WindowClose) <==> choice is CloseWindow,
        choice_command(choice) == Some(AppCommand::FontScaleUp) <==> choice is IncreaseFontSize,
        choice_command(choice) == Some(AppCommand::FontScaleDown) <==> choice is DecreaseFontSize,
        choice_command(choice) == Some(AppCommand::FontScaleReset) <==> choice is ResetFontSize,
        choice_command(choice) matches Some(command) ==> !(command is ConnectToSession) && !(
        command is SwitchToSession),
{
}

/// A menu of sessions has an item for every session, in their order, that bears
/// its name and can be chosen; and where there is none, a single item that cannot.
pub proof fn law_every_session_can_be_chosen(sessions: Vec<Vec<u8>>, i: int)
    requires
        0 <= i < sessions@.len(),
    ensures
        ({
            let items = session_items(SessionListing::Listed(sessions));
            &&& items.len() == sessions@.len()
            &&& items[i].title == text_in(sessions@[i]@)
            &&& items[i].enabled
        }),
{
}

/// Where no session is listed, a menu of sessions has a single item, which cannot
/// be chosen and says whether there is none or whether they could not be listed.
pub proof fn law_nothing_can_be_chosen_without_sessions(listing: SessionListing)
    requires
        listing matches SessionListing::Listed(sessions) ==> sessions@.len() == 0,
    ensures
        ({
            let items = session_items(listing);
            &&& items.len() == 1
            &&& !items[0].enabled
            &&& items[0].title == "No Sessions Available"@ || listing !is Listed
            &&& items[0].title == "Unable to List Sessions"@ || listing is Listed
        }),
{
}

/// The title and the key of the item for a choice.
pub open spec fn item_for(choice: MenuChoice) -> (Seq<char>, Seq<char>) {
    match choice {
        MenuChoice::Separator => (""@, ""@),
        MenuChoice::HideApplication => ("Hide Kakvide"@, "h"@),
        MenuChoice::HideOthers => ("Hide Others"@, ""@),
        MenuChoice::ShowAll => ("Show All"@, ""@),
        MenuChoice::Quit => ("Quit Kakvide"@, "q"@),
        MenuChoice::NewWindow => ("New Window"@, "n"@),
        MenuChoice::CloseWindow => ("Close Window"@, "w"@),
        MenuChoice::IncreaseFontSize => ("Increase Font Size"@, "="@),
        MenuChoice::DecreaseFontSize => ("Decrease Font Size"@, "-"@),
        MenuChoice::ResetFontSize => ("Reset Font Size"@, "0"@),
        MenuChoice::ConnectSessions => ("Connect to Session"@, ""@),
        MenuChoice::SwitchSessions => ("Switch to Session"@, ""@),
        MenuChoice::Minimize => ("Minimize"@, "m"@),
        MenuChoice::Zoom => ("Zoom"@, ""@),
        MenuChoice::BringAllToFront => ("Bring All to Front"@, ""@),
    }
}

/// Every item of the menu bar bears the title and the key of its choice.
pub proof fn law_items_bear_their_titles(section: int, item: int)
    requires
        0 <= section < menu_bar().len(),
        0 <= item < menu_bar()[section].entries.len(),
    ensures
        ({
            let entry = menu_bar()[section].entries[item];
            item_for(entry.choice) == (entry.title, entry.key)
        }),
{
    assert(section == 0 || section == 1 || section == 2 || section == 3 || section == 4);
    assert(item == 0 || item == 1 || item == 2 || item == 3 || item == 4);
}

/// Every choice but the separator stands in the menu bar once.
pub proof fn law_every_choice_stands_in_the_menu_bar(choice: MenuChoice) -> (place: (int, int))
    requires
        !(choice is Separator),
    ensures
        0 <= place.0 < menu_bar().len(),
        0 <= place.1 < menu_bar()[place.0].entries.len(),
        menu_bar()[place.0].entries[place.1].choice == choice,
        forall|s: int, i: int|
            0 <= s < menu_bar().len() && 0 <= i < menu_bar()[s].entries.len()
                && #[trigger] menu_bar()[s].entries[i].choice == choice ==> s == place.0 && i
                == place.1,
{
    let place = match choice {
        MenuChoice::HideApplication => (0int, 0int),
        MenuChoice::HideOthers => (0, 1),
        MenuChoice::ShowAll => (0, 2),
        MenuChoice::Quit => (0, 4),
        MenuChoice::NewWindow => (1, 0),
        MenuChoice::CloseWindow => (1, 1),
        MenuChoice::IncreaseFontSize => (2, 0),
        MenuChoice::DecreaseFontSize => (2, 1),
        MenuChoice::ResetFontSize => (2, 2),
        MenuChoice::ConnectSessions => (3, 0),
        MenuChoice::SwitchSessions => (3, 1),
        MenuChoice::Minimize => (4, 0),
        MenuChoice::Zoom => (4, 1),
        _ => (4, 3),
    };
    assert forall|s: int, i: int|
        0 <= s < menu_bar().len() && 0 <= i < menu_bar()[s].entries.len()
            && #[trigger] menu_bar()[s].entries[i].choice == choice implies s == place.0 && i
        == place.1 by {
        assert(s == 0 || s == 1 || s == 2 || s == 3 || s == 4);
        assert(i == 0 || i == 1 || i == 2 || i == 3 || i == 4);
    }
    place
}

} // verus!

use kakvide::launch::AppCommand;
use kakvide::menu_bar::{
    command_for_choice, main_menu, session_command, session_menu_items, MenuChoice,
    SessionListing, CONNECT_SESSIONS_MENU, SWITCH_SESSIONS_MENU,
};

#[test]
fn menu_bar_has_its_menus_in_order() {
    let menus = main_menu();
    let titles: Vec<&str> = menus.iter().map(|menu| menu.title).collect();
    assert_eq!(titles, vec!["Kakvide", "File", "View", "Sessions", "Window"]);
    assert_eq!(menus[1].entries[0].title, "New Window");
    assert_eq!(menus[1].entries[0].key, "n");
    assert_eq!(menus[0].entries[3].choice, MenuChoice::Separator);
    assert_eq!(menus[3].entries[1].title, "Switch to Session");
    assert_eq!(menus[4].entries.len(), 4);
}

#[test]
fn choices_of_the_program_are_commands() {
    assert_eq!(command_for_choice(MenuChoice::CloseWindow), Some(AppCommand::WindowClose));
    assert_eq!(command_for_choice(MenuChoice::ResetFontSize), Some(AppCommand::FontScaleReset));
    assert_eq!(command_for_choice(MenuChoice::Quit), None);
}

#[test]
fn sessions_are_listed_or_explained() {
    let items = session_menu_items(&SessionListing::Listed(vec![b"main".to_vec(), b"\xff".to_vec()]));
    assert_eq!(items.len(), 2);
    assert_eq!(items[0].title, "main");
    assert_eq!(items[1].title, "\u{fffd}");
    assert!(items[0].enabled && items[1].enabled);
    let none = session_menu_items(&SessionListing::Listed(Vec::new()));
    assert_eq!(none.len(), 1);
    assert_eq!(none[0].title, "No Sessions Available");
    assert!(!none[0].enabled);
    for listing in [SessionListing::Failed, SessionListing::NoEditor] {
        let items = session_menu_items(&listing);
        assert_eq!(items[0].title, "Unable to List Sessions");
        assert!(!items[0].enabled);
    }
}

#[test]
fn sessions_are_opened_by_the_menu_that_they_stand_in() {
    assert_eq!(
        session_command(CONNECT_SESSIONS_MENU, b"a".to_vec()),
        Some(AppCommand::ConnectToSession(b"a".to_vec()))
    );
    assert_eq!(
        session_command(SWITCH_SESSIONS_MENU, b"a".to_vec()),
        Some(AppCommand::SwitchToSession(b"a".to_vec()))
    );
    assert_eq!(session_command("File", b"a".to_vec()), None);
}

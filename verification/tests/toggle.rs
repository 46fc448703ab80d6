use webgen_menu::toggle::{mode_for, Mode, Toggle, ToggleAction, DEBOUNCE_NANOS};

fn args(list: &[&str]) -> Vec<String> {
    list.iter().map(|s| s.to_string()).collect()
}

#[test]
fn without_confirm_the_menu_is_asked_for() {
    assert_eq!(mode_for(&args(&["webgen-menu"])), Mode::Menu);
    assert_eq!(mode_for(&args(&["webgen-menu", "reboot", "--confirmed"])), Mode::Menu);
    assert_eq!(mode_for(&[]), Mode::Menu);
}

#[test]
fn the_word_after_confirm_is_the_action() {
    assert_eq!(
        mode_for(&args(&["webgen-menu", "--confirm", "reboot"])),
        Mode::Confirm("reboot".to_string())
    );
    assert_eq!(
        mode_for(&args(&["webgen-menu", "-x", "--confirm", "logout", "--confirm", "reboot"])),
        Mode::Confirm("logout".to_string())
    );
    assert_eq!(
        mode_for(&args(&["webgen-menu", "--confirm", "--confirm"])),
        Mode::Confirm("--confirm".to_string())
    );
}

#[test]
fn confirm_without_an_action() {
    assert_eq!(mode_for(&args(&["webgen-menu", "--confirm"])), Mode::Confirm(String::new()));
}

#[test]
fn calls_toggle_the_menu() {
    let mut t = Toggle::new();
    assert_eq!(t.activate(0), ToggleAction::OpenMenu);
    t.opened();
    assert_eq!(t.activate(5), ToggleAction::CloseMenu);
    t.closed(6);
    assert!(!t.open);
    assert_eq!(t.activate(6 + DEBOUNCE_NANOS), ToggleAction::OpenMenu);
    t.opened();
    assert!(t.open);
}

#[test]
fn the_click_that_closes_the_menu_does_not_open_it() {
    let mut t = Toggle::new();
    t.opened();
    t.closed(1_000);
    assert_eq!(t.activate(1_000), ToggleAction::Ignore);
    assert_eq!(t.activate(1_000 + 299_999_999), ToggleAction::Ignore);
    assert_eq!(t, Toggle { open: false, last_close: Some(1_000) });
    assert_eq!(t.activate(1_000 + 300_000_000), ToggleAction::OpenMenu);
}

#[test]
fn a_time_that_lies_ahead_counts_as_now() {
    let mut t = Toggle::new();
    t.closed(500);
    assert_eq!(t.activate(400), ToggleAction::Ignore);
}

use webgen_menu::desktop::{
    app_from, is_desktop_extension, load_apps, system_app_dirs, user_app_dir, AppEntry, DesktopFile,
};
use webgen_menu::listing::arrange;

fn file(name: &str, command: &str) -> DesktopFile {
    DesktopFile {
        kind: Some("Application".to_string()),
        no_display: None,
        hidden: None,
        name: Some(name.to_string()),
        command: Some(command.to_string()),
        terminal: None,
        icon: None,
        categories: None,
    }
}

fn entry(name: &str, command: &str) -> AppEntry {
    AppEntry {
        name: name.to_string(),
        command: command.to_string(),
        terminal: false,
        icon: String::new(),
        bucket: "Utilities",
    }
}

fn names(apps: &[AppEntry]) -> Vec<&str> {
    apps.iter().map(|a| a.name.as_str()).collect()
}

#[test]
fn a_complete_file_describes_an_application() {
    let mut f = file("htop", "htop %u");
    f.terminal = Some(true);
    f.icon = Some("utilities-system-monitor".to_string());
    f.categories = Some("System;Monitor;".to_string());
    f.no_display = Some(false);
    f.hidden = Some(false);
    let app = app_from(f).unwrap();
    assert_eq!(app.name, "htop");
    assert_eq!(app.command, "htop %u");
    assert!(app.terminal);
    assert_eq!(app.icon, "utilities-system-monitor");
    assert_eq!(app.bucket, "System");
}

#[test]
fn missing_keys_count_as_empty_or_off() {
    let app = app_from(file("A", "a")).unwrap();
    assert!(!app.terminal);
    assert_eq!(app.icon, "");
    assert_eq!(app.bucket, "Utilities");
}

#[test]
fn files_that_are_not_to_be_shown() {
    let mut f = file("A", "a");
    f.kind = Some("Link".to_string());
    assert!(app_from(f).is_none());
    let mut f = file("A", "a");
    f.kind = None;
    assert!(app_from(f).is_none());
    let mut f = file("A", "a");
    f.no_display = Some(true);
    assert!(app_from(f).is_none());
    let mut f = file("A", "a");
    f.hidden = Some(true);
    assert!(app_from(f).is_none());
    assert!(app_from(file("", "a")).is_none());
    assert!(app_from(file("A", "")).is_none());
    let mut f = file("A", "a");
    f.name = None;
    assert!(app_from(f).is_none());
    let mut f = file("A", "a");
    f.command = None;
    assert!(app_from(f).is_none());
}

#[test]
fn applications_are_sorted_by_name_in_lower_case() {
    let apps = load_apps(vec![
        file("Zeta", "z"),
        file("alpha", "a"),
        file("Beta", "b"),
        file("\u{c9}cole", "e"),
        file("\u{e9}clat", "f"),
    ]);
    assert_eq!(names(&apps), vec!["alpha", "Beta", "Zeta", "\u{e9}clat", "\u{c9}cole"]);
}

#[test]
fn of_equal_names_the_first_that_was_read_stays() {
    let apps = load_apps(vec![
        file("Files", "system"),
        file("Editor", "edit"),
        file("FILES", "local"),
        file("files", "home"),
    ]);
    assert_eq!(names(&apps), vec!["Editor", "Files"]);
    assert_eq!(apps[1].command, "system");
}

#[test]
fn hidden_files_are_left_out_of_the_list() {
    let mut f = file("Secret", "s");
    f.hidden = Some(true);
    let apps = load_apps(vec![f, file("Open", "o")]);
    assert_eq!(names(&apps), vec!["Open"]);
    assert_eq!(load_apps(vec![]), vec![]);
}

#[test]
fn read_order_does_not_matter_for_different_names() {
    let a = load_apps(vec![file("b", "1"), file("C", "2"), file("a", "3")]);
    let b = load_apps(vec![file("a", "3"), file("b", "1"), file("C", "2")]);
    assert_eq!(a, b);
}

#[test]
fn equal_names_apart_are_both_kept() {
    // The three have the same name in lower case, and the one in the middle differs from its
    // neighbours in more than the case of an ASCII letter.
    let apps = load_apps(vec![
        file("\u{c9}a", "1"),
        file("\u{e9}a", "2"),
        file("\u{c9}A", "3"),
    ]);
    assert_eq!(names(&apps), vec!["\u{c9}a", "\u{e9}a", "\u{c9}A"]);
}

#[test]
fn arrange_goes_by_the_keys_that_it_is_given() {
    let apps = vec![entry("x", "1"), entry("y", "2"), entry("z", "3"), entry("Z", "4")];
    let keys = vec!["k2".to_string(), "k1".to_string(), "k3".to_string(), "k3".to_string()];
    let out = arrange(apps, keys);
    assert_eq!(names(&out), vec!["y", "x", "z"]);
    assert_eq!(out[2].command, "3");
}

#[test]
fn arrange_keeps_the_order_of_equal_keys() {
    let apps = vec![entry("c", "1"), entry("a", "2"), entry("b", "3")];
    let keys = vec!["k".to_string(), "k".to_string(), "k".to_string()];
    assert_eq!(names(&arrange(apps, keys)), vec!["c", "a", "b"]);
}

#[test]
fn places_of_desktop_files() {
    assert_eq!(system_app_dirs(), vec!["/usr/share/applications", "/usr/local/share/applications"]);
    assert_eq!(user_app_dir(), ".local/share/applications");
    assert!(is_desktop_extension(Some("desktop")));
    assert!(!is_desktop_extension(Some("Desktop")));
    assert!(!is_desktop_extension(Some("desktop~")));
    assert!(!is_desktop_extension(None));
}

#[test]
fn a_name_is_listed_once_beside_other_names() {
    let apps = load_apps(vec![
        file("\u{e9}a", "1"),
        file("Files", "2"),
        file("\u{c9}A", "3"),
        file("FILES", "4"),
        file("\u{e9}A", "5"),
    ]);
    assert_eq!(names(&apps), vec!["Files", "\u{e9}a", "\u{c9}A", "\u{e9}A"]);
    assert_eq!(apps[0].command, "2");
}

#[test]
fn an_ascii_name_apart_is_kept_twice() {
    // The sign in the middle is a k in lower case.
    let apps = load_apps(vec![file("k", "1"), file("\u{212a}", "2"), file("K", "3")]);
    assert_eq!(names(&apps), vec!["k", "\u{212a}", "K"]);
    let apps = load_apps(vec![file("k", "1"), file("K", "3"), file("\u{212a}", "2")]);
    assert_eq!(names(&apps), vec!["k", "\u{212a}"]);
}

#[test]
fn neighbours_have_different_names() {
    let apps = load_apps(vec![
        file("b", "1"),
        file("A", "2"),
        file("B", "3"),
        file("a", "4"),
        file("c", "5"),
    ]);
    for pair in apps.windows(2) {
        assert!(!pair[0].name.eq_ignore_ascii_case(&pair[1].name));
    }
    assert_eq!(names(&apps), vec!["A", "b", "c"]);
}

#[test]
fn order_of_directories_decides_and_order_within_them_does_not() {
    let system = vec![file("Files", "system"), file("Editor", "edit"), file("Web", "web")];
    let own = vec![file("files", "own"), file("Chess", "chess")];
    let mut a = system.clone();
    a.extend(own.clone());
    let mut b: Vec<DesktopFile> = system.into_iter().rev().collect();
    b.extend(own.into_iter().rev());
    let a = load_apps(a);
    assert_eq!(a, load_apps(b));
    assert_eq!(names(&a), vec!["Chess", "Editor", "Files", "Web"]);
    assert_eq!(a[2].command, "system");
}

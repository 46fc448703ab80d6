use webgen_menu::category::bucket_for;
use webgen_menu::confirm::prompt_for;
use webgen_menu::desktop::AppEntry;
use webgen_menu::menu::{
    add_category, build_menu, close_flyouts, open_flyout, resolve_icon, FlyoutStep, Leaf, MenuAction, MenuEvent,
    MenuWindow, Row,
};
use webgen_menu::toggle::{mode_for, Mode};

fn app(name: &str, bucket: &'static str) -> AppEntry {
    AppEntry {
        name: name.to_string(),
        command: format!("{} %u", name),
        terminal: false,
        icon: format!("{}-icon", name),
        bucket,
    }
}

fn titles(rows: &[Row]) -> Vec<&str> {
    let mut out = Vec::new();
    for row in rows {
        if let Row::Category { title, .. } = row {
            out.push(*title);
        }
    }
    out
}

fn leaves<'a>(rows: &'a [Row], wanted: &str) -> &'a [Leaf] {
    for row in rows {
        if let Row::Category { title, leaves, .. } = row {
            if *title == wanted {
                return leaves;
            }
        }
    }
    panic!("no such category");
}

#[test]
fn categories_stand_in_their_order_and_empty_ones_do_not_stand() {
    let rows = build_menu(&[app("chess", "Games"), app("files", "Utilities"), app("web", "Internet")]);
    assert_eq!(titles(&rows), vec!["Internet", "Utilities", "Games", "Power"]);
    if let Row::Category { icon, .. } = &rows[0] {
        assert_eq!(*icon, "web-browser-symbolic");
    } else {
        panic!("not a category");
    }
}

#[test]
fn entries_keep_the_order_of_the_applications() {
    let rows = build_menu(&[app("a", "System"), app("x", "Games"), app("b", "System")]);
    let system = leaves(&rows, "System");
    assert_eq!(system.len(), 2);
    assert_eq!(system[0].label, "a");
    assert_eq!(system[0].icon, "a-icon");
    assert_eq!(system[0].argv, vec!["a"]);
    assert_eq!(system[1].label, "b");
}

#[test]
fn every_application_has_one_entry() {
    let apps = [app("a", "System"), app("b", "Games"), app("c", "Documents"), app("d", "Graphics")];
    let rows = build_menu(&apps);
    let mut n = 0;
    for row in &rows {
        if let Row::Category { title, leaves, .. } = row {
            if *title != "Power" {
                n += leaves.len();
            }
        }
    }
    assert_eq!(n, apps.len());
}

#[test]
fn rows_below_the_applications() {
    let rows = build_menu(&[]);
    assert_eq!(rows.len(), 6);
    assert_eq!(rows[0], Row::Separator);
    if let Row::Leaf(l) = &rows[1] {
        assert_eq!(l.icon, "system-file-manager");
        assert_eq!(l.label, "Files");
        assert_eq!(l.argv, vec!["webgen-files"]);
    } else {
        panic!("not an entry");
    }
    assert_eq!(rows[2], Row::Separator);
    if let Row::Leaf(l) = &rows[3] {
        assert_eq!(l.icon, "system-search");
        assert_eq!(l.label, "Run\u{2026}");
        assert_eq!(l.argv, vec!["fuzzel"]);
    } else {
        panic!("not an entry");
    }
    assert_eq!(rows[4], Row::Separator);
    let power = leaves(&rows, "Power");
    let labels: Vec<&str> = power.iter().map(|l| l.label.as_str()).collect();
    assert_eq!(labels, vec!["Log out", "Switch to Server (headless)", "Reboot", "Power off"]);
    assert_eq!(
        power[1].argv,
        vec!["foot", "--title", "WebGen: Switch to Server mode", "--", "headless"]
    );
}

#[test]
fn power_entries_ask_for_confirmation() {
    let rows = build_menu(&[]);
    for (i, action) in [(0usize, "logout"), (2, "reboot"), (3, "poweroff")] {
        let argv = &leaves(&rows, "Power")[i].argv;
        assert_eq!(mode_for(argv), Mode::Confirm(action.to_string()));
        assert!(prompt_for(action).is_some());
    }
}

#[test]
fn there_always_is_an_icon() {
    assert_eq!(resolve_icon("firefox", true), "firefox");
    assert_eq!(resolve_icon("firefox", false), "application-x-executable-symbolic");
    assert_eq!(resolve_icon("", true), "application-x-executable-symbolic");
    assert_eq!(resolve_icon("", false), "application-x-executable-symbolic");
}

#[test]
fn opening_a_flyout_closes_the_others() {
    let steps = open_flyout(4, 1);
    assert_eq!(
        steps,
        vec![
            FlyoutStep::Popdown(0),
            FlyoutStep::Popdown(2),
            FlyoutStep::Popdown(3),
            FlyoutStep::Popup(1)
        ]
    );
    assert_eq!(open_flyout(1, 0), vec![FlyoutStep::Popup(0)]);
    let mut shown = [true, false, true, true];
    for step in steps {
        match step {
            FlyoutStep::Popdown(k) => shown[k] = false,
            FlyoutStep::Popup(k) => shown[k] = true,
        }
    }
    assert_eq!(shown, [false, true, false, false]);
}

#[test]
fn all_flyouts_can_be_closed() {
    assert_eq!(close_flyouts(2), vec![FlyoutStep::Popdown(0), FlyoutStep::Popdown(1)]);
    assert!(close_flyouts(0).is_empty());
}

#[test]
fn losing_the_focus_closes_a_menu_that_had_it() {
    let mut w = MenuWindow::new();
    assert_eq!(w.step(MenuEvent::NoFocus), MenuAction::Nothing);
    assert_eq!(w.step(MenuEvent::OtherKey), MenuAction::Nothing);
    assert_eq!(w.step(MenuEvent::Focus), MenuAction::Nothing);
    assert_eq!(w.step(MenuEvent::NoFocus), MenuAction::CloseAll);
}

#[test]
fn escape_and_a_clicked_entry_close_the_menu() {
    let mut w = MenuWindow::new();
    assert_eq!(w.step(MenuEvent::Escape), MenuAction::Close);
    assert_eq!(w.step(MenuEvent::LeafClick), MenuAction::StartAndClose);
}

#[test]
fn the_file_manager_stands_in_two_places() {
    let bucket = bucket_for("System;FileManager;");
    let rows = build_menu(&[app("webgen-files", bucket)]);
    assert_eq!(leaves(&rows, "Utilities")[0].argv, vec!["webgen-files"]);
    if let Row::Leaf(l) = &rows[2] {
        assert_eq!(l.argv, vec!["webgen-files"]);
    } else {
        panic!("not an entry");
    }
}

#[test]
fn the_flyout_of_the_row_hovered_last_is_open() {
    let mut shown = [false; 4];
    for row in [2usize, 0, 0, 3, 1, 1] {
        for step in open_flyout(shown.len(), row) {
            match step {
                FlyoutStep::Popdown(k) => shown[k] = false,
                FlyoutStep::Popup(k) => shown[k] = true,
            }
        }
        for k in 0..shown.len() {
            assert_eq!(shown[k], k == row);
        }
    }
}

#[test]
fn a_category_without_entries_is_not_added() {
    let mut rows = Vec::new();
    add_category(&mut rows, "Games", "g", vec![]);
    assert!(rows.is_empty());
    let leaf = Leaf { icon: "i".to_string(), label: "l".to_string(), argv: vec![] };
    add_category(&mut rows, "Games", "g", vec![leaf.clone()]);
    assert_eq!(rows, vec![Row::Category { title: "Games", icon: "g", leaves: vec![leaf] }]);
}

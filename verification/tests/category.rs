use webgen_menu::category::{bucket_for, bucket_list};

#[test]
fn each_rule_has_its_category() {
    for (categories, bucket) in [
        ("Game", "Games"),
        ("WebBrowser", "Internet"),
        ("Network", "Internet"),
        ("AudioVideo", "Sound & Video"),
        ("Audio", "Sound & Video"),
        ("Video", "Sound & Video"),
        ("Player", "Sound & Video"),
        ("Graphics", "Graphics"),
        ("2DGraphics", "Graphics"),
        ("RasterGraphics", "Graphics"),
        ("Office", "Documents"),
        ("Viewer", "Documents"),
        ("Settings", "System"),
        ("TerminalEmulator", "System"),
        ("Monitor", "System"),
        ("FileManager", "Utilities"),
        ("TextEditor", "Utilities"),
        ("Development", "Utilities"),
        ("Utility", "Utilities"),
        ("System", "System"),
        ("Education", "Utilities"),
        ("", "Utilities"),
    ] {
        assert_eq!(bucket_for(categories), bucket, "{}", categories);
    }
}

#[test]
fn rules_have_a_fixed_priority() {
    assert_eq!(bucket_for("Network;Game;"), "Games");
    assert_eq!(bucket_for("Graphics;Video;"), "Sound & Video");
    assert_eq!(bucket_for("Office;Graphics;Viewer;"), "Graphics");
    assert_eq!(bucket_for("System;FileManager;"), "Utilities");
    assert_eq!(bucket_for("System;TerminalEmulator;"), "System");
    assert_eq!(bucket_for("Utility;Settings;"), "System");
}

#[test]
fn order_case_and_closing_semicolon_do_not_matter() {
    assert_eq!(bucket_for("Game;Network"), bucket_for("Network;Game"));
    assert_eq!(bucket_for("gAmE"), "Games");
    assert_eq!(bucket_for("Network;"), bucket_for("Network"));
    assert_eq!(bucket_for(";;Network;;"), "Internet");
}

#[test]
fn white_space_around_a_category_does_not_matter() {
    assert_eq!(bucket_for("Qt; Game\u{a0}; KDE"), "Games");
    assert_eq!(bucket_for("Ga me"), "Utilities");
}

#[test]
fn part_of_a_category_is_not_enough() {
    assert_eq!(bucket_for("ArcadeGame"), "Utilities");
    assert_eq!(bucket_for("Gam"), "Utilities");
    assert_eq!(bucket_for("Game,Network"), "Utilities");
}

#[test]
fn every_category_is_in_the_list() {
    let titles: Vec<&str> = bucket_list().iter().map(|b| b.0).collect();
    assert_eq!(
        titles,
        vec!["Internet", "Sound & Video", "Graphics", "Documents", "Utilities", "System", "Games"]
    );
    for categories in ["Game", "Network", "Audio", "Graphics", "Office", "System", "Other"] {
        assert!(titles.contains(&bucket_for(categories)));
    }
    assert_eq!(bucket_list()[0].1, "web-browser-symbolic");
    assert_eq!(bucket_list()[6].1, "applications-games-symbolic");
}

#[test]
fn blank_pieces_do_not_matter() {
    for list in ["Office;Qt", ";Office;Qt", "Office;;Qt", "Office; \t;Qt; ;", " ;Office;Qt"] {
        assert_eq!(bucket_for(list), "Documents");
    }
}

#[test]
fn one_of_two_joined_lists_decides() {
    for (x, y) in [("Office", "Game"), ("System", "Utility"), ("", "Video"), ("Other", "Monitor")] {
        let joined = bucket_for(&format!("{};{}", x, y));
        assert!(joined == bucket_for(x) || joined == bucket_for(y));
    }
    assert_eq!(bucket_for("Office;Game"), "Games");
}

use webgen_menu::desktop::AppEntry;
use webgen_menu::launch::{command, exec_argv, launch_argv};

fn app(line: &str, terminal: bool) -> AppEntry {
    AppEntry {
        name: "App".to_string(),
        command: line.to_string(),
        terminal,
        icon: String::new(),
        bucket: "Utilities",
    }
}

#[test]
fn field_codes_are_dropped() {
    assert_eq!(exec_argv("gimp %U"), vec!["gimp"]);
    for code in ["%f", "%F", "%u", "%U", "%i", "%c", "%k", "%%"] {
        assert_eq!(exec_argv(&format!("run {} -x", code)), vec!["run", "-x"]);
    }
}

#[test]
fn other_words_with_a_percent_sign_stay() {
    assert_eq!(
        exec_argv("run % %fu 50% --at=%f %\u{e9}"),
        vec!["run", "%", "%fu", "50%", "--at=%f", "%\u{e9}"]
    );
}

#[test]
fn white_space_divides_words() {
    assert_eq!(exec_argv("  a\tb\u{a0}c\n d  "), vec!["a", "b", "c", "d"]);
    assert_eq!(exec_argv("\"a b\""), vec!["\"a", "b\""]);
    assert!(exec_argv("").is_empty());
    assert!(exec_argv("   ").is_empty());
    assert!(exec_argv("%u").is_empty());
}

#[test]
fn words_are_those_of_std() {
    for line in ["a b", " a  b ", "x\u{2003}y \u{1f600}", "", "\u{3000}"] {
        let expected: Vec<String> = line.split_whitespace().map(str::to_string).collect();
        assert_eq!(exec_argv(line), expected);
    }
}

#[test]
fn joined_lines_have_the_arguments_of_both() {
    let mut both = exec_argv("a %f b");
    both.extend(exec_argv("c d"));
    assert_eq!(exec_argv("a %f b c d"), both);
}

#[test]
fn plain_arguments_come_back() {
    assert_eq!(exec_argv("sh -c true"), vec!["sh", "-c", "true"]);
}

#[test]
fn terminal_applications_are_wrapped() {
    assert_eq!(launch_argv(&app("htop %u", true)), vec!["foot", "-e", "htop"]);
    assert_eq!(launch_argv(&app("htop %u", false)), vec!["htop"]);
    assert_eq!(launch_argv(&app("%u", true)), vec!["foot", "-e"]);
}

#[test]
fn a_command_is_a_program_and_its_arguments() {
    let c = command(vec!["foot".to_string(), "-e".to_string(), "vim".to_string()]).unwrap();
    assert_eq!(c.program, "foot");
    assert_eq!(c.args, vec!["-e", "vim"]);
    let c = command(vec!["fuzzel".to_string()]).unwrap();
    assert_eq!(c.program, "fuzzel");
    assert!(c.args.is_empty());
    assert!(command(vec![]).is_none());
}

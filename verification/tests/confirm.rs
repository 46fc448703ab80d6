use webgen_menu::confirm::{
    countdown_text, prompt_for, ConfirmAction, ConfirmEvent, Countdown, START_SECS,
};

#[test]
fn prompts_of_the_known_actions() {
    let p = prompt_for("logout").unwrap();
    assert_eq!((p.heading, p.confirm_label, p.verb), ("Log out?", "Log out now", "Logging out"));
    assert_eq!(p.argv, vec!["pkill", "-TERM", "labwc"]);
    let p = prompt_for("reboot").unwrap();
    assert_eq!((p.heading, p.confirm_label, p.verb), ("Restart?", "Restart now", "Restarting"));
    assert_eq!(p.argv, vec!["sh", "-c", "sudo /etc/rc.shutdown reboot"]);
    let p = prompt_for("poweroff").unwrap();
    assert_eq!((p.heading, p.confirm_label, p.verb), ("Power off?", "Power off now", "Powering off"));
    assert_eq!(p.argv, vec!["sh", "-c", "sudo /etc/rc.shutdown poweroff"]);
}

#[test]
fn other_actions_are_not_known() {
    assert!(prompt_for("").is_none());
    assert!(prompt_for("Reboot").is_none());
    assert!(prompt_for("halt").is_none());
}

#[test]
fn line_with_the_count() {
    assert_eq!(countdown_text("Restarting", 10), "Restarting automatically in 10 seconds.");
    assert_eq!(countdown_text("Logging out", 1), "Logging out automatically in 1 seconds.");
}

#[test]
fn an_untouched_dialog_runs_the_action_after_the_last_second() {
    let mut c = Countdown::new();
    assert_eq!(c.secs, 10);
    assert_eq!(START_SECS, 10);
    for left in (1..10u32).rev() {
        assert_eq!(c.step(ConfirmEvent::Tick), ConfirmAction::Show(left));
    }
    assert_eq!(c.step(ConfirmEvent::Tick), ConfirmAction::RunAndQuit);
    assert_eq!(c.step(ConfirmEvent::Tick), ConfirmAction::Nothing);
    assert_eq!(c.step(ConfirmEvent::Accept), ConfirmAction::Nothing);
    assert!(c.done);
}

#[test]
fn confirming_runs_the_action_once() {
    let mut c = Countdown::new();
    assert_eq!(c.step(ConfirmEvent::Tick), ConfirmAction::Show(9));
    assert_eq!(c.step(ConfirmEvent::Accept), ConfirmAction::RunAndQuit);
    assert_eq!(c.step(ConfirmEvent::Accept), ConfirmAction::Nothing);
    assert_eq!(c.step(ConfirmEvent::Cancel), ConfirmAction::Nothing);
}

#[test]
fn a_cancelled_action_never_runs() {
    let mut c = Countdown::new();
    assert_eq!(c.step(ConfirmEvent::Cancel), ConfirmAction::Quit);
    for _ in 0..20 {
        assert_eq!(c.step(ConfirmEvent::Tick), ConfirmAction::Nothing);
    }
    assert_eq!(c.step(ConfirmEvent::Accept), ConfirmAction::Nothing);
}

#[test]
fn escape_cancels_and_other_keys_do_nothing() {
    let mut c = Countdown::new();
    assert_eq!(c.step(ConfirmEvent::OtherKey), ConfirmAction::Nothing);
    assert_eq!(c, Countdown::new());
    assert_eq!(c.step(ConfirmEvent::Tick), ConfirmAction::Show(9));
    assert_eq!(c.step(ConfirmEvent::Escape), ConfirmAction::Quit);
    assert_eq!(c.step(ConfirmEvent::Escape), ConfirmAction::Nothing);
    assert_eq!(c.step(ConfirmEvent::Tick), ConfirmAction::Nothing);
}

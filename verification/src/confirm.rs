//! The dialog that asks before it ends the session or stops the machine.
//!
//! The dialog counts down. The action runs when the count reaches zero or when the user confirms,
//! and is abandoned when the user cancels.

use crate::text;
use vstd::prelude::*;
use vstd::string::*;

verus! {

/// The seconds that the dialog starts with.
pub const START_SECS: u32 = 10;

/// What the dialog shows and runs for an action.
#[derive(Clone, Debug, PartialEq, Eq)]
pub struct Prompt {
    /// The question at the top.
    pub heading: &'static str,
    /// The label of the button that confirms.
    pub confirm_label: &'static str,
    /// What the line with the count says is going to happen.
    pub verb: &'static str,
    /// The program and the arguments to run.
    pub argv: Vec<String>,
}

/// The model of a [`Prompt`].
pub struct PromptText {
    pub heading: Seq<char>,
    pub confirm_label: Seq<char>,
    pub verb: Seq<char>,
    pub argv: Seq<Seq<char>>,
}

impl View for Prompt {
    type V = PromptText;

    open spec fn view(&self) -> PromptText {
        PromptText {
            heading: self.heading@,
            confirm_label: self.confirm_label@,
            verb: self.verb@,
            argv: text::views(self.argv@),
        }
    }
}

/// What the dialog shows and runs for an action; `None` for an action that it does not know.
pub open spec fn prompt_of(action: Seq<char>) -> Option<PromptText> {
    if action == "logout"@ {
        Some(
            PromptText {
                heading: "Log out?"@,
                confirm_label: "Log out now"@,
                verb: "Logging out"@,
                argv: seq!["pkill"@, "-TERM"@, "labwc"@],
            },
        )
    } else if action == "reboot"@ {
        Some(
            PromptText {
                heading: "Restart?"@,
                confirm_label: "Restart now"@,
                verb: "Restarting"@,
                argv: seq!["sh"@, "-c"@, "sudo /etc/rc.shutdown reboot"@],
            },
        )
    } else if action == "poweroff"@ {
        Some(
            PromptText {
                heading: "Power off?"@,
                confirm_label: "Power off now"@,
                verb: "Powering off"@,
                argv: seq!["sh"@, "-c"@, "sudo /etc/rc.shutdown poweroff"@],
            },
        )
    } else {
        None
    }
}

/// What the dialog shows and runs for an action; `None` for an action that it does not know.
pub fn prompt_for(action: &str) -> (r: Option<Prompt>)
    ensures
        r is Some == prompt_of(action@) is Some,
        r matches Some(p) ==> Some(p@) == prompt_of(action@),
{
    if text::same_str(action, "logout") {
        let argv: Vec<String> = vec!["pkill".to_owned(), "-TERM".to_owned(), "labwc".to_owned()];
        assert(text::views(argv@) =~= seq!["pkill"@, "-TERM"@, "labwc"@]);
        Some(
            Prompt {
                heading: "Log out?",
                confirm_label: "Log out now",
                verb: "Logging out",
                argv,
            },
        )
    } else if text::same_str(action, "reboot") {
        let argv: Vec<String> = vec![
            "sh".to_owned(),
            "-c".to_owned(),
            "sudo /etc/rc.shutdown reboot".to_owned(),
        ];
        assert(text::views(argv@) =~= seq!["sh"@, "-c"@, "sudo /etc/rc.shutdown reboot"@]);
        Some(
            Prompt {
                heading: "Restart?",
                confirm_label: "Restart now",
                verb: "Restarting",
                argv,
            },
        )
    } else if text::same_str(action, "poweroff") {
        let argv: Vec<String> = vec![
            "sh".to_owned(),
            "-c".to_owned(),
            "sudo /etc/rc.shutdown poweroff".to_owned(),
        ];
        assert(text::views(argv@) =~= seq!["sh"@, "-c"@, "sudo /etc/rc.shutdown poweroff"@]);
        Some(
            Prompt {
                heading: "Power off?",
                confirm_label: "Power off now",
                verb: "Powering off",
                argv,
            },
        )
    } else {
        None
    }
}

/// The line with the count.
pub fn countdown_text(verb: &str, secs: u32) -> (r: String)
    ensures
        r@ == verb@ + " automatically in "@ + text::decimal(secs as nat) + " seconds."@,
{
    let number: String = text::decimal_text(secs);
    let mut line: String = verb.to_owned();
    line.append(" automatically in ");
    line.append(number.as_str());
    line.append(" seconds.");
    line
}

/// What happens to the dialog.
#[derive(Clone, Copy, Debug, PartialEq, Eq, Structural)]
pub enum ConfirmEvent {
    /// A second has passed.
    Tick,
    /// The button that confirms was clicked.
    Accept,
    /// The button that cancels was clicked.
    Cancel,
    /// Escape was pressed.
    Escape,
    /// Another key was pressed.
    OtherKey,
}

/// What is to be done about it.
#[derive(Clone, Copy, Debug, PartialEq, Eq, Structural)]
pub enum ConfirmAction {
    /// Nothing. At the end of a second, the seconds need not be counted any more.
    Nothing,
    /// Show the seconds that are left, and count on.
    Show(u32),
    /// Run the action and close the dialog.
    RunAndQuit,
    /// Close the dialog.
    Quit,
}

/// The state of the dialog.
#[derive(Clone, Copy, Debug, PartialEq, Eq, Structural)]
pub struct Countdown {
    /// Whether it was decided if the action runs.
    pub done: bool,
    /// The seconds that are left.
    pub secs: u32,
}

impl Countdown {
    /// What holds of the dialog in every state: until all is decided there are seconds left.
    pub open spec fn well_formed(self) -> bool {
        self.done || 1 <= self.secs <= START_SECS
    }

    /// What the state becomes at an event, and what is to be done.
    pub open spec fn next(self, event: ConfirmEvent) -> (Countdown, ConfirmAction) {
        if self.done {
            (self, ConfirmAction::Nothing)
        } else {
            match event {
                ConfirmEvent::Tick => if self.secs <= 1 {
                    (Countdown { done: true, secs: 0 }, ConfirmAction::RunAndQuit)
                } else {
                    let left = (self.secs - 1) as u32;
                    (Countdown { done: false, secs: left }, ConfirmAction::Show(left))
                },
                ConfirmEvent::Accept => (
                    Countdown { done: true, ..self },
                    ConfirmAction::RunAndQuit,
                ),
                ConfirmEvent::Cancel | ConfirmEvent::Escape => (
                    Countdown { done: true, ..self },
                    ConfirmAction::Quit,
                ),
                ConfirmEvent::OtherKey => (self, ConfirmAction::Nothing),
            }
        }
    }

    /// The dialog as it opens.
    pub fn new() -> (r: Countdown)
        ensures
            r == (Countdown { done: false, secs: START_SECS }),
            r.well_formed(),
    {
        Countdown { done: false, secs: START_SECS }
    }

    /// Takes note of an event, and says what is to be done.
    pub fn step(&mut self, event: ConfirmEvent) -> (r: ConfirmAction)
        ensures
            (*final(self), r) == old(self).next(event),
            old(self).well_formed() ==> final(self).well_formed(),
    {
        if self.done {
            return ConfirmAction::Nothing;
        }
        match event {
            ConfirmEvent::Tick => {
                if self.secs <= 1 {
                    self.secs = 0;
                    self.done = true;
                    ConfirmAction::RunAndQuit
                } else {
                    self.secs = self.secs - 1;
                    ConfirmAction::Show(self.secs)
                }
            },
            ConfirmEvent::Accept => {
                self.done = true;
                ConfirmAction::RunAndQuit
            },
            ConfirmEvent::Cancel | ConfirmEvent::Escape => {
                self.done = true;
                ConfirmAction::Quit
            },
            ConfirmEvent::OtherKey => ConfirmAction::Nothing,
        }
    }
}

/// The state of a dialog after some events.
pub open spec fn after(events: Seq<ConfirmEvent>) -> Countdown
    decreases events.len(),
{
    if events.len() == 0 {
        Countdown { done: false, secs: START_SECS }
    } else {
        after(events.drop_last()).next(events.last()).0
    }
}

/// What is to be done at event `i` of a dialog.
pub open spec fn reply(events: Seq<ConfirmEvent>, i: int) -> ConfirmAction {
    after(events.take(i)).next(events[i]).1
}

/// How many seconds passed in the course of some events.
pub open spec fn ticks(events: Seq<ConfirmEvent>) -> nat
    decreases events.len(),
{
    if events.len() == 0 {
        0
    } else {
        ticks(events.drop_last()) + if events.last() is Tick {
            1nat
        } else {
            0
        }
    }
}

/// Whether the user cancels by an event.
pub open spec fn cancels(event: ConfirmEvent) -> bool {
    event is Cancel || event is Escape
}

/// Whether event `k` would decide if nothing did before: the user confirms or cancels, or the last
/// second passes.
pub open spec fn decides(events: Seq<ConfirmEvent>, k: int) -> bool {
    &&& 0 <= k < events.len()
    &&& match events[k] {
        ConfirmEvent::Tick => ticks(events.take(k + 1)) == START_SECS,
        ConfirmEvent::OtherKey => false,
        _ => true,
    }
}

/// Whether event `k` is the first that decides.
pub open spec fn decides_first(events: Seq<ConfirmEvent>, k: int) -> bool {
    &&& decides(events, k)
    &&& forall|j: int| 0 <= j < k ==> !#[trigger] decides(events, j)
}

/// The state of a dialog is told by what has happened: it is done once an event has decided, and
/// before that the seconds left are those that have not passed.
pub proof fn law_state_of_dialog(events: Seq<ConfirmEvent>)
    ensures
        after(events).well_formed(),
        after(events).done == exists|k: int| #[trigger] decides(events, k),
        !after(events).done ==> after(events).secs == START_SECS - ticks(events),
    decreases events.len(),
{
    if events.len() > 0 {
        let before = events.drop_last();
        let last = events.len() - 1;
        law_state_of_dialog(before);
        assert(events.take(last + 1) =~= events);
        assert forall|k: int| 0 <= k < last implies #[trigger] decides(events, k) == decides(
            before,
            k,
        ) by {
            assert(events.take(k + 1) =~= before.take(k + 1));
        }
        if after(before).done {
            let k = choose|k: int| #[trigger] decides(before, k);
            assert(decides(events, k));
        } else {
            assert(after(events).done == decides(events, last));
            if exists|k: int| #[trigger] decides(events, k) {
                let k = choose|k: int| #[trigger] decides(events, k);
                if k < last {
                    assert(decides(before, k));
                }
            }
        }
    }
}

/// What the dialog does: up to the event that decides it shows the seconds left at the end of each,
/// and ignores keys; at that event it closes, and runs the action unless the user cancelled; and
/// after it, nothing.
pub proof fn law_replies_of_dialog(events: Seq<ConfirmEvent>, i: int)
    requires
        0 <= i < events.len(),
    ensures
        (exists|k: int| k < i && #[trigger] decides(events, k)) ==> reply(events, i)
            == ConfirmAction::Nothing,
        decides_first(events, i) ==> reply(events, i) == if cancels(events[i]) {
            ConfirmAction::Quit
        } else {
            ConfirmAction::RunAndQuit
        },
        (forall|k: int| k <= i ==> !#[trigger] decides(events, k)) ==> reply(events, i)
            == if events[i] is Tick {
            ConfirmAction::Show((START_SECS - ticks(events.take(i + 1))) as u32)
        } else {
            ConfirmAction::Nothing
        },
{
    let before = events.take(i);
    law_state_of_dialog(before);
    assert forall|k: int| k < i implies #[trigger] decides(events, k) == decides(before, k) by {
        if 0 <= k {
            assert(events.take(k + 1) =~= before.take(k + 1));
        }
    }
    if exists|k: int| k < i && #[trigger] decides(events, k) {
        let k = choose|k: int| k < i && #[trigger] decides(events, k);
        assert(decides(before, k));
    }
    if after(before).done {
        let k = choose|k: int| #[trigger] decides(before, k);
        assert(decides(events, k));
    }
    assert(events.take(i + 1).drop_last() =~= before);
    assert(events.take(i + 1).last() == events[i]);
    if !decides(events, i) {
        assert(events[i] is Tick || events[i] is OtherKey);
    }
}

/// The dialog is closed at most once, and with it the action runs at most once: after the reply
/// that closes it, nothing more is to be done.
pub proof fn law_closed_at_most_once(events: Seq<ConfirmEvent>, i: int, j: int)
    requires
        0 <= i < j < events.len(),
        reply(events, i) == ConfirmAction::RunAndQuit || reply(events, i) == ConfirmAction::Quit,
    ensures
        reply(events, j) == ConfirmAction::Nothing,
{
    law_replies_of_dialog(events, i);
    law_replies_of_dialog(events, j);
    if forall|k: int| k <= i ==> !#[trigger] decides(events, k) {
        assert(false);
    }
    let k = choose|k: int| k <= i && #[trigger] decides(events, k);
    assert(k < j);
}

/// The action runs just where the first event that decides is not one by which the user cancels.
pub proof fn law_when_the_action_runs(events: Seq<ConfirmEvent>, i: int)
    requires
        0 <= i < events.len(),
    ensures
        reply(events, i) == ConfirmAction::RunAndQuit <==> decides_first(events, i)
            && !cancels(events[i]),
{
    law_replies_of_dialog(events, i);
    if !decides_first(events, i) {
        if decides(events, i) {
            let k = choose|k: int| 0 <= k < i && #[trigger] decides(events, k);
            assert(k < i && decides(events, k));
        } else if exists|k: int| k < i && #[trigger] decides(events, k) {
        } else {
            assert(forall|k: int| k <= i ==> !#[trigger] decides(events, k));
        }
    }
}

/// An action that the user cancels in time never runs.
pub proof fn law_cancelled_action_never_runs(events: Seq<ConfirmEvent>, c: int, i: int)
    requires
        decides_first(events, c),
        cancels(events[c]),
        0 <= i < events.len(),
    ensures
        reply(events, i) != ConfirmAction::RunAndQuit,
{
    law_when_the_action_runs(events, i);
    if decides_first(events, i) {
        if i < c {
            assert(!decides(events, i));
        } else if c < i {
            assert(!decides(events, c));
        }
    }
}

/// An action that the user leaves alone runs when the last second has passed, and not before.
pub proof fn law_untouched_dialog_runs_the_action(events: Seq<ConfirmEvent>, i: int)
    requires
        forall|k: int| 0 <= k < events.len() ==> #[trigger] events[k] is Tick,
        0 <= i < events.len(),
    ensures
        reply(events, i) == ConfirmAction::RunAndQuit <==> i == START_SECS - 1,
{
    law_when_the_action_runs(events, i);
    assert forall|k: int| 0 <= k < events.len() implies (#[trigger] decides(events, k) <==> k
        == START_SECS - 1) by {
        lemma_all_ticks(events.take(k + 1));
        assert(events[k] is Tick);
    }
}

proof fn lemma_all_ticks(events: Seq<ConfirmEvent>)
    requires
        forall|k: int| 0 <= k < events.len() ==> #[trigger] events[k] is Tick,
    ensures
        ticks(events) == events.len(),
    decreases events.len(),
{
    if events.len() > 0 {
        lemma_all_ticks(events.drop_last());
        assert(events[events.len() - 1] is Tick);
    }
}

/// The dialog knows three actions and no others.
pub proof fn law_known_actions(action: Seq<char>)
    ensures
        prompt_of(action) is Some <==> action == "logout"@ || action == "reboot"@ || action
            == "poweroff"@,
{
}

/// To reboot and to power off, the shutdown script is called with the name of the action; to log
/// out, the compositor is told to end.
pub proof fn law_what_runs(action: Seq<char>)
    requires
        prompt_of(action) is Some,
    ensures
        action == "logout"@ ==> prompt_of(action)->0.argv == seq!["pkill"@, "-TERM"@, "labwc"@],
        action != "logout"@ ==> prompt_of(action)->0.argv == seq![
            "sh"@,
            "-c"@,
            "sudo /etc/rc.shutdown "@ + action,
        ],
{
    reveal_strlit("logout");
    reveal_strlit("reboot");
    reveal_strlit("poweroff");
    reveal_strlit("sudo /etc/rc.shutdown ");
    reveal_strlit("sudo /etc/rc.shutdown reboot");
    reveal_strlit("sudo /etc/rc.shutdown poweroff");
    assert("sudo /etc/rc.shutdown "@ + "reboot"@ =~= "sudo /etc/rc.shutdown reboot"@);
    assert("sudo /etc/rc.shutdown "@ + "poweroff"@ =~= "sudo /etc/rc.shutdown poweroff"@);
}

/// The heading asks about the action, and the button that confirms says the same with "now" in
/// place of the question mark.
pub proof fn law_what_is_asked(action: Seq<char>)
    requires
        prompt_of(action) is Some,
    ensures
        prompt_of(action)->0.heading.last() == '?',
        prompt_of(action)->0.confirm_label == prompt_of(action)->0.heading.drop_last() + " now"@,
        action == "logout"@ ==> prompt_of(action)->0.heading == "Log out?"@,
        action == "reboot"@ ==> prompt_of(action)->0.heading == "Restart?"@,
        action == "poweroff"@ ==> prompt_of(action)->0.heading == "Power off?"@,
        action == "logout"@ ==> prompt_of(action)->0.verb == "Logging out"@,
        action == "reboot"@ ==> prompt_of(action)->0.verb == "Restarting"@,
        action == "poweroff"@ ==> prompt_of(action)->0.verb == "Powering off"@,
{
    reveal_strlit("logout");
    reveal_strlit("reboot");
    reveal_strlit("poweroff");
    reveal_strlit(" now");
    reveal_strlit("Log out?");
    reveal_strlit("Restart?");
    reveal_strlit("Power off?");
    reveal_strlit("Log out now");
    reveal_strlit("Restart now");
    reveal_strlit("Power off now");
    assert("logout"@[0] == 'l' && "reboot"@[0] == 'r' && "poweroff"@[0] == 'p');
    assert("Log out?"@.drop_last() + " now"@ =~= "Log out now"@);
    assert("Restart?"@.drop_last() + " now"@ =~= "Restart now"@);
    assert("Power off?"@.drop_last() + " now"@ =~= "Power off now"@);
}

/// The model of a prompt says what the prompt holds.
pub proof fn law_model_of_prompt(prompt: Prompt, i: int)
    ensures
        prompt@.heading == prompt.heading@,
        prompt@.confirm_label == prompt.confirm_label@,
        prompt@.verb == prompt.verb@,
        prompt@.argv.len() == prompt.argv@.len(),
        0 <= i < prompt.argv@.len() ==> prompt@.argv[i] == prompt.argv@[i]@,
{
}

/// What each event does in any state. Where all is decided, nothing happens any more. Otherwise a
/// second counts down by one and the last one runs the action, the button that confirms runs it at
/// once, cancelling closes the dialog without it, and other keys change nothing.
pub proof fn law_what_each_event_does(state: Countdown, event: ConfirmEvent)
    ensures
        state.done ==> state.next(event).0 == state && state.next(event).1
            == ConfirmAction::Nothing,
        !state.done && event is Accept ==> state.next(event).1 == ConfirmAction::RunAndQuit,
        !state.done && (event is Cancel || event is Escape) ==> state.next(event).1
            == ConfirmAction::Quit,
        !state.done && event is OtherKey ==> state.next(event).1 == ConfirmAction::Nothing,
        !state.done && event is Tick && state.secs <= 1 ==> state.next(event).1
            == ConfirmAction::RunAndQuit && state.next(event).0.secs == 0,
        !state.done && event is Tick && state.secs > 1 ==> (state.next(
            event,
        ).1 matches ConfirmAction::Show(left) && left == state.secs - 1 && state.next(event).0.secs
            == left),
        !state.done && !(event is Tick) ==> state.next(event).0.secs == state.secs,
        !state.done ==> (state.next(event).0.done <==> state.next(event).1
            == ConfirmAction::RunAndQuit || state.next(event).1 == ConfirmAction::Quit),
{
}

/// A dialog that is left alone counts down from ten: after each of nine seconds it shows one less,
/// with the tenth it runs the action, and then there is nothing more to do.
pub proof fn law_ten_seconds(events: Seq<ConfirmEvent>, i: int)
    requires
        forall|k: int| 0 <= k < events.len() ==> #[trigger] events[k] is Tick,
        0 <= i < events.len(),
    ensures
        i < 9 ==> (reply(events, i) matches ConfirmAction::Show(left) && left == 9 - i),
        i == 9 ==> reply(events, i) == ConfirmAction::RunAndQuit,
        i > 9 ==> reply(events, i) == ConfirmAction::Nothing,
{
    assert forall|k: int| 0 <= k < events.len() implies (#[trigger] decides(events, k) <==> k
        == 9) by {
        lemma_all_ticks(events.take(k + 1));
        assert(events[k] is Tick);
    }
    law_replies_of_dialog(events, i);
    lemma_all_ticks(events.take(i + 1));
    assert(events[i] is Tick);
    if i > 9 {
        assert(decides(events, 9));
    } else if i < 9 {
        assert forall|k: int| k <= i implies !#[trigger] decides(events, k) by {}
    }
}

/// The user confirms or cancels at any time before ten seconds have passed: the dialog answers with
/// the action or without it, and to whatever follows with nothing.
pub proof fn law_answer_of_the_user(
    before: Seq<ConfirmEvent>,
    answer: ConfirmEvent,
    event: ConfirmEvent,
    rest: Seq<ConfirmEvent>,
)
    requires
        forall|k: int|
            0 <= k < before.len() ==> #[trigger] before[k] is Tick || before[k] is OtherKey,
        ticks(before) < 10,
        answer is Accept || answer is Cancel || answer is Escape,
    ensures
        !after(before).done,
        after(before).secs == 10 - ticks(before),
        after(before).next(answer).1 == if answer is Accept {
            ConfirmAction::RunAndQuit
        } else {
            ConfirmAction::Quit
        },
        after(before.push(answer) + rest).next(event).1 == ConfirmAction::Nothing,
    decreases rest.len(),
{
    law_state_of_dialog(before);
    if after(before).done {
        let k = choose|k: int| #[trigger] decides(before, k);
        assert(before[k] is Tick);
        lemma_ticks_grow(before, k + 1);
    }
    let all = before.push(answer) + rest;
    if rest.len() == 0 {
        assert(all =~= before.push(answer));
        assert(before.push(answer).drop_last() =~= before);
    } else {
        law_answer_of_the_user(before, answer, rest.last(), rest.drop_last());
        assert(all.drop_last() =~= before.push(answer) + rest.drop_last());
        lemma_answered(before, answer, rest.drop_last());
    }
}

proof fn lemma_ticks_grow(events: Seq<ConfirmEvent>, n: int)
    requires
        0 <= n <= events.len(),
    ensures
        ticks(events.take(n)) <= ticks(events),
    decreases events.len(),
{
    if n < events.len() {
        lemma_ticks_grow(events.drop_last(), n);
        assert(events.drop_last().take(n) =~= events.take(n));
    } else {
        assert(events.take(n) =~= events);
    }
}

/// Once the user has answered, the dialog stays done.
proof fn lemma_answered(
    before: Seq<ConfirmEvent>,
    answer: ConfirmEvent,
    rest: Seq<ConfirmEvent>,
)
    requires
        answer is Accept || answer is Cancel || answer is Escape,
    ensures
        after(before.push(answer) + rest).done,
    decreases rest.len(),
{
    let all = before.push(answer) + rest;
    if rest.len() == 0 {
        assert(all =~= before.push(answer));
        assert(before.push(answer).drop_last() =~= before);
    } else {
        lemma_answered(before, answer, rest.drop_last());
        assert(all.drop_last() =~= before.push(answer) + rest.drop_last());
    }
}

} // verus!

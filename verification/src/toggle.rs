//! How the program was called, and what a call does to a menu that may be open.

use crate::text;
use vstd::prelude::*;

verus! {

/// What a call of the program asks for.
#[derive(Clone, Debug, PartialEq, Eq)]
pub enum Mode {
    /// To open or close the menu.
    Menu,
    /// To ask for confirmation of an action.
    Confirm(String),
}

/// The model of a [`Mode`].
pub enum Asked {
    Menu,
    Confirm(Seq<char>),
}

impl View for Mode {
    type V = Asked;

    open spec fn view(&self) -> Asked {
        match self {
            Mode::Menu => Asked::Menu,
            Mode::Confirm(action) => Asked::Confirm(action@),
        }
    }
}

/// What a call with the given program name and arguments asks for: the word after the first
/// `--confirm` is the action to confirm, and is empty if there is none.
pub open spec fn mode_of(args: Seq<Seq<char>>) -> Asked
    decreases args.len(),
{
    if args.len() == 0 {
        Asked::Menu
    } else if args[0] == "--confirm"@ {
        Asked::Confirm(
            if args.len() > 1 {
                args[1]
            } else {
                Seq::empty()
            },
        )
    } else {
        mode_of(args.drop_first())
    }
}

/// What a call with the given program name and arguments asks for.
pub fn mode_for(args: &[String]) -> (r: Mode)
    ensures
        r@ == mode_of(text::views(args@)),
{
    let ghost all = text::views(args@);
    let mut i: usize = 0;
    assert(all.skip(0) =~= all);
    while i < args.len()
        invariant
            i <= args@.len(),
            all == text::views(args@),
            mode_of(all) == mode_of(all.skip(i as int)),
        decreases args@.len() - i,
    {
        assert(all.skip(i as int)[0] == args@[i as int]@);
        if text::same_str(args[i].as_str(), "--confirm") {
            if i + 1 < args.len() {
                assert(all.skip(i as int)[1] == args@[i + 1]@);
                return Mode::Confirm(args[i + 1].clone());
            }
            return Mode::Confirm(String::new());
        }
        assert(all.skip(i as int).drop_first() =~= all.skip(i + 1));
        i += 1;
    }
    Mode::Menu
}

/// For how many nanoseconds after it was closed the menu does not open: the click that takes the
/// focus from the menu, and so closes it, may also be the click that calls the program.
pub const DEBOUNCE_NANOS: u128 = 300_000_000;

/// What is to be done at a call.
#[derive(Clone, Copy, Debug, PartialEq, Eq, Structural)]
pub enum ToggleAction {
    /// Close the menu.
    CloseMenu,
    /// Open a menu.
    OpenMenu,
    /// Nothing.
    Ignore,
}

/// What the program remembers between calls. Times are in nanoseconds from a moment that does not
/// change while it runs.
#[derive(Clone, Copy, Debug, PartialEq, Eq, Structural)]
pub struct Toggle {
    /// Whether a menu is open.
    pub open: bool,
    /// When a menu was last closed.
    pub last_close: Option<u128>,
}

impl Toggle {
    /// Whether a menu was closed less than [`DEBOUNCE_NANOS`] ago. A time that lies ahead counts as
    /// now.
    pub open spec fn just_closed(self, now: u128) -> bool {
        self.last_close matches Some(t) && now < t + DEBOUNCE_NANOS
    }

    /// What a call does: it closes an open menu, and opens one otherwise unless one was just closed.
    pub open spec fn at_call(self, now: u128) -> (Toggle, ToggleAction) {
        if self.open {
            (Toggle { open: false, ..self }, ToggleAction::CloseMenu)
        } else if self.just_closed(now) {
            (self, ToggleAction::Ignore)
        } else {
            (self, ToggleAction::OpenMenu)
        }
    }

    /// What it does to the state that a menu was opened.
    pub open spec fn when_opened(self) -> Toggle {
        Toggle { open: true, ..self }
    }

    /// What it does to the state that a menu was closed.
    pub open spec fn when_closed(self, now: u128) -> Toggle {
        Toggle { open: false, last_close: Some(now) }
    }

    /// The state before the first call.
    pub fn new() -> (r: Toggle)
        ensures
            r == (Toggle { open: false, last_close: None }),
    {
        Toggle { open: false, last_close: None }
    }

    /// Takes note of a call, and says what is to be done.
    pub fn activate(&mut self, now: u128) -> (r: ToggleAction)
        ensures
            (*final(self), r) == old(self).at_call(now),
    {
        if self.open {
            self.open = false;
            return ToggleAction::CloseMenu;
        }
        if let Some(t) = self.last_close {
            let elapsed: u128 = if now >= t {
                now - t
            } else {
                0
            };
            if elapsed < DEBOUNCE_NANOS {
                return ToggleAction::Ignore;
            }
        }
        ToggleAction::OpenMenu
    }

    /// Takes note that a menu was opened.
    pub fn opened(&mut self)
        ensures
            *final(self) == old(self).when_opened(),
    {
        self.open = true;
    }

    /// Takes note that a menu was closed: by a call, by Escape, by a click elsewhere or by the start
    /// of an application.
    pub fn closed(&mut self, now: u128)
        ensures
            *final(self) == old(self).when_closed(now),
    {
        self.open = false;
        self.last_close = Some(now);
    }

    /// The state after a call at which what was to be done is done, at time `then`.
    pub open spec fn after_call(self, now: u128, then: u128) -> Toggle {
        let (next, action) = self.at_call(now);
        match action {
            ToggleAction::CloseMenu => next.when_closed(then),
            ToggleAction::OpenMenu => next.when_opened(),
            ToggleAction::Ignore => next,
        }
    }
}

/// A call toggles the menu, unless the menu is closed and was open just before.
pub proof fn law_call_toggles(state: Toggle, now: u128, then: u128)
    ensures
        state.open ==> !state.after_call(now, then).open,
        !state.open && !state.just_closed(now) ==> state.after_call(now, then).open,
        !state.open && state.just_closed(now) ==> state.after_call(now, then) == state,
{
}

/// Two calls on an open menu: the first closes it, and the second opens one just where the time
/// between them is not too short.
pub proof fn law_second_call(state: Toggle, now: u128, then: u128, later: u128, last: u128)
    requires
        state.open,
    ensures
        !state.after_call(now, then).open,
        state.after_call(now, then).after_call(later, last).open <==> later >= then
            + DEBOUNCE_NANOS,
{
}

/// The click that closes the menu does not open it again: a call that comes soon after the menu was
/// closed in any way changes nothing.
pub proof fn law_closing_click_does_not_reopen(
    state: Toggle,
    closed: u128,
    now: u128,
    then: u128,
)
    requires
        now < closed + DEBOUNCE_NANOS,
    ensures
        state.when_closed(closed).at_call(now).1 == ToggleAction::Ignore,
        state.when_closed(closed).after_call(now, then) == state.when_closed(closed),
{
}

/// The first call opens the menu.
pub proof fn law_first_call(state: Toggle, now: u128)
    requires
        !state.open,
        state.last_close is None,
    ensures
        state.at_call(now).1 == ToggleAction::OpenMenu,
{
}

/// A call without `--confirm` asks for the menu, whatever its words are.
pub proof fn law_call_without_confirm(args: Seq<Seq<char>>)
    requires
        !args.contains("--confirm"@),
    ensures
        mode_of(args) == Asked::Menu,
    decreases args.len(),
{
    if args.len() > 0 {
        let rest = args.drop_first();
        assert(args.contains(args[0]));
        assert forall|i: int| 0 <= i < rest.len() implies rest[i] != "--confirm"@ by {
            assert(rest[i] == args[i + 1]);
            assert(args.contains(args[i + 1]));
        }
        law_call_without_confirm(rest);
    }
}

/// The word after the first `--confirm` is the action, whatever stands in front of the two and
/// whatever follows. Where no word follows, the action is empty.
pub proof fn law_call_with_confirm(
    front: Seq<Seq<char>>,
    action: Seq<char>,
    back: Seq<Seq<char>>,
)
    requires
        !front.contains("--confirm"@),
    ensures
        mode_of(front + seq!["--confirm"@, action] + back) == Asked::Confirm(action),
        mode_of(front + seq!["--confirm"@]) == Asked::Confirm(Seq::empty()),
    decreases front.len(),
{
    let with = front + seq!["--confirm"@, action] + back;
    let without = front + seq!["--confirm"@];
    if front.len() > 0 {
        let rest = front.drop_first();
        assert(front.contains(front[0]));
        assert forall|i: int| 0 <= i < rest.len() implies rest[i] != "--confirm"@ by {
            assert(rest[i] == front[i + 1]);
            assert(front.contains(front[i + 1]));
        }
        law_call_with_confirm(rest, action, back);
        assert(with[0] == front[0] && without[0] == front[0]);
        assert(with.drop_first() =~= rest + seq!["--confirm"@, action] + back);
        assert(without.drop_first() =~= rest + seq!["--confirm"@]);
    } else {
        assert(with[0] == "--confirm"@ && with[1] == action);
        assert(without[0] == "--confirm"@ && without.len() == 1);
    }
}

/// The model of what is asked for says what that is.
pub proof fn law_model_of_mode(mode: Mode)
    ensures
        mode is Menu <==> mode@ == Asked::Menu,
        mode matches Mode::Confirm(action) ==> mode@ == Asked::Confirm(action@),
{
}

/// A call closes an open menu, at any time. With none open it opens one, unless one was closed less
/// than 0.3 seconds ago. What is remembered changes only in that an open menu is no longer open.
pub proof fn law_what_a_call_does(state: Toggle, now: u128)
    ensures
        state.open ==> state.at_call(now).1 == ToggleAction::CloseMenu,
        !state.open && state.last_close is None ==> state.at_call(now).1 == ToggleAction::OpenMenu,
        !state.open ==> (state.last_close matches Some(t) ==> state.at_call(now).1 == if now - t
            < 300_000_000 {
            ToggleAction::Ignore
        } else {
            ToggleAction::OpenMenu
        }),
        !state.at_call(now).0.open,
        state.at_call(now).0.last_close == state.last_close,
{
}

/// That a menu was opened leaves the time of the last closing as it was, and that one was closed
/// sets it, whether the menu was noted as open or not.
pub proof fn law_what_is_remembered(state: Toggle, now: u128)
    ensures
        state.when_opened().open,
        state.when_opened().last_close == state.last_close,
        !state.when_closed(now).open,
        state.when_closed(now).last_close == Some(now),
{
}

/// Whatever was before, a menu that was closed can be opened 0.3 seconds later and no sooner, and
/// one that was opened is closed by the next call.
pub proof fn law_calls_after_closing_and_opening(state: Toggle, closed: u128, now: u128)
    ensures
        state.when_closed(closed).at_call(now).1 == ToggleAction::OpenMenu <==> now >= closed
            + 300_000_000,
        state.when_closed(closed).at_call(now).1 == ToggleAction::Ignore <==> now < closed
            + 300_000_000,
        state.when_opened().at_call(now).1 == ToggleAction::CloseMenu,
        state.when_closed(closed).when_opened().at_call(now).1 == ToggleAction::CloseMenu,
{
}

} // verus!

//! What stands in the menu, and how it behaves.

use crate::category;
use crate::confirm;
use crate::desktop;
use crate::desktop::{App, AppEntry};
use crate::launch;
use crate::text;
use crate::toggle;
use vstd::prelude::*;

verus! {

/// An entry of the menu that starts something.
#[derive(Clone, Debug, PartialEq, Eq)]
pub struct Leaf {
    /// The name of its icon.
    pub icon: String,
    /// The text that it shows.
    pub label: String,
    /// The program and the arguments to start.
    pub argv: Vec<String>,
}

/// The model of a [`Leaf`].
pub struct Entry {
    pub icon: Seq<char>,
    pub label: Seq<char>,
    pub argv: Seq<Seq<char>>,
}

impl View for Leaf {
    type V = Entry;

    open spec fn view(&self) -> Entry {
        Entry { icon: self.icon@, label: self.label@, argv: text::views(self.argv@) }
    }
}

/// The models of the entries of a list.
pub open spec fn leaf_views(leaves: Seq<Leaf>) -> Seq<Entry> {
    Seq::new(leaves.len(), |i: int| leaves[i]@)
}

/// A row of the menu.
#[derive(Clone, Debug, PartialEq, Eq)]
pub enum Row {
    /// A line between rows.
    Separator,
    /// An entry.
    Leaf(Leaf),
    /// A category, whose entries are in a flyout.
    Category { title: &'static str, icon: &'static str, leaves: Vec<Leaf> },
}

/// The model of a [`Row`].
pub enum Line {
    Separator,
    Leaf(Entry),
    Category { title: Seq<char>, icon: Seq<char>, leaves: Seq<Entry> },
}

impl View for Row {
    type V = Line;

    open spec fn view(&self) -> Line {
        match self {
            Row::Separator => Line::Separator,
            Row::Leaf(leaf) => Line::Leaf(leaf@),
            Row::Category { title, icon, leaves } => Line::Category {
                title: title@,
                icon: icon@,
                leaves: leaf_views(leaves@),
            },
        }
    }
}

/// The models of the rows of a menu.
pub open spec fn row_views(rows: Seq<Row>) -> Seq<Line> {
    Seq::new(rows.len(), |i: int| rows[i]@)
}

/// The entry for an application.
pub open spec fn app_leaf(app: App) -> Entry {
    Entry { icon: app.icon, label: app.name, argv: launch::launch_argv_of(app) }
}

/// Tells the applications of a category from the others.
pub open spec fn goes_to(title: Seq<char>) -> spec_fn(App) -> bool {
    |app: App| app.bucket == title
}

/// The entries of a category: those for its applications, in the order of the applications.
pub open spec fn leaves_of(apps: Seq<App>, title: Seq<char>) -> Seq<Entry> {
    apps.filter(goes_to(title)).map_values(|app: App| app_leaf(app))
}

/// The row for a category. One without entries has none.
pub open spec fn category_row(
    title: Seq<char>,
    icon: Seq<char>,
    leaves: Seq<Entry>,
) -> Option<Line> {
    if leaves.len() == 0 {
        None
    } else {
        Some(Line::Category { title, icon, leaves })
    }
}

/// The row for one of the categories that applications go to, which is given by its title and its
/// icon.
pub open spec fn bucket_row(apps: Seq<App>) -> spec_fn((Seq<char>, Seq<char>)) -> Option<Line> {
    |bucket: (Seq<char>, Seq<char>)|
        category_row(bucket.0, bucket.1, leaves_of(apps, bucket.0))
}

/// The rows for the applications.
pub open spec fn app_rows(apps: Seq<App>) -> Seq<Line> {
    category::buckets().filter_map(bucket_row(apps))
}

/// The entries of the submenu that ends the session or stops the machine.
pub open spec fn power_leaves() -> Seq<Entry> {
    seq![
        Entry {
            icon: "system-log-out"@,
            label: "Log out"@,
            argv: seq!["webgen-menu"@, "--confirm"@, "logout"@],
        },
        Entry {
            icon: "network-server"@,
            label: "Switch to Server (headless)"@,
            argv: seq![
                "foot"@,
                "--title"@,
                "WebGen: Switch to Server mode"@,
                "--"@,
                "headless"@,
            ],
        },
        Entry {
            icon: "system-reboot"@,
            label: "Reboot"@,
            argv: seq!["webgen-menu"@, "--confirm"@, "reboot"@],
        },
        Entry {
            icon: "system-shutdown"@,
            label: "Power off"@,
            argv: seq!["webgen-menu"@, "--confirm"@, "poweroff"@],
        },
    ]
}

/// The rows below those for the applications.
pub open spec fn fixed_rows() -> Seq<Line> {
    seq![
        Line::Separator,
        Line::Leaf(
            Entry {
                icon: "system-file-manager"@,
                label: "Files"@,
                argv: seq!["webgen-files"@],
            },
        ),
        Line::Separator,
        Line::Leaf(
            Entry { icon: "system-search"@, label: "Run\u{2026}"@, argv: seq!["fuzzel"@] },
        ),
        Line::Separator,
        Line::Category { title: "Power"@, icon: "system-shutdown"@, leaves: power_leaves() },
    ]
}

/// The rows of the menu.
pub open spec fn menu_of(apps: Seq<App>) -> Seq<Line> {
    app_rows(apps) + fixed_rows()
}

/// The icon that stands in for one that is not to be had.
pub open spec fn fallback_icon() -> Seq<char> {
    "application-x-executable-symbolic"@
}

/// The icon to show for one that is asked for by name; `in_theme` says whether the icon theme has
/// it. There always is an icon.
pub fn resolve_icon(name: &str, in_theme: bool) -> (r: String)
    ensures
        r@ == if name@.len() > 0 && in_theme {
            name@
        } else {
            fallback_icon()
        },
        name@.len() == 0 || !in_theme ==> r@ == "application-x-executable-symbolic"@,
        r@.len() > 0,
{
    if !name.is_empty() && in_theme {
        return name.to_owned();
    }
    proof {
        reveal_strlit("application-x-executable-symbolic");
    }
    "application-x-executable-symbolic".to_owned()
}

fn leaf_for(app: &AppEntry) -> (r: Leaf)
    ensures
        r@ == app_leaf(app@),
{
    Leaf { icon: app.icon.clone(), label: app.name.clone(), argv: launch::launch_argv(app) }
}

/// The entries of a category.
fn leaves_for(apps: &[AppEntry], title: &str) -> (r: Vec<Leaf>)
    ensures
        leaf_views(r@) == leaves_of(desktop::app_views(apps@), title@),
{
    let ghost all = desktop::app_views(apps@);
    let mut out: Vec<Leaf> = Vec::new();
    let mut i: usize = 0;
    proof {
        reveal(Seq::filter);
        assert(leaf_views(out@) =~= leaves_of(all.take(0), title@));
    }
    while i < apps.len()
        invariant
            i <= apps@.len(),
            all == desktop::app_views(apps@),
            leaf_views(out@) == leaves_of(all.take(i as int), title@),
        decreases apps@.len() - i,
    {
        let ghost sofar = out@;
        proof {
            reveal(Seq::filter);
            assert(all.take(i + 1).drop_last() =~= all.take(i as int));
            assert(all.take(i + 1).last() == apps@[i as int]@);
        }
        if text::same_str(apps[i].bucket, title) {
            out.push(leaf_for(&apps[i]));
            assert(leaf_views(out@) =~= leaf_views(sofar).push(app_leaf(all[i as int])));
            assert(leaves_of(all.take(i + 1), title@) =~= leaves_of(
                all.take(i as int),
                title@,
            ).push(app_leaf(all[i as int])));
        }
        i += 1;
    }
    assert(all.take(all.len() as int) =~= all);
    out
}

/// Adds the row for a category, unless it has no entries.
pub fn add_category(rows: &mut Vec<Row>, title: &'static str, icon: &'static str, leaves: Vec<Leaf>)
    ensures
        row_views(final(rows)@) == row_views(old(rows)@) + match category_row(
            title@,
            icon@,
            leaf_views(leaves@),
        ) {
            Some(line) => seq![line],
            None => seq![],
        },
{
    if leaves.len() == 0 {
        assert(row_views(rows@) =~= row_views(rows@) + seq![]);
        return;
    }
    rows.push(Row::Category { title, icon, leaves });
    assert(row_views(rows@) =~= row_views(old(rows)@) + seq![rows@.last()@]);
}

fn leaf(icon: &str, label: &str, argv: Vec<String>) -> (r: Leaf)
    ensures
        r@ == (Entry { icon: icon@, label: label@, argv: text::views(argv@) }),
{
    Leaf { icon: icon.to_owned(), label: label.to_owned(), argv }
}

/// The rows of the menu.
pub fn build_menu(apps: &[AppEntry]) -> (r: Vec<Row>)
    ensures
        row_views(r@) == menu_of(desktop::app_views(apps@)),
{
    let ghost all = desktop::app_views(apps@);
    let buckets: Vec<(&'static str, &'static str)> = category::bucket_list();
    let mut rows: Vec<Row> = Vec::new();
    let mut i: usize = 0;
    assert(row_views(rows@) =~= category::buckets().take(0).filter_map(bucket_row(all)));
    while i < buckets.len()
        invariant
            i <= buckets@.len() == category::buckets().len(),
            forall|k: int|
                0 <= k < buckets@.len() ==> (#[trigger] buckets@[k].0@, buckets@[k].1@)
                    == category::buckets()[k],
            all == desktop::app_views(apps@),
            row_views(rows@) == category::buckets().take(i as int).filter_map(bucket_row(all)),
        decreases buckets@.len() - i,
    {
        let (title, icon) = buckets[i];
        proof {
            assert(buckets@[i as int].0@ == title@);
            category::buckets().lemma_filter_map_take_succ(bucket_row(all), i as int);
        }
        let leaves: Vec<Leaf> = leaves_for(apps, title);
        add_category(&mut rows, title, icon, leaves);
        i += 1;
    }
    assert(category::buckets().take(buckets@.len() as int) =~= category::buckets());
    let ghost above = rows@;

    // The file manager is one click away here, and stands under its category too.
    let files: Vec<String> = vec!["webgen-files".to_owned()];
    assert(text::views(files@) =~= seq!["webgen-files"@]);
    rows.push(Row::Separator);
    rows.push(Row::Leaf(leaf("system-file-manager", "Files", files)));

    let run: Vec<String> = vec!["fuzzel".to_owned()];
    assert(text::views(run@) =~= seq!["fuzzel"@]);
    rows.push(Row::Separator);
    rows.push(Row::Leaf(leaf("system-search", "Run\u{2026}", run)));

    rows.push(Row::Separator);
    add_category(&mut rows, "Power", "system-shutdown", power());
    assert(row_views(rows@) =~= row_views(above) + fixed_rows());
    rows
}

/// The entries of the submenu that ends the session or stops the machine.
fn power() -> (r: Vec<Leaf>)
    ensures
        leaf_views(r@) == power_leaves(),
{
    let logout: Vec<String> = vec![
        "webgen-menu".to_owned(),
        "--confirm".to_owned(),
        "logout".to_owned(),
    ];
    assert(text::views(logout@) =~= seq!["webgen-menu"@, "--confirm"@, "logout"@]);
    let server: Vec<String> = vec![
        "foot".to_owned(),
        "--title".to_owned(),
        "WebGen: Switch to Server mode".to_owned(),
        "--".to_owned(),
        "headless".to_owned(),
    ];
    assert(text::views(server@) =~= power_leaves()[1].argv);
    let reboot: Vec<String> = vec![
        "webgen-menu".to_owned(),
        "--confirm".to_owned(),
        "reboot".to_owned(),
    ];
    assert(text::views(reboot@) =~= seq!["webgen-menu"@, "--confirm"@, "reboot"@]);
    let poweroff: Vec<String> = vec![
        "webgen-menu".to_owned(),
        "--confirm".to_owned(),
        "poweroff".to_owned(),
    ];
    assert(text::views(poweroff@) =~= seq!["webgen-menu"@, "--confirm"@, "poweroff"@]);
    let leaves: Vec<Leaf> = vec![
        leaf("system-log-out", "Log out", logout),
        leaf("network-server", "Switch to Server (headless)", server),
        leaf("system-reboot", "Reboot", reboot),
        leaf("system-shutdown", "Power off", poweroff),
    ];
    assert(leaf_views(leaves@) =~= power_leaves());
    leaves
}

/// One of the two things that can be done to a flyout, which is given by its number.
#[derive(Clone, Copy, Debug, PartialEq, Eq, Structural)]
pub enum FlyoutStep {
    /// Close it.
    Popdown(usize),
    /// Open it.
    Popup(usize),
}

/// What is done to open flyout `opened` of `count`: the others are closed, and then it is opened.
pub open spec fn opening_steps(count: nat, opened: nat) -> Seq<FlyoutStep> {
    Seq::new(
        count,
        |k: int|
            if k < opened {
                FlyoutStep::Popdown(k as usize)
            } else if k < count - 1 {
                FlyoutStep::Popdown((k + 1) as usize)
            } else {
                FlyoutStep::Popup(opened as usize)
            },
    )
}

/// What is done to close all of `count` flyouts.
pub open spec fn closing_steps(count: nat) -> Seq<FlyoutStep> {
    Seq::new(count, |k: int| FlyoutStep::Popdown(k as usize))
}

/// What is to be done to open flyout `opened` of `count`.
pub fn open_flyout(count: usize, opened: usize) -> (r: Vec<FlyoutStep>)
    requires
        opened < count,
    ensures
        r@ == opening_steps(count as nat, opened as nat),
{
    let mut steps: Vec<FlyoutStep> = Vec::new();
    let mut k: usize = 0;
    while k < count
        invariant
            k <= count,
            opened < count,
            steps@ == opening_steps(count as nat, opened as nat).take(
                if k <= opened {
                    k as int
                } else {
                    k - 1
                },
            ),
        decreases count - k,
    {
        if k != opened {
            steps.push(FlyoutStep::Popdown(k));
            assert(steps@ =~= opening_steps(count as nat, opened as nat).take(
                if k < opened {
                    k + 1
                } else {
                    k as int
                },
            ));
        }
        k += 1;
    }
    steps.push(FlyoutStep::Popup(opened));
    assert(steps@ =~= opening_steps(count as nat, opened as nat));
    steps
}

/// What is to be done to close all of `count` flyouts.
pub fn close_flyouts(count: usize) -> (r: Vec<FlyoutStep>)
    ensures
        r@ == closing_steps(count as nat),
{
    let mut steps: Vec<FlyoutStep> = Vec::new();
    let mut k: usize = 0;
    while k < count
        invariant
            k <= count,
            steps@ == closing_steps(k as nat),
        decreases count - k,
    {
        steps.push(FlyoutStep::Popdown(k));
        assert(steps@ =~= closing_steps((k + 1) as nat));
        k += 1;
    }
    steps
}

/// What happens to the window of the menu.
#[derive(Clone, Copy, Debug, PartialEq, Eq, Structural)]
pub enum MenuEvent {
    /// Escape was pressed.
    Escape,
    /// Another key was pressed.
    OtherKey,
    /// The window got the focus.
    Focus,
    /// The window lost the focus, or is found not to have it.
    NoFocus,
    /// An entry was clicked.
    LeafClick,
}

/// What is to be done about it.
#[derive(Clone, Copy, Debug, PartialEq, Eq, Structural)]
pub enum MenuAction {
    /// Nothing: others may handle the event.
    Nothing,
    /// Close the window.
    Close,
    /// Close the flyouts and then the window.
    CloseAll,
    /// Start what the entry stands for and then close the window.
    StartAndClose,
}

/// What is remembered of the window of the menu.
#[derive(Clone, Copy, Debug, PartialEq, Eq, Structural)]
pub struct MenuWindow {
    /// Whether it has had the focus.
    pub had_focus: bool,
}

impl MenuWindow {
    /// What is remembered after an event, and what is to be done.
    pub open spec fn next(self, event: MenuEvent) -> (MenuWindow, MenuAction) {
        match event {
            MenuEvent::Escape => (self, MenuAction::Close),
            MenuEvent::OtherKey => (self, MenuAction::Nothing),
            MenuEvent::Focus => (MenuWindow { had_focus: true }, MenuAction::Nothing),
            MenuEvent::NoFocus => (
                self,
                if self.had_focus {
                    MenuAction::CloseAll
                } else {
                    MenuAction::Nothing
                },
            ),
            MenuEvent::LeafClick => (self, MenuAction::StartAndClose),
        }
    }

    /// The window as it opens.
    pub fn new() -> (r: MenuWindow)
        ensures
            r == (MenuWindow { had_focus: false }),
    {
        MenuWindow { had_focus: false }
    }

    /// Takes note of an event, and says what is to be done.
    pub fn step(&mut self, event: MenuEvent) -> (r: MenuAction)
        ensures
            (*final(self), r) == old(self).next(event),
    {
        match event {
            MenuEvent::Escape => MenuAction::Close,
            MenuEvent::OtherKey => MenuAction::Nothing,
            MenuEvent::Focus => {
                self.had_focus = true;
                MenuAction::Nothing
            },
            MenuEvent::NoFocus => {
                if self.had_focus {
                    MenuAction::CloseAll
                } else {
                    MenuAction::Nothing
                }
            },
            MenuEvent::LeafClick => MenuAction::StartAndClose,
        }
    }
}

/// Which flyouts are open after some steps, given which were open before.
pub open spec fn shown_after(shown: Seq<bool>, steps: Seq<FlyoutStep>) -> Seq<bool>
    decreases steps.len(),
{
    if steps.len() == 0 {
        shown
    } else {
        let before = shown_after(shown, steps.drop_last());
        match steps.last() {
            FlyoutStep::Popdown(k) => before.update(k as int, false),
            FlyoutStep::Popup(k) => before.update(k as int, true),
        }
    }
}

/// At most one flyout is open: to open one leaves it open and no other, whatever was open before.
pub proof fn law_one_flyout_open(shown: Seq<bool>, opened: nat)
    requires
        opened < shown.len() <= usize::MAX,
    ensures
        shown_after(shown, opening_steps(shown.len(), opened)) == Seq::new(
            shown.len(),
            |k: int| k == opened,
        ),
{
    let n = shown.len();
    let steps = opening_steps(n, opened);
    lemma_first_popdowns(shown, steps, opened, n - 1);
    assert(steps.drop_last() =~= steps.take(n - 1));
    let before = shown_after(shown, steps.take(n - 1));
    assert(before.update(opened as int, true) =~= Seq::new(n, |k: int| k == opened));
}

/// The first steps that open a flyout close others.
proof fn lemma_first_popdowns(shown: Seq<bool>, steps: Seq<FlyoutStep>, opened: nat, m: int)
    requires
        opened < shown.len() <= usize::MAX,
        steps == opening_steps(shown.len(), opened),
        0 <= m < shown.len(),
    ensures
        shown_after(shown, steps.take(m)).len() == shown.len(),
        forall|k: int|
            0 <= k < (if m <= opened {
                m
            } else {
                m + 1
            }) && k != opened ==> !#[trigger] shown_after(shown, steps.take(m))[k],
    decreases m,
{
    if m > 0 {
        lemma_first_popdowns(shown, steps, opened, m - 1);
        assert(steps.take(m).drop_last() =~= steps.take(m - 1));
        assert(steps.take(m).last() == steps[m - 1]);
    }
}

/// Which flyouts are open after the rows of some were hovered over or clicked on, one after the other,
/// given which were open before.
pub open spec fn shown_after_hovers(shown: Seq<bool>, rows: Seq<nat>) -> Seq<bool>
    decreases rows.len(),
{
    if rows.len() == 0 {
        shown
    } else {
        shown_after(
            shown_after_hovers(shown, rows.drop_last()),
            opening_steps(shown.len(), rows.last()),
        )
    }
}

/// Flyouts cascade: whatever rows are hovered over or clicked on, and however often, the flyout of
/// the last one is open and no other; so where none was open at first, there never is more than one.
pub proof fn law_last_hovered_flyout_is_open(shown: Seq<bool>, rows: Seq<nat>)
    requires
        shown.len() <= usize::MAX,
        forall|i: int| 0 <= i < rows.len() ==> #[trigger] rows[i] < shown.len(),
    ensures
        shown_after_hovers(shown, rows).len() == shown.len(),
        rows.len() > 0 ==> shown_after_hovers(shown, rows) == Seq::new(
            shown.len(),
            |k: int| k == rows.last(),
        ),
        (forall|k: int| 0 <= k < shown.len() ==> !#[trigger] shown[k]) ==> forall|k: int, l: int|
            0 <= k < l < shown.len() ==> !(#[trigger] shown_after_hovers(shown, rows)[k]
                && #[trigger] shown_after_hovers(shown, rows)[l]),
    decreases rows.len(),
{
    if rows.len() > 0 {
        let before = shown_after_hovers(shown, rows.drop_last());
        law_last_hovered_flyout_is_open(shown, rows.drop_last());
        assert(rows[rows.len() - 1] < shown.len());
        law_one_flyout_open(before, rows.last());
    }
}

/// After all flyouts were closed none is open.
pub proof fn law_no_flyout_open(shown: Seq<bool>)
    requires
        shown.len() <= usize::MAX,
    ensures
        shown_after(shown, closing_steps(shown.len())) == Seq::new(shown.len(), |k: int| false),
{
    let n = shown.len();
    lemma_closed_to(shown, n);
    assert(shown_after(shown, closing_steps(n)) =~= Seq::new(n, |k: int| false));
}

proof fn lemma_closed_to(shown: Seq<bool>, m: nat)
    requires
        m <= shown.len() <= usize::MAX,
    ensures
        shown_after(shown, closing_steps(m)).len() == shown.len(),
        forall|k: int| 0 <= k < m ==> !#[trigger] shown_after(shown, closing_steps(m))[k],
    decreases m,
{
    if m > 0 {
        let less = (m - 1) as nat;
        lemma_closed_to(shown, less);
        assert(closing_steps(m).drop_last() =~= closing_steps(less));
    }
}

/// What is remembered of a window after some events.
pub open spec fn window_after(events: Seq<MenuEvent>) -> MenuWindow
    decreases events.len(),
{
    if events.len() == 0 {
        MenuWindow { had_focus: false }
    } else {
        window_after(events.drop_last()).next(events.last()).0
    }
}

/// A menu that is without focus closes just where it has had the focus: a click elsewhere closes
/// it, and the wait for the focus after it was opened does not.
pub proof fn law_click_elsewhere_closes(events: Seq<MenuEvent>)
    ensures
        window_after(events).next(MenuEvent::NoFocus).1 == if events.contains(MenuEvent::Focus) {
            MenuAction::CloseAll
        } else {
            MenuAction::Nothing
        },
    decreases events.len(),
{
    if events.len() > 0 {
        let before = events.drop_last();
        law_click_elsewhere_closes(before);
        if events.last() == MenuEvent::Focus {
            assert(events[events.len() - 1] == MenuEvent::Focus);
        } else if events.contains(MenuEvent::Focus) {
            let i = choose|i: int| 0 <= i < events.len() && events[i] == MenuEvent::Focus;
            assert(before[i] == MenuEvent::Focus);
        } else if before.contains(MenuEvent::Focus) {
            let i = choose|i: int| 0 <= i < before.len() && before[i] == MenuEvent::Focus;
            assert(events[i] == MenuEvent::Focus);
        }
    }
}

/// Whether a row is that of the category of an application and has the entry for it.
pub open spec fn shows(row: Line, app: App) -> bool {
    row matches Line::Category { title, leaves, .. } && title == app.bucket && leaves.contains(
        app_leaf(app),
    )
}

/// Every application stands in the row of its category, and there with what it starts.
pub proof fn law_every_app_is_shown(apps: Seq<App>, k: int)
    requires
        0 <= k < apps.len(),
        category::is_bucket(apps[k].bucket),
    ensures
        exists|j: int|
            0 <= j < app_rows(apps).len() && shows(#[trigger] app_rows(apps)[j], apps[k]),
{
    let app = apps[k];
    let b = choose|b: int|
        0 <= b < category::buckets().len() && #[trigger] category::buckets()[b].0 == app.bucket;
    let kept = apps.filter(goes_to(app.bucket));
    apps.lemma_filter_contains(goes_to(app.bucket), k);
    let at = choose|at: int| 0 <= at < kept.len() && kept[at] == app;
    let leaves = leaves_of(apps, app.bucket);
    assert(leaves[at] == app_leaf(app));
    assert(leaves.contains(app_leaf(app)));
    lemma_row_of_bucket(apps, category::buckets(), b);
    let j = choose|j: int|
        0 <= j < app_rows(apps).len() && #[trigger] app_rows(apps)[j] == (Line::Category {
            title: category::buckets()[b].0,
            icon: category::buckets()[b].1,
            leaves: leaves_of(apps, category::buckets()[b].0),
        });
    assert(shows(app_rows(apps)[j], app));
}

/// A category with entries has its row.
proof fn lemma_row_of_bucket(apps: Seq<App>, buckets: Seq<(Seq<char>, Seq<char>)>, b: int)
    requires
        0 <= b < buckets.len(),
        leaves_of(apps, buckets[b].0).len() > 0,
    ensures
        exists|j: int|
            0 <= j < buckets.filter_map(bucket_row(apps)).len() && #[trigger] buckets.filter_map(
                bucket_row(apps),
            )[j] == (Line::Category {
                title: buckets[b].0,
                icon: buckets[b].1,
                leaves: leaves_of(apps, buckets[b].0),
            }),
    decreases buckets.len(),
{
    let rows = buckets.filter_map(bucket_row(apps));
    let line = Line::Category {
        title: buckets[b].0,
        icon: buckets[b].1,
        leaves: leaves_of(apps, buckets[b].0),
    };
    if b == buckets.len() - 1 {
        assert(bucket_row(apps)(buckets.last()) == Some(line));
        assert(rows[rows.len() - 1] == line);
    } else {
        let less = buckets.drop_last();
        lemma_row_of_bucket(apps, less, b);
        let j = choose|j: int|
            0 <= j < less.filter_map(bucket_row(apps)).len() && #[trigger] less.filter_map(
                bucket_row(apps),
            )[j] == line;
        assert(rows[j] == line);
    }
}

/// How many entries the categories among some rows have.
pub open spec fn entries_in(rows: Seq<Line>) -> nat
    decreases rows.len(),
{
    if rows.len() == 0 {
        0
    } else {
        entries_in(rows.drop_last()) + match rows.last() {
            Line::Category { leaves, .. } => leaves.len(),
            _ => 0,
        }
    }
}

/// No application stands in more than one place: the rows for the applications have as many entries
/// as there are applications.
pub proof fn law_every_app_is_shown_once(apps: Seq<App>)
    requires
        forall|k: int| 0 <= k < apps.len() ==> category::is_bucket((#[trigger] apps[k]).bucket),
    ensures
        entries_in(app_rows(apps)) == apps.len(),
{
    let n = category::buckets().len() as int;
    assert(category::buckets().take(n) =~= category::buckets());
    lemma_entries_of_buckets(apps, n);
    lemma_counted_once(apps);
}

/// How many of the applications go to one of the first `n` categories.
spec fn counted(apps: Seq<App>, n: int) -> nat
    decreases n,
{
    if n <= 0 {
        0
    } else {
        counted(apps, n - 1) + apps.filter(goes_to(category::buckets()[n - 1].0)).len()
    }
}

proof fn lemma_entries_of_buckets(apps: Seq<App>, n: int)
    requires
        0 <= n <= category::buckets().len(),
    ensures
        entries_in(category::buckets().take(n).filter_map(bucket_row(apps))) == counted(apps, n),
    decreases n,
{
    let all = category::buckets();
    if n > 0 {
        lemma_entries_of_buckets(apps, n - 1);
        all.lemma_filter_map_take_succ(bucket_row(apps), n - 1);
        let before = all.take(n - 1).filter_map(bucket_row(apps));
        let rows = all.take(n).filter_map(bucket_row(apps));
        match bucket_row(apps)(all[n - 1]) {
            Some(line) => {
                assert(rows =~= before.push(line));
                assert(rows.drop_last() =~= before);
            },
            None => {
                assert(rows =~= before);
            },
        }
    } else {
        assert(all.take(0) =~= seq![]);
    }
}

proof fn lemma_counted_once(apps: Seq<App>)
    requires
        forall|k: int| 0 <= k < apps.len() ==> category::is_bucket((#[trigger] apps[k]).bucket),
    ensures
        counted(apps, category::buckets().len() as int) == apps.len(),
    decreases apps.len(),
{
    let n = category::buckets().len() as int;
    if apps.len() == 0 {
        lemma_counted_none(apps, n);
    } else {
        let app = apps[apps.len() - 1];
        assert(category::is_bucket(app.bucket));
        let b = choose|b: int| 0 <= b < n && #[trigger] category::buckets()[b].0 == app.bucket;
        lemma_counted_once(apps.drop_last());
        lemma_counted_last(apps, b, n);
    }
}

proof fn lemma_counted_none(apps: Seq<App>, n: int)
    requires
        apps.len() == 0,
    ensures
        counted(apps, n) == 0,
    decreases n,
{
    reveal(Seq::filter);
    if n > 0 {
        lemma_counted_none(apps, n - 1);
    }
}

/// The last application counts for its own category alone.
proof fn lemma_counted_last(apps: Seq<App>, b: int, n: int)
    requires
        apps.len() > 0,
        0 <= b < category::buckets().len(),
        category::buckets()[b].0 == apps.last().bucket,
        0 <= n <= category::buckets().len(),
    ensures
        counted(apps, n) == counted(apps.drop_last(), n) + if b < n {
            1nat
        } else {
            0
        },
    decreases n,
{
    reveal(Seq::filter);
    if n > 0 {
        lemma_counted_last(apps, b, n - 1);
        if b < n - 1 {
            category::law_titles_are_distinct(b, n - 1);
        } else if n - 1 < b {
            category::law_titles_are_distinct(n - 1, b);
        }
    }
}

/// Every application to show that a desktop file describes can be found in the menu: one with its
/// name, but for case, is listed, and stands in the row of its category.
pub proof fn law_described_apps_are_shown(files: Seq<desktop::Desktop>, apps: Seq<App>, i: int)
    requires
        desktop::is_app_list(files, apps),
        0 <= i < files.len(),
        desktop::app_of(files[i]) is Some,
    ensures
        exists|m: int, j: int|
            0 <= m < apps.len() && 0 <= j < app_rows(apps).len() && text::same_ignoring_case(
                apps[m].name,
                files[i].name,
            ) && #[trigger] shows(app_rows(apps)[j], apps[m]),
{
    desktop::law_described_apps_are_listed(files, apps, i);
    let m = choose|m: int|
        0 <= m < apps.len() && text::same_ignoring_case((#[trigger] apps[m]).name, files[i].name);
    desktop::law_listed_apps_are_described(files, apps, m);
    law_every_app_is_shown(apps, m);
    let j = choose|j: int|
        0 <= j < app_rows(apps).len() && shows(#[trigger] app_rows(apps)[j], apps[m]);
    assert(shows(app_rows(apps)[j], apps[m]));
}

/// A row for applications is that of one of the categories, and is not empty.
pub proof fn law_no_empty_category(apps: Seq<App>, i: int)
    requires
        0 <= i < app_rows(apps).len(),
    ensures
        exists|p: int|
            0 <= p < category::buckets().len() && is_row_of(
                app_rows(apps)[i],
                #[trigger] category::buckets()[p],
            ),
{
    let places = lemma_row_places(apps, category::buckets());
    assert(is_row_of(app_rows(apps)[i], category::buckets()[places[i]]));
}

/// The categories of applications stand in their fixed order.
pub proof fn law_categories_in_order(apps: Seq<App>, i: int, j: int)
    requires
        0 <= i < j < app_rows(apps).len(),
    ensures
        exists|p: int, q: int|
            0 <= p < q < category::buckets().len() && is_row_of(
                app_rows(apps)[i],
                #[trigger] category::buckets()[p],
            ) && is_row_of(app_rows(apps)[j], #[trigger] category::buckets()[q]),
{
    let places = lemma_row_places(apps, category::buckets());
    assert(places[i] < places[j]);
    assert(is_row_of(app_rows(apps)[i], category::buckets()[places[i]]));
    assert(is_row_of(app_rows(apps)[j], category::buckets()[places[j]]));
}

/// Whether a row is that of a category and has entries.
pub open spec fn is_row_of(row: Line, bucket: (Seq<char>, Seq<char>)) -> bool {
    row matches Line::Category { title, icon, leaves } && title == bucket.0 && icon == bucket.1
        && leaves.len() > 0
}

/// Where among the categories those stand that have rows.
proof fn lemma_row_places(apps: Seq<App>, buckets: Seq<(Seq<char>, Seq<char>)>) -> (places: Seq<
    int,
>)
    ensures
        places.len() == buckets.filter_map(bucket_row(apps)).len(),
        forall|i: int|
            0 <= i < places.len() ==> 0 <= #[trigger] places[i] < buckets.len() && is_row_of(
                buckets.filter_map(bucket_row(apps))[i],
                buckets[places[i]],
            ),
        forall|i: int, j: int|
            0 <= i < j < places.len() ==> #[trigger] places[i] < #[trigger] places[j],
    decreases buckets.len(),
{
    if buckets.len() == 0 {
        seq![]
    } else {
        let before = lemma_row_places(apps, buckets.drop_last());
        match bucket_row(apps)(buckets.last()) {
            Some(line) => {
                let places = before.push(buckets.len() - 1);
                assert forall|i: int| 0 <= i < places.len() implies 0 <= #[trigger] places[i]
                    < buckets.len() && is_row_of(
                    buckets.filter_map(bucket_row(apps))[i],
                    buckets[places[i]],
                ) by {
                    if i < before.len() {
                        assert(places[i] == before[i]);
                    }
                }
                places
            },
            None => before,
        }
    }
}

/// What the dialog asks about is not done at a click: an entry of the submenu that calls this program
/// makes it ask for confirmation of an action that the dialog knows, and no entry is itself what the
/// dialog runs for an action.
pub proof fn law_power_is_confirmed(i: int, action: Seq<char>)
    requires
        0 <= i < power_leaves().len(),
    ensures
        power_leaves()[i].argv[0] == "webgen-menu"@ ==> (toggle::mode_of(
            power_leaves()[i].argv,
        ) matches toggle::Asked::Confirm(asked) && confirm::prompt_of(asked) is Some),
        confirm::prompt_of(action) matches Some(prompt) ==> prompt.argv != power_leaves()[i].argv,
{
    lemma_confirming_call("logout"@);
    lemma_confirming_call("reboot"@);
    lemma_confirming_call("poweroff"@);
    reveal_strlit("webgen-menu");
    reveal_strlit("foot");
    reveal_strlit("pkill");
    reveal_strlit("sh");
    let leaves = power_leaves();
    assert("webgen-menu"@[0] == 'w');
    assert("foot"@[0] == 'f');
    assert("pkill"@[0] == 'p');
    assert("sh"@[0] == 's');
    assert(leaves[0].argv[0] == "webgen-menu"@);
    assert(leaves[1].argv[0] == "foot"@);
    assert(leaves[2].argv[0] == "webgen-menu"@);
    assert(leaves[3].argv[0] == "webgen-menu"@);
    if let Some(prompt) = confirm::prompt_of(action) {
        assert(prompt.argv[0] == "pkill"@ || prompt.argv[0] == "sh"@);
    }
}

/// Every action that the dialog knows can be asked for in the submenu.
pub proof fn law_known_actions_are_offered(action: Seq<char>)
    requires
        confirm::prompt_of(action) is Some,
    ensures
        exists|i: int|
            0 <= i < power_leaves().len() && toggle::mode_of((#[trigger] power_leaves()[i]).argv)
                == toggle::Asked::Confirm(action),
{
    lemma_confirming_call(action);
    let argv = seq!["webgen-menu"@, "--confirm"@, action];
    if action == "logout"@ {
        assert(power_leaves()[0].argv == argv);
    } else if action == "reboot"@ {
        assert(power_leaves()[2].argv == argv);
    } else {
        assert(power_leaves()[3].argv == argv);
    }
}

proof fn lemma_confirming_call(action: Seq<char>)
    ensures
        toggle::mode_of(seq!["webgen-menu"@, "--confirm"@, action]) == toggle::Asked::Confirm(
            action,
        ),
{
    reveal_strlit("webgen-menu");
    reveal_strlit("--confirm");
    assert("webgen-menu"@[0] != "--confirm"@[0]);
    reveal_with_fuel(toggle::mode_of, 2);
    assert(seq!["webgen-menu"@, "--confirm"@, action].drop_first() =~= seq![
        "--confirm"@,
        action,
    ]);
}

/// Whether `entry` is the entry for `app`: it shows the name and the icon of the application, and
/// starts the program and the arguments of its command line, behind `foot -e` if the application
/// runs in a terminal.
pub open spec fn is_entry_of(entry: Entry, app: App) -> bool {
    &&& entry.label == app.name
    &&& entry.icon == app.icon
    &&& if app.terminal {
        &&& entry.argv.len() >= 2
        &&& entry.argv[0] == "foot"@
        &&& entry.argv[1] == "-e"@
        &&& entry.argv.skip(2) == launch::argv_of(app.command)
    } else {
        entry.argv == launch::argv_of(app.command)
    }
}

/// Whether place `l` of a row is the entry for `app` in the row of its category.
pub open spec fn has_entry_at(row: Line, l: int, app: App) -> bool {
    row matches Line::Category { title, leaves, .. } && title == app.bucket && 0 <= l < leaves.len()
        && is_entry_of(leaves[l], app)
}

proof fn lemma_entry_of_app(app: App)
    ensures
        is_entry_of(app_leaf(app), app),
{
    launch::law_started_in_terminal(app);
}

/// Every application has an entry in the menu, in the row of its category: with its name, its icon
/// and what starts it, in a terminal if it is to run in one.
pub proof fn law_every_app_has_its_entry(apps: Seq<App>, k: int)
    requires
        0 <= k < apps.len(),
        category::is_bucket(apps[k].bucket),
    ensures
        exists|j: int, l: int|
            0 <= j < menu_of(apps).len() && #[trigger] has_entry_at(menu_of(apps)[j], l, apps[k]),
{
    let app = apps[k];
    law_every_app_is_shown(apps, k);
    let j = choose|j: int|
        0 <= j < app_rows(apps).len() && shows(#[trigger] app_rows(apps)[j], app);
    let row = menu_of(apps)[j];
    assert(row == app_rows(apps)[j]);
    let leaves = row->leaves;
    let l = choose|l: int| 0 <= l < leaves.len() && leaves[l] == app_leaf(app);
    lemma_entry_of_app(app);
    assert(has_entry_at(menu_of(apps)[j], l, app));
}

/// Every desktop file that is an application, neither kept from display nor hidden, with a name and
/// a command line, can be found in the menu: an application with its name, but for case, is listed
/// and has its entry.
pub proof fn law_files_to_show_have_entries(files: Seq<desktop::Desktop>, apps: Seq<App>, i: int)
    requires
        desktop::is_app_list(files, apps),
        0 <= i < files.len(),
        files[i].kind == "Application"@,
        !files[i].no_display,
        !files[i].hidden,
        files[i].name.len() > 0,
        files[i].command.len() > 0,
    ensures
        exists|m: int, j: int, l: int|
            0 <= m < apps.len() && 0 <= j < menu_of(apps).len() && text::same_ignoring_case(
                apps[m].name,
                files[i].name,
            ) && #[trigger] has_entry_at(menu_of(apps)[j], l, apps[m]),
{
    desktop::law_files_to_show_are_listed(files, apps, i);
    let m = choose|m: int|
        0 <= m < apps.len() && text::same_ignoring_case((#[trigger] apps[m]).name, files[i].name);
    desktop::law_listed_apps_are_described(files, apps, m);
    law_every_app_has_its_entry(apps, m);
    let (j, l) = choose|j: int, l: int|
        0 <= j < menu_of(apps).len() && #[trigger] has_entry_at(menu_of(apps)[j], l, apps[m]);
    assert(has_entry_at(menu_of(apps)[j], l, apps[m]));
}

/// Whether a row is that of the category with the given title and icon, and has an entry for each
/// application at one of the given places and no others, in their order, where these are all the
/// places of applications of the category.
pub open spec fn has_entries_for(
    row: Line,
    bucket: (Seq<char>, Seq<char>),
    apps: Seq<App>,
    places: Seq<int>,
) -> bool {
    &&& row matches Line::Category { title, icon, leaves } && title == bucket.0 && icon == bucket.1
        && leaves.len() == places.len() && forall|l: int|
        0 <= l < places.len() ==> is_entry_of(#[trigger] leaves[l], apps[places[l]])
    &&& places.len() > 0
    &&& forall|l: int| 0 <= l < places.len() ==> 0 <= #[trigger] places[l] < apps.len()
    &&& forall|l: int, m: int|
        0 <= l < m < places.len() ==> #[trigger] places[l] < #[trigger] places[m]
    &&& forall|k: int|
        0 <= k < apps.len() ==> (#[trigger] places.contains(k) <==> apps[k].bucket == bucket.0)
}

/// The rows above the last six are those of categories: each has an entry for every application of
/// its category and for no other, in the order of the applications.
pub proof fn law_entries_of_a_category(apps: Seq<App>, i: int)
    requires
        0 <= i < menu_of(apps).len() - 6,
    ensures
        exists|p: int, places: Seq<int>|
            0 <= p < category::buckets().len() && #[trigger] has_entries_for(
                menu_of(apps)[i],
                category::buckets()[p],
                apps,
                places,
            ),
{
    let all = category::buckets();
    let row = app_rows(apps)[i];
    assert(menu_of(apps)[i] == row);
    assert(app_rows(apps).contains(row));
    all.lemma_filter_map_contains(bucket_row(apps), row);
    let bucket = choose|bucket: (Seq<char>, Seq<char>)| #[trigger]
        all.contains(bucket) && bucket_row(apps)(bucket) == Some(row);
    let p = choose|p: int| 0 <= p < all.len() && all[p] == bucket;
    let places = lemma_places_of(apps, bucket.0);
    let leaves = leaves_of(apps, bucket.0);
    assert(row == (Line::Category { title: bucket.0, icon: bucket.1, leaves }));
    assert forall|l: int| 0 <= l < places.len() implies is_entry_of(
        #[trigger] leaves[l],
        apps[places[l]],
    ) by {
        assert(leaves[l] == app_leaf(apps[places[l]]));
        lemma_entry_of_app(apps[places[l]]);
    }
    assert(has_entries_for(menu_of(apps)[i], all[p], apps, places));
}

/// The places of the applications of a category.
proof fn lemma_places_of(apps: Seq<App>, title: Seq<char>) -> (places: Seq<int>)
    ensures
        places.len() == apps.filter(goes_to(title)).len(),
        forall|l: int|
            0 <= l < places.len() ==> 0 <= #[trigger] places[l] < apps.len() && apps.filter(
                goes_to(title),
            )[l] == apps[places[l]],
        forall|l: int, m: int|
            0 <= l < m < places.len() ==> #[trigger] places[l] < #[trigger] places[m],
        forall|k: int|
            0 <= k < apps.len() ==> (#[trigger] places.contains(k) <==> apps[k].bucket == title),
    decreases apps.len(),
{
    reveal(Seq::filter);
    if apps.len() == 0 {
        seq![]
    } else {
        let less = apps.drop_last();
        let last = apps.len() - 1;
        let before = lemma_places_of(less, title);
        let places = if apps[last].bucket == title {
            before.push(last)
        } else {
            before
        };
        assert forall|l: int| 0 <= l < places.len() implies 0 <= #[trigger] places[l] < apps.len()
            && apps.filter(goes_to(title))[l] == apps[places[l]] by {
            if l < before.len() {
                assert(places[l] == before[l]);
            }
        }
        assert forall|k: int| 0 <= k < apps.len() implies (#[trigger] places.contains(k)
            <==> apps[k].bucket == title) by {
            if k < last {
                assert(before.contains(k) <==> less[k].bucket == title);
                if before.contains(k) {
                    let l = choose|l: int| 0 <= l < before.len() && before[l] == k;
                    assert(places[l] == k);
                }
                if places.contains(k) {
                    let l = choose|l: int| 0 <= l < places.len() && places[l] == k;
                    assert(before[l] == k);
                }
            } else {
                if apps[k].bucket == title {
                    assert(places[places.len() - 1] == k);
                }
                if places.contains(k) {
                    let l = choose|l: int| 0 <= l < places.len() && places[l] == k;
                    if l < before.len() {
                        assert(before[l] < last);
                    }
                }
            }
        }
        places
    }
}

/// The rows for categories stand in the order of the categories, and each has a row of its own.
pub proof fn law_rows_in_order(apps: Seq<App>, i: int, j: int)
    requires
        0 <= i < j < menu_of(apps).len() - 6,
    ensures
        exists|p: int, q: int|
            0 <= p < q < 7 && is_row_of(
                menu_of(apps)[i],
                #[trigger] category::buckets()[p],
            ) && is_row_of(menu_of(apps)[j], #[trigger] category::buckets()[q]),
{
    assert(menu_of(apps)[i] == app_rows(apps)[i] && menu_of(apps)[j] == app_rows(apps)[j]);
    law_categories_in_order(apps, i, j);
    let (p, q) = choose|p: int, q: int|
        0 <= p < q < category::buckets().len() && is_row_of(
            app_rows(apps)[i],
            #[trigger] category::buckets()[p],
        ) && is_row_of(app_rows(apps)[j], #[trigger] category::buckets()[q]);
    assert(is_row_of(menu_of(apps)[i], category::buckets()[p]));
    assert(is_row_of(menu_of(apps)[j], category::buckets()[q]));
}

/// Whether `line` is an entry with the given icon and label that starts the given program.
pub open spec fn starts_program(
    line: Line,
    icon: Seq<char>,
    label: Seq<char>,
    program: Seq<char>,
) -> bool {
    line matches Line::Leaf(entry) && entry.icon == icon && entry.label == label
        && entry.argv.len() == 1 && entry.argv[0] == program
}

/// Whatever applications there are, the menu ends with the file manager, the search and the submenu
/// Power, with a line in front of each.
pub proof fn law_end_of_the_menu(apps: Seq<App>)
    ensures
        menu_of(apps).len() >= 6,
        ({
            let n = menu_of(apps).len();
            &&& menu_of(apps)[n - 6] is Separator
            &&& starts_program(
                menu_of(apps)[n - 5],
                "system-file-manager"@,
                "Files"@,
                "webgen-files"@,
            )
            &&& menu_of(apps)[n - 4] is Separator
            &&& starts_program(menu_of(apps)[n - 3], "system-search"@, "Run\u{2026}"@, "fuzzel"@)
            &&& menu_of(apps)[n - 2] is Separator
            &&& menu_of(apps)[n - 1] matches Line::Category { title, icon, leaves } && title
                == "Power"@ && icon == "system-shutdown"@ && leaves.len() == 4
        }),
{
}

/// Whether `entry` has the given icon and label and calls this program to confirm `action`.
pub open spec fn confirms(
    entry: Entry,
    icon: Seq<char>,
    label: Seq<char>,
    action: Seq<char>,
) -> bool {
    &&& entry.icon == icon
    &&& entry.label == label
    &&& entry.argv.len() == 3
    &&& entry.argv[0] == "webgen-menu"@
    &&& entry.argv[1] == "--confirm"@
    &&& entry.argv[2] == action
}

/// Whatever applications there are, the submenu Power offers to log out, to switch to server mode,
/// to reboot and to power off, in this order. All but the switch ask for confirmation of the action
/// that they are labelled with; the switch has a flow of its own, in a terminal.
pub proof fn law_power_submenu(apps: Seq<App>)
    ensures
        menu_of(apps).last() matches Line::Category { leaves, .. } && leaves.len() == 4 && confirms(
            leaves[0],
            "system-log-out"@,
            "Log out"@,
            "logout"@,
        ) && confirms(leaves[2], "system-reboot"@, "Reboot"@, "reboot"@) && confirms(
            leaves[3],
            "system-shutdown"@,
            "Power off"@,
            "poweroff"@,
        ) && leaves[1].icon == "network-server"@ && leaves[1].label
            == "Switch to Server (headless)"@ && leaves[1].argv.len() == 5 && leaves[1].argv[0]
            == "foot"@ && leaves[1].argv[1] == "--title"@ && leaves[1].argv[2]
            == "WebGen: Switch to Server mode"@ && leaves[1].argv[3] == "--"@ && leaves[1].argv[4]
            == "headless"@,
{
    assert(menu_of(apps).last() == fixed_rows()[5]);
}

/// A category is added with its title, its icon and its entries just if it has any.
pub proof fn law_row_of_category(title: Seq<char>, icon: Seq<char>, leaves: Seq<Entry>)
    ensures
        category_row(title, icon, leaves) is Some <==> leaves.len() > 0,
        category_row(title, icon, leaves) matches Some(line) ==> {
            line matches Line::Category { title: t, icon: c, leaves: l } && t == title && c == icon
                && l == leaves
        },
{
}

/// The models of rows and entries say what these hold, each at its place.
pub proof fn law_models(rows: Seq<Row>, leaves: Seq<Leaf>, i: int)
    ensures
        row_views(rows).len() == rows.len(),
        0 <= i < rows.len() ==> match rows[i] {
            Row::Separator => row_views(rows)[i] is Separator,
            Row::Leaf(leaf) => row_views(rows)[i] == Line::Leaf(leaf@),
            Row::Category { title, icon, leaves: entries } => (
            row_views(rows)[i] matches Line::Category { title: t, icon: c, leaves: l } && t
                == title@ && c == icon@ && l == leaf_views(entries@)),
        },
        leaf_views(leaves).len() == leaves.len(),
        0 <= i < leaves.len() ==> {
            &&& leaf_views(leaves)[i].icon == leaves[i].icon@
            &&& leaf_views(leaves)[i].label == leaves[i].label@
            &&& leaf_views(leaves)[i].argv == text::views(leaves[i].argv@)
        },
{
}

/// To open a flyout, each of the others is closed once, from the first to the last, and only then is
/// it opened; it is not closed itself.
pub proof fn law_others_are_closed_first(count: nat, opened: nat, k: int)
    requires
        opened < count <= usize::MAX,
        0 <= k < count,
    ensures
        opening_steps(count, opened).len() == count,
        opening_steps(count, opened).last() == FlyoutStep::Popup(opened as usize),
        k < count - 1 ==> (opening_steps(count, opened)[k] matches FlyoutStep::Popdown(f) && f
            != opened && f < count),
        k != opened ==> opening_steps(count, opened).contains(FlyoutStep::Popdown(k as usize)),
        forall|l: int|
            0 <= l < k < count - 1 ==> (#[trigger] opening_steps(count, opened)[l]
                matches FlyoutStep::Popdown(f) && opening_steps(count, opened)[k]
                matches FlyoutStep::Popdown(g) && f < g),
{
    let steps = opening_steps(count, opened);
    if k < opened {
        assert(steps[k] == FlyoutStep::Popdown(k as usize));
    } else if k > opened {
        assert(steps[k - 1] == FlyoutStep::Popdown(k as usize));
    }
}

/// To close the flyouts, each is closed once, from the first to the last, and none is opened.
pub proof fn law_all_are_closed(count: nat, k: int)
    requires
        count <= usize::MAX,
        0 <= k < count,
    ensures
        closing_steps(count).len() == count,
        closing_steps(count)[k] matches FlyoutStep::Popdown(f) && f == k,
{
}

/// Whatever has happened to the window, a click on an entry starts what it stands for and closes the
/// window, Escape closes the window, and other keys and the focus call for nothing. Only that it got
/// the focus is remembered.
pub proof fn law_replies_of_window(events: Seq<MenuEvent>)
    ensures
        window_after(events).next(MenuEvent::LeafClick).1 == MenuAction::StartAndClose,
        window_after(events).next(MenuEvent::Escape).1 == MenuAction::Close,
        window_after(events).next(MenuEvent::OtherKey).1 == MenuAction::Nothing,
        window_after(events).next(MenuEvent::Focus).1 == MenuAction::Nothing,
        window_after(events).had_focus <==> events.contains(MenuEvent::Focus),
{
    law_click_elsewhere_closes(events);
}

/// What each event does to a window, whatever is remembered of it: that is changed by the focus
/// alone, and by that for good, and counts only where the window is without focus.
pub proof fn law_what_each_event_does(window: MenuWindow, event: MenuEvent)
    ensures
        event == MenuEvent::Focus ==> window.next(event).0.had_focus,
        event != MenuEvent::Focus ==> window.next(event).0.had_focus == window.had_focus,
        event == MenuEvent::LeafClick ==> window.next(event).1 == MenuAction::StartAndClose,
        event == MenuEvent::Escape ==> window.next(event).1 == MenuAction::Close,
        event == MenuEvent::OtherKey || event == MenuEvent::Focus ==> window.next(event).1
            == MenuAction::Nothing,
        event == MenuEvent::NoFocus && window.had_focus ==> window.next(event).1
            == MenuAction::CloseAll,
        event == MenuEvent::NoFocus && !window.had_focus ==> window.next(event).1
            == MenuAction::Nothing,
{
}

} // verus!

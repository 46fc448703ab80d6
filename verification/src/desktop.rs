//! Desktop files, and the applications that they describe.

use crate::category;
use crate::listing;
use crate::sequence;
use crate::text;
use vstd::prelude::*;
use vstd::utf8::*;

verus! {

/// What the group "Desktop Entry" of a desktop file says: under each key the value that was read,
/// or `None` where there is none that can be read.
#[derive(Clone, Debug, PartialEq, Eq)]
pub struct DesktopFile {
    /// The value of `Type`.
    pub kind: Option<String>,
    /// The value of `NoDisplay`.
    pub no_display: Option<bool>,
    /// The value of `Hidden`.
    pub hidden: Option<bool>,
    /// The value of `Name`.
    pub name: Option<String>,
    /// The value of `Exec`.
    pub command: Option<String>,
    /// The value of `Terminal`.
    pub terminal: Option<bool>,
    /// The value of `Icon`.
    pub icon: Option<String>,
    /// The value of `Categories`.
    pub categories: Option<String>,
}

/// The model of a [`DesktopFile`]: a missing text is empty, and a missing flag is off.
pub struct Desktop {
    pub kind: Seq<char>,
    pub no_display: bool,
    pub hidden: bool,
    pub name: Seq<char>,
    pub command: Seq<char>,
    pub terminal: bool,
    pub icon: Seq<char>,
    pub categories: Seq<char>,
}

/// The characters of a text, none if it is missing.
pub open spec fn text_or_empty(value: Option<String>) -> Seq<char> {
    match value {
        Some(s) => s@,
        None => Seq::empty(),
    }
}

/// Whether a flag is there and on.
pub open spec fn is_set(value: Option<bool>) -> bool {
    value == Some(true)
}

impl View for DesktopFile {
    type V = Desktop;

    open spec fn view(&self) -> Desktop {
        Desktop {
            kind: text_or_empty(self.kind),
            no_display: is_set(self.no_display),
            hidden: is_set(self.hidden),
            name: text_or_empty(self.name),
            command: text_or_empty(self.command),
            terminal: is_set(self.terminal),
            icon: text_or_empty(self.icon),
            categories: text_or_empty(self.categories),
        }
    }
}

/// An application that the menu can start.
#[derive(Clone, Debug, PartialEq, Eq)]
pub struct AppEntry {
    /// The name that the menu shows.
    pub name: String,
    /// The command line, with field codes in it.
    pub command: String,
    /// Whether the application runs in a terminal.
    pub terminal: bool,
    /// The name of its icon.
    pub icon: String,
    /// The title of the category that it goes to.
    pub bucket: &'static str,
}

/// The model of an [`AppEntry`].
pub struct App {
    pub name: Seq<char>,
    pub command: Seq<char>,
    pub terminal: bool,
    pub icon: Seq<char>,
    pub bucket: Seq<char>,
}

impl View for AppEntry {
    type V = App;

    open spec fn view(&self) -> App {
        App {
            name: self.name@,
            command: self.command@,
            terminal: self.terminal,
            icon: self.icon@,
            bucket: self.bucket@,
        }
    }
}

impl App {
    /// What holds of every application that was read from a desktop file: it has a name and a
    /// command line, and its category is one of those of the menu.
    pub open spec fn well_formed(self) -> bool {
        &&& self.name.len() > 0
        &&& self.command.len() > 0
        &&& category::is_bucket(self.bucket)
    }
}

/// The models of the entries of a list.
pub open spec fn app_views(apps: Seq<AppEntry>) -> Seq<App> {
    Seq::new(apps.len(), |i: int| apps[i]@)
}

/// The models of the files of a list.
pub open spec fn file_views(files: Seq<DesktopFile>) -> Seq<Desktop> {
    Seq::new(files.len(), |i: int| files[i]@)
}

/// The application that a desktop file describes, if it is one to show: its type is "Application",
/// it is neither hidden nor kept from display, and it has a name and a command line.
pub open spec fn app_of(file: Desktop) -> Option<App> {
    if file.kind == "Application"@ && !file.no_display && !file.hidden && file.name.len() > 0
        && file.command.len() > 0 {
        Some(
            App {
                name: file.name,
                command: file.command,
                terminal: file.terminal,
                icon: file.icon,
                bucket: category::bucket_of(file.categories),
            },
        )
    } else {
        None
    }
}

/// The applications that the files describe, in the order of the files.
pub open spec fn candidates(files: Seq<Desktop>) -> Seq<App> {
    files.filter_map(|file: Desktop| app_of(file))
}

/// What applications are sorted by: the name in lower case.
pub open spec fn sort_key() -> spec_fn(App) -> Seq<char> {
    |app: App| text::lowercase(app.name)
}

/// The sort keys of a list of applications.
pub open spec fn sort_keys(apps: Seq<App>) -> Seq<Seq<char>> {
    listing::keys_by(apps, sort_key())
}

/// Whether `apps` is what the menu lists of `files`: the applications that they describe, in the
/// order of their names in lower case, and of applications next to each other whose names are the
/// same but for case only the first.
pub open spec fn is_app_list(files: Seq<Desktop>, apps: Seq<App>) -> bool {
    listing::is_listing(candidates(files), sort_keys(candidates(files)), apps)
}

/// The directories that hold the desktop files of the system, in the order in which they are read.
pub fn system_app_dirs() -> (r: Vec<&'static str>)
    ensures
        r@.len() == 2,
        r@[0]@ == "/usr/share/applications"@,
        r@[1]@ == "/usr/local/share/applications"@,
{
    vec!["/usr/share/applications", "/usr/local/share/applications"]
}

/// The directory that holds a user's own desktop files, below the user's home directory. It is read
/// after those of the system.
pub fn user_app_dir() -> (r: &'static str)
    ensures
        r@ == ".local/share/applications"@,
{
    ".local/share/applications"
}

/// Whether a file with the given extension is a desktop file.
pub fn is_desktop_extension(extension: Option<&str>) -> (r: bool)
    ensures
        r == (extension matches Some(e) && e@ == "desktop"@),
{
    match extension {
        Some(e) => text::same_str(e, "desktop"),
        None => false,
    }
}

fn take_text(value: Option<String>) -> (r: String)
    ensures
        r@ == text_or_empty(value),
{
    match value {
        Some(s) => s,
        None => String::new(),
    }
}

fn take_flag(value: Option<bool>) -> (r: bool)
    ensures
        r == is_set(value),
{
    match value {
        Some(b) => b,
        None => false,
    }
}

/// The application that a desktop file describes, if it is one to show.
pub fn app_from(file: DesktopFile) -> (r: Option<AppEntry>)
    ensures
        r is Some == app_of(file@) is Some,
        r matches Some(app) ==> Some(app@) == app_of(file@),
{
    let kind: String = take_text(file.kind);
    if !text::same_str(kind.as_str(), "Application") || take_flag(file.no_display) || take_flag(
        file.hidden,
    ) {
        return None;
    }
    let name: String = take_text(file.name);
    let command: String = take_text(file.command);
    if name.as_str().is_empty() || command.as_str().is_empty() {
        return None;
    }
    let categories: String = take_text(file.categories);
    Some(
        AppEntry {
            name,
            command,
            terminal: take_flag(file.terminal),
            icon: take_text(file.icon),
            bucket: category::bucket_for(categories.as_str()),
        },
    )
}

/// The applications that the menu lists of the desktop files that were read.
pub fn load_apps(files: Vec<DesktopFile>) -> (r: Vec<AppEntry>)
    ensures
        is_app_list(file_views(files@), app_views(r@)),
        forall|i: int| 0 <= i < r@.len() ==> (#[trigger] r@[i])@.well_formed(),
        ascii_names_lowered(candidates(file_views(files@))),
        names_are_ascii(candidates(file_views(files@))) ==> listing::names_stay_together(
            candidates(file_views(files@)),
            sort_keys(candidates(file_views(files@))),
        ),
        names_are_ascii(candidates(file_views(files@))) ==> forall|i: int, j: int|
            0 <= i < j < r@.len() ==> !listing::same_name(
                (#[trigger] r@[i])@,
                (#[trigger] r@[j])@,
            ),
{
    let ghost all = file_views(files@);
    let mut apps: Vec<AppEntry> = Vec::new();
    let mut keys: Vec<String> = Vec::new();
    for file in it: files
        invariant
            it.seq() == files@,
            all == file_views(files@),
            app_views(apps@) == candidates(all.take(it.index() as int)),
            text::views(keys@) == sort_keys(app_views(apps@)),
            ascii_names_lowered(app_views(apps@)),
    {
        let ghost i = it.index() as int;
        let ghost (old_apps, old_keys) = (apps@, keys@);
        proof {
            assert(file@ == all[i]);
            all.lemma_filter_map_take_succ(|file: Desktop| app_of(file), i);
        }
        match app_from(file) {
            Some(app) => {
                keys.push(text::to_lowercase(app.name.as_str()));
                apps.push(app);
                proof {
                    assert(app_views(apps@) =~= app_views(old_apps).push(app@));
                    assert(text::views(keys@) =~= sort_keys(app_views(apps@))) by {
                        assert(text::views(old_keys).len() == old_keys.len());
                        assert forall|k: int| 0 <= k < old_keys.len() implies #[trigger] old_keys[k]@
                            == sort_keys(app_views(old_apps))[k] by {
                            assert(text::views(old_keys)[k] == old_keys[k]@);
                        }
                    }
                }
            },
            None => {},
        }
    }
    assert(all.take(all.len() as int) == all);
    assert(text::views(keys@).len() == keys@.len());
    let ghost found = app_views(apps@);
    let r: Vec<AppEntry> = listing::arrange(apps, keys);
    proof {
        let listed = app_views(r@);
        assert forall|i: int| 0 <= i < r@.len() implies (#[trigger] r@[i])@.well_formed() by {
            listing::law_nothing_made_up(found, sort_keys(found), listed, i);
            assert(found.contains(listed[i]));
            all.lemma_filter_map_contains(|file: Desktop| app_of(file), listed[i]);
            let file = choose|file: Desktop| #[trigger]
                all.contains(file) && app_of(file) == Some(listed[i]);
            category::law_bucket_is_listed(file.categories);
        }
        if names_are_ascii(found) {
            lemma_ascii_names_stay_together(found, sort_keys(found));
            listing::law_each_name_once(found, sort_keys(found), listed);
            assert forall|i: int, j: int| 0 <= i < j < r@.len() implies !listing::same_name(
                (#[trigger] r@[i])@,
                (#[trigger] r@[j])@,
            ) by {
                assert(!listing::same_name(listed[i], listed[j]));
            }
        }
    }
    r
}

/// Whether the names of all the applications are made of ASCII characters.
pub open spec fn names_are_ascii(apps: Seq<App>) -> bool {
    forall|i: int| 0 <= i < apps.len() ==> is_ascii_chars(#[trigger] apps[i].name)
}

/// Whether the sort key of each application with a name of ASCII characters is the name with a to z
/// for A to Z.
pub open spec fn ascii_names_lowered(apps: Seq<App>) -> bool {
    forall|i: int|
        0 <= i < apps.len() && is_ascii_chars((#[trigger] apps[i]).name) ==> text::lowercase(
            apps[i].name,
        ) == text::ascii_lowercase(apps[i].name)
}

/// Sorted by their names with a to z for A to Z, equal names stay together.
proof fn lemma_ascii_names_stay_together(apps: Seq<App>, keys: Seq<Seq<char>>)
    requires
        keys == sort_keys(apps),
        ascii_names_lowered(apps),
        names_are_ascii(apps),
    ensures
        listing::names_stay_together(apps, keys),
{
    assert forall|i: int| 0 <= i < apps.len() implies #[trigger] listing::name_stays_together(
        apps,
        keys,
        i,
    ) by {
        assert forall|j: int| 0 <= j < apps.len() implies (listing::same_name(
            #[trigger] apps[j],
            apps[i],
        ) <==> keys[j] == keys[i]) by {
            assert(is_ascii_chars(apps[i].name) && is_ascii_chars(apps[j].name));
            text::lemma_ascii_lowercase(apps[j].name, apps[i].name);
        }
    }
}

/// The applications are listed in the order of their names in lower case.
pub proof fn law_listed_by_name(files: Seq<Desktop>, apps: Seq<App>, m: int, n: int)
    requires
        is_app_list(files, apps),
        0 <= m < n < apps.len(),
    ensures
        !text::precedes(text::lowercase(apps[n].name), text::lowercase(apps[m].name)),
{
    let found = candidates(files);
    let keys = sort_keys(found);
    listing::law_listed_in_order(found, keys, apps, m, n);
    let (i, j) = choose|i: int, j: int|
        0 <= i < found.len() && 0 <= j < found.len() && apps[m] == found[i] && apps[n] == found[j]
            && #[trigger] listing::goes_before(keys, i, j);
    text::law_order_is_total(keys[i], keys[j]);
}

/// The files determine what is listed.
pub proof fn law_one_app_list(files: Seq<Desktop>, a: Seq<App>, b: Seq<App>)
    requires
        is_app_list(files, a),
        is_app_list(files, b),
    ensures
        a == b,
{
    listing::law_one_listing(candidates(files), sort_keys(candidates(files)), a, b);
}

/// Whatever is listed is described by one of the files, and is one to show.
pub proof fn law_listed_apps_are_described(files: Seq<Desktop>, apps: Seq<App>, m: int)
    requires
        is_app_list(files, apps),
        0 <= m < apps.len(),
    ensures
        exists|file: Desktop| #[trigger] files.contains(file) && app_of(file) == Some(apps[m]),
        apps[m].well_formed(),
{
    let found = candidates(files);
    listing::law_nothing_made_up(found, sort_keys(found), apps, m);
    files.lemma_filter_map_contains(|file: Desktop| app_of(file), apps[m]);
    let file = choose|file: Desktop| #[trigger]
        files.contains(file) && app_of(file) == Some(apps[m]);
    category::law_bucket_is_listed(file.categories);
}

/// Of every application to show that a file describes, one with its name, but for case, is listed.
pub proof fn law_described_apps_are_listed(files: Seq<Desktop>, apps: Seq<App>, i: int)
    requires
        is_app_list(files, apps),
        0 <= i < files.len(),
        app_of(files[i]) is Some,
    ensures
        exists|m: int|
            0 <= m < apps.len() && text::same_ignoring_case(
                (#[trigger] apps[m]).name,
                files[i].name,
            ),
{
    let found = candidates(files);
    let k = lemma_candidate_place(files, i);
    listing::law_nothing_lost(found, sort_keys(found), apps, k);
}

/// The place among the candidates of the application that a file describes.
proof fn lemma_candidate_place(files: Seq<Desktop>, i: int) -> (k: int)
    requires
        0 <= i < files.len(),
        app_of(files[i]) is Some,
    ensures
        0 <= k < candidates(files).len(),
        Some(candidates(files)[k]) == app_of(files[i]),
    decreases files.len(),
{
    if i == files.len() - 1 {
        candidates(files).len() - 1
    } else {
        lemma_candidate_place(files.drop_last(), i)
    }
}

/// The rule that keeps the applications described with a given name in lower case.
pub open spec fn described_with_key(k: Seq<char>) -> spec_fn(Desktop) -> Option<App> {
    |file: Desktop|
        match app_of(file) {
            Some(app) => if text::lowercase(app.name) == k {
                Some(app)
            } else {
                None
            },
            None => None,
        }
}

/// To look for a sort key among the candidates is to look for it among the files.
proof fn lemma_candidates_with_key(files: Seq<Desktop>, k: Seq<char>)
    ensures
        candidates(files).filter_map(listing::with_key(sort_key(), k)) == files.filter_map(
            described_with_key(k),
        ),
    decreases files.len(),
{
    let rule = listing::with_key(sort_key(), k);
    if files.len() > 0 {
        let before = candidates(files.drop_last());
        lemma_candidates_with_key(files.drop_last(), k);
        if let Some(app) = app_of(files.last()) {
            assert(candidates(files) =~= before.push(app));
            assert(candidates(files).drop_last() =~= before);
        }
    }
}

/// Files that describe the same applications with each name in lower case, in the same order, give
/// the same list.
proof fn lemma_same_list(a: Seq<Desktop>, b: Seq<Desktop>, apps_a: Seq<App>, apps_b: Seq<App>)
    requires
        is_app_list(a, apps_a),
        is_app_list(b, apps_b),
        forall|k: Seq<char>|
            a.filter_map(described_with_key(k)) == #[trigger] b.filter_map(described_with_key(k)),
    ensures
        apps_a == apps_b,
{
    let (x, y) = (candidates(a), candidates(b));
    assert forall|k: Seq<char>|
        x.filter_map(listing::with_key(sort_key(), k)) == #[trigger] y.filter_map(
            listing::with_key(sort_key(), k),
        ) by {
        lemma_candidates_with_key(a, k);
        lemma_candidates_with_key(b, k);
        assert(a.filter_map(described_with_key(k)) == b.filter_map(described_with_key(k)));
    }
    listing::law_order_matters_within_keys(x, y, sort_key(), apps_a, apps_b);
}

/// Whether two files describe applications with the same name in lower case.
pub open spec fn describe_same_key(a: Desktop, b: Desktop) -> bool {
    app_of(a) matches Some(x) && app_of(b) matches Some(y) && text::lowercase(x.name)
        == text::lowercase(y.name)
}

/// Only the order among files with the same name in lower case has an influence on what is listed:
/// to read the files in another order gives the same list if it leaves those in order.
pub proof fn law_read_order_matters_within_names(
    files: Seq<Desktop>,
    order: Seq<int>,
    apps: Seq<App>,
    others: Seq<App>,
)
    requires
        sequence::rearranges(order, files.len()),
        forall|i: int, j: int|
            0 <= i < j < order.len() && describe_same_key(
                files[#[trigger] order[i]],
                files[#[trigger] order[j]],
            ) ==> order[i] < order[j],
        is_app_list(files, apps),
        is_app_list(sequence::reordered(files, order), others),
    ensures
        apps == others,
{
    let moved = sequence::reordered(files, order);
    assert forall|k: Seq<char>|
        files.filter_map(described_with_key(k)) == #[trigger] moved.filter_map(
            described_with_key(k),
        ) by {
        let rule = described_with_key(k);
        assert forall|i: int, j: int|
            0 <= i < j < order.len() && rule(files[#[trigger] order[i]]) is Some && rule(
                files[#[trigger] order[j]],
            ) is Some implies order[i] < order[j] by {
            assert(describe_same_key(files[order[i]], files[order[j]]));
        }
        sequence::lemma_kept_of_reordered(files, order, rule);
    }
    lemma_same_list(files, moved, apps, others);
}

/// Whether applications that files describe with the same name in lower case are the same in
/// everything.
pub open spec fn same_key_same_app(files: Seq<Desktop>) -> bool {
    forall|i: int, j: int|
        0 <= i < files.len() && 0 <= j < files.len() && describe_same_key(
            #[trigger] files[i],
            #[trigger] files[j],
        ) ==> app_of(files[i]) == app_of(files[j])
}

/// The order in which the files of a directory are read has no influence on what is listed, so long
/// as those in one directory with the same name in lower case are the same in everything. The order
/// of the directories decides between files in different ones.
pub proof fn law_order_within_directories_is_irrelevant(
    a: Seq<Seq<Desktop>>,
    b: Seq<Seq<Desktop>>,
    apps_a: Seq<App>,
    apps_b: Seq<App>,
)
    requires
        a.len() == b.len(),
        forall|d: int|
            0 <= d < a.len() ==> (#[trigger] a[d]).to_multiset() == b[d].to_multiset()
                && same_key_same_app(a[d]),
        is_app_list(a.flatten(), apps_a),
        is_app_list(b.flatten(), apps_b),
    ensures
        apps_a == apps_b,
{
    assert forall|k: Seq<char>|
        a.flatten().filter_map(described_with_key(k)) == #[trigger] b.flatten().filter_map(
            described_with_key(k),
        ) by {
        lemma_same_with_key(a, b, k);
    }
    lemma_same_list(a.flatten(), b.flatten(), apps_a, apps_b);
}

/// The order in which all the files are read has no influence on what is listed, so long as those
/// with the same name in lower case are the same in everything.
pub proof fn law_read_order_is_irrelevant(
    a: Seq<Desktop>,
    b: Seq<Desktop>,
    apps_a: Seq<App>,
    apps_b: Seq<App>,
)
    requires
        a.to_multiset() == b.to_multiset(),
        same_key_same_app(a),
        is_app_list(a, apps_a),
        is_app_list(b, apps_b),
    ensures
        apps_a == apps_b,
{
    assert forall|k: Seq<char>|
        a.filter_map(described_with_key(k)) == #[trigger] b.filter_map(described_with_key(k)) by {
        lemma_same_in_directory(a, b, k);
    }
    lemma_same_list(a, b, apps_a, apps_b);
}

proof fn lemma_same_with_key(a: Seq<Seq<Desktop>>, b: Seq<Seq<Desktop>>, k: Seq<char>)
    requires
        a.len() == b.len(),
        forall|d: int|
            0 <= d < a.len() ==> (#[trigger] a[d]).to_multiset() == b[d].to_multiset()
                && same_key_same_app(a[d]),
    ensures
        a.flatten().filter_map(described_with_key(k)) == b.flatten().filter_map(
            described_with_key(k),
        ),
    decreases a.len(),
{
    let rule = described_with_key(k);
    if a.len() > 0 {
        let (x, y) = (a.drop_first(), b.drop_first());
        assert forall|d: int| 0 <= d < x.len() implies (#[trigger] x[d]).to_multiset()
            == y[d].to_multiset() && same_key_same_app(x[d]) by {
            assert(x[d] == a[d + 1] && y[d] == b[d + 1]);
        }
        lemma_same_with_key(x, y, k);
        assert(a[0].to_multiset() == b[0].to_multiset() && same_key_same_app(a[0]));
        lemma_same_in_directory(a[0], b[0], k);
        sequence::lemma_kept_of_joined(a[0], x.flatten(), rule);
        sequence::lemma_kept_of_joined(b[0], y.flatten(), rule);
    } else {
        assert(a =~= b);
    }
}

proof fn lemma_same_in_directory(a: Seq<Desktop>, b: Seq<Desktop>, k: Seq<char>)
    requires
        a.to_multiset() == b.to_multiset(),
        same_key_same_app(a),
    ensures
        a.filter_map(described_with_key(k)) == b.filter_map(described_with_key(k)),
{
    let rule = described_with_key(k);
    let kept = a.filter_map(rule);
    sequence::lemma_kept_equally_often(a, b, rule);
    assert forall|i: int, j: int| 0 <= i < kept.len() && 0 <= j < kept.len() implies #[trigger] kept[i]
        == #[trigger] kept[j] by {
        assert(kept.contains(kept[i]) && kept.contains(kept[j]));
        a.lemma_filter_map_contains(rule, kept[i]);
        a.lemma_filter_map_contains(rule, kept[j]);
        let x = choose|x: Desktop| #[trigger] a.contains(x) && rule(x) == Some(kept[i]);
        let y = choose|y: Desktop| #[trigger] a.contains(y) && rule(y) == Some(kept[j]);
        let p = choose|p: int| 0 <= p < a.len() && a[p] == x;
        let q = choose|q: int| 0 <= q < a.len() && a[q] == y;
        assert(describe_same_key(a[p], a[q]));
    }
    sequence::lemma_lists_of_one_thing(kept, b.filter_map(rule));
}

/// Names of ASCII characters stand in the list in the order of their lower case with a to z for A
/// to Z, and that order is strict where all the names are such names.
pub proof fn law_ascii_names_increase(files: Seq<Desktop>, apps: Seq<App>, m: int, n: int)
    requires
        is_app_list(files, apps),
        ascii_names_lowered(candidates(files)),
        0 <= m < n < apps.len(),
        is_ascii_chars(apps[m].name),
        is_ascii_chars(apps[n].name),
    ensures
        !text::precedes(text::ascii_lowercase(apps[n].name), text::ascii_lowercase(apps[m].name)),
        names_are_ascii(candidates(files)) ==> text::precedes(
            text::ascii_lowercase(apps[m].name),
            text::ascii_lowercase(apps[n].name),
        ),
{
    let found = candidates(files);
    let keys = sort_keys(found);
    law_listed_by_name(files, apps, m, n);
    listing::law_nothing_made_up(found, keys, apps, m);
    listing::law_nothing_made_up(found, keys, apps, n);
    let i = choose|i: int| 0 <= i < found.len() && found[i] == apps[m];
    let j = choose|j: int| 0 <= j < found.len() && found[j] == apps[n];
    assert(found[i].name == apps[m].name && found[j].name == apps[n].name);
    if names_are_ascii(found) {
        lemma_ascii_names_stay_together(found, keys);
        listing::law_each_name_once(found, keys, apps);
        let (x, y) = (text::ascii_lowercase(apps[m].name), text::ascii_lowercase(apps[n].name));
        text::law_order_is_total(x, y);
        assert(!listing::same_name(apps[m], apps[n]));
        text::lemma_ascii_lowercase(apps[m].name, apps[n].name);
    }
}

/// A name of ASCII characters is listed once, whatever other names there are, unless between two
/// applications with it, but for case, a name with other characters was read that is the same in
/// lower case. The one listed is the first that was read.
pub proof fn law_ascii_name_listed_once(files: Seq<Desktop>, apps: Seq<App>, i: int)
    requires
        is_app_list(files, apps),
        ascii_names_lowered(candidates(files)),
        listing::first_of_name(candidates(files), i),
        is_ascii_chars(candidates(files)[i].name),
        forall|x: int, k: int, y: int|
            0 <= x < k < y < candidates(files).len() && listing::same_name(
                #[trigger] candidates(files)[x],
                candidates(files)[i],
            ) && listing::same_name(#[trigger] candidates(files)[y], candidates(files)[i])
                && !is_ascii_chars((#[trigger] candidates(files)[k]).name) ==> text::lowercase(
                candidates(files)[k].name,
            ) != text::ascii_lowercase(candidates(files)[i].name),
    ensures
        exists|m: int| #[trigger] listing::stands_alone_at(apps, candidates(files)[i], m),
{
    let found = candidates(files);
    let keys = sort_keys(found);
    let name = found[i].name;
    assert(keys[i] == text::ascii_lowercase(name));
    assert forall|j: int| 0 <= j < found.len() && listing::same_name(
        #[trigger] found[j],
        found[i],
    ) implies keys[j] == keys[i] by {
        text::lemma_ascii_lowercase(found[j].name, name);
        text::lemma_same_ignoring_case(found[j].name, name, name);
        text::lemma_same_as_ascii(name, found[j].name);
    }
    assert forall|x: int, k: int, y: int|
        0 <= x < k < y < found.len() && listing::same_name(#[trigger] found[x], found[i])
            && listing::same_name(#[trigger] found[y], found[i]) && keys[k]
            == keys[i] implies listing::same_name(#[trigger] found[k], found[i]) by {
        assert(keys[k] == text::lowercase(found[k].name));
        assert(is_ascii_chars(found[k].name));
        text::lemma_ascii_lowercase(found[k].name, name);
    }
    assert(listing::name_stays_together(found, keys, i));
    listing::law_name_listed_once(found, keys, apps, i);
}

/// A desktop file is one to show just if its type is "Application", it is neither kept from display
/// nor hidden, and it has a name and a command line. The application then has the name, the command
/// line, the terminal flag and the icon of the file, and goes to the category of its list.
pub proof fn law_files_to_show(file: Desktop)
    ensures
        app_of(file) is Some ==> !file.no_display && !file.hidden && file.kind == "Application"@,
        app_of(file) is Some ==> file.name.len() > 0 && file.command.len() > 0,
        file.kind == "Application"@ && !file.no_display && !file.hidden && file.name.len() > 0
            && file.command.len() > 0 ==> app_of(file) is Some,
        app_of(file) matches Some(app) ==> {
            &&& app.name == file.name
            &&& app.command == file.command
            &&& app.terminal == file.terminal
            &&& app.icon == file.icon
            &&& app.bucket == category::bucket_of(file.categories)
        },
{
}

/// A key that is missing counts as empty text or as a flag that is off, and one that is there counts
/// as what it says.
pub proof fn law_missing_keys(file: DesktopFile)
    ensures
        file.kind is None ==> file@.kind.len() == 0,
        file.kind matches Some(s) ==> file@.kind == s@,
        file.no_display is None ==> !file@.no_display,
        file.no_display matches Some(b) ==> file@.no_display == b,
        file.hidden is None ==> !file@.hidden,
        file.hidden matches Some(b) ==> file@.hidden == b,
        file.name is None ==> file@.name.len() == 0,
        file.name matches Some(s) ==> file@.name == s@,
        file.command is None ==> file@.command.len() == 0,
        file.command matches Some(s) ==> file@.command == s@,
        file.terminal is None ==> !file@.terminal,
        file.terminal matches Some(b) ==> file@.terminal == b,
        file.icon is None ==> file@.icon.len() == 0,
        file.icon matches Some(s) ==> file@.icon == s@,
        file.categories is None ==> file@.categories.len() == 0,
        file.categories matches Some(s) ==> file@.categories == s@,
{
}

/// The models of files and of entries say what these hold, each at its place.
pub proof fn law_models(files: Seq<DesktopFile>, apps: Seq<AppEntry>, i: int)
    ensures
        file_views(files).len() == files.len(),
        0 <= i < files.len() ==> file_views(files)[i] == files[i]@,
        app_views(apps).len() == apps.len(),
        0 <= i < apps.len() ==> {
            &&& app_views(apps)[i].name == apps[i].name@
            &&& app_views(apps)[i].command == apps[i].command@
            &&& app_views(apps)[i].terminal == apps[i].terminal
            &&& app_views(apps)[i].icon == apps[i].icon@
            &&& app_views(apps)[i].bucket == apps[i].bucket@
        },
{
}

/// Each file is judged by itself and the order of the files is kept: of two lists of files, one
/// after the other, the applications of the one come before those of the other, and a single file
/// gives one application or none.
pub proof fn law_files_are_judged_alone(a: Seq<Desktop>, b: Seq<Desktop>, file: Desktop)
    ensures
        candidates(a + b) == candidates(a) + candidates(b),
        app_of(file) matches Some(app) ==> candidates(seq![file]) == seq![app],
        app_of(file) is None ==> candidates(seq![file]).len() == 0,
        candidates(Seq::empty()).len() == 0,
{
    sequence::lemma_kept_of_joined(a, b, |file: Desktop| app_of(file));
    assert(seq![file].drop_last() =~= Seq::<Desktop>::empty());
    assert(candidates(Seq::empty()).len() == 0);
    if let Some(app) = app_of(file) {
        assert(candidates(seq![file]) =~= seq![app]);
    }
}

/// Whether `file` is the desktop file of `app`, and one to show.
pub open spec fn shown_from(file: Desktop, app: App) -> bool {
    &&& file.kind == "Application"@
    &&& !file.no_display
    &&& !file.hidden
    &&& app.name == file.name && file.name.len() > 0
    &&& app.command == file.command && file.command.len() > 0
    &&& app.terminal == file.terminal
    &&& app.icon == file.icon
    &&& app.bucket == category::bucket_of(file.categories)
}

/// Whatever is listed has a file that is an application, neither kept from display nor hidden, and
/// has from that file its name, its command line, its terminal flag, its icon and its category.
pub proof fn law_listed_apps_have_files(files: Seq<Desktop>, apps: Seq<App>, m: int)
    requires
        is_app_list(files, apps),
        0 <= m < apps.len(),
    ensures
        exists|i: int| 0 <= i < files.len() && shown_from(#[trigger] files[i], apps[m]),
{
    law_listed_apps_are_described(files, apps, m);
    let file = choose|file: Desktop| #[trigger]
        files.contains(file) && app_of(file) == Some(apps[m]);
    let i = choose|i: int| 0 <= i < files.len() && files[i] == file;
    assert(shown_from(files[i], apps[m]));
}

/// Of every file that is an application, neither kept from display nor hidden, with a name and a
/// command line, the name is listed, but for case.
pub proof fn law_files_to_show_are_listed(files: Seq<Desktop>, apps: Seq<App>, i: int)
    requires
        is_app_list(files, apps),
        0 <= i < files.len(),
        files[i].kind == "Application"@,
        !files[i].no_display,
        !files[i].hidden,
        files[i].name.len() > 0,
        files[i].command.len() > 0,
    ensures
        exists|m: int|
            0 <= m < apps.len() && text::same_ignoring_case(
                (#[trigger] apps[m]).name,
                files[i].name,
            ),
{
    law_described_apps_are_listed(files, apps, i);
}

/// Of a single file the application is listed if the file is one to show, and otherwise nothing is.
pub proof fn law_single_file_is_listed(file: Desktop, apps: Seq<App>)
    requires
        is_app_list(seq![file], apps),
    ensures
        file.kind == "Application"@ && !file.no_display && !file.hidden && file.name.len() > 0
            && file.command.len() > 0 ==> apps.len() == 1 && shown_from(file, apps[0]),
        file.kind != "Application"@ || file.no_display || file.hidden || file.name.len() == 0
            || file.command.len() == 0 ==> apps.len() == 0,
{
    let files = seq![file];
    let found = candidates(files);
    law_files_are_judged_alone(files, files, file);
    listing::law_what_is_kept(found, sort_keys(found), apps);
    let (order, kept) = choose|order: Seq<int>, kept: Seq<int>| #[trigger]
        listing::keeps(found, sort_keys(found), apps, order, kept);
    if found.len() == 1 {
        assert(order[0] == 0);
        assert(kept.contains(0));
        let m = choose|m: int| 0 <= m < kept.len() && kept[m] == 0;
        if kept.len() > 1 {
            assert(kept[0] < kept[1]);
        }
        assert(apps[0] == found[order[kept[0]]]);
    } else if kept.len() > 0 {
        assert(0 <= kept[0] < order.len());
    }
}

/// What is listed is a listing of what the files describe by their names in lower case.
pub proof fn law_sorted_by_lower_case(files: Seq<Desktop>, apps: Seq<App>)
    ensures
        is_app_list(files, apps) <==> listing::is_listing(
            candidates(files),
            Seq::new(
                candidates(files).len(),
                |i: int| text::lowercase(candidates(files)[i].name),
            ),
            apps,
        ),
{
    let found = candidates(files);
    assert(sort_keys(found) =~= Seq::new(
        found.len(),
        |i: int| text::lowercase(found[i].name),
    ));
}

} // verus!

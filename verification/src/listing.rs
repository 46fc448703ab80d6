//! The order of the applications in the menu.

use crate::desktop;
use crate::desktop::{App, AppEntry};
use crate::sequence;
use crate::text;
use vstd::prelude::*;

verus! {

/// Whether what stands at place `a` of a list with the given sort keys goes before what stands at
/// place `b`: its key comes first, or the keys are the same and it stands in front.
pub open spec fn goes_before(keys: Seq<Seq<char>>, a: int, b: int) -> bool {
    text::precedes(keys[a], keys[b]) || keys[a] == keys[b] && a < b
}

/// Whether `order` names the places of a list with the given sort keys in the order in which a
/// stable sort by the keys puts them.
pub open spec fn sorts(order: Seq<int>, keys: Seq<Seq<char>>) -> bool {
    &&& order.len() == keys.len()
    &&& forall|i: int| 0 <= i < order.len() ==> 0 <= #[trigger] order[i] < keys.len()
    &&& forall|i: int, j: int|
        0 <= i < j < order.len() ==> goes_before(keys, #[trigger] order[i], #[trigger] order[j])
}

/// Whether two applications have names that are the same but for case.
pub open spec fn same_name(a: App, b: App) -> bool {
    text::same_ignoring_case(a.name, b.name)
}

/// Whether the application at place `i` stands first among those next to it with its name.
pub open spec fn starts_run(apps: Seq<App>, i: int) -> bool {
    i == 0 || !same_name(apps[i - 1], apps[i])
}

/// `apps` with only the first of applications next to each other that have the same name but for
/// case.
pub open spec fn without_repeats(apps: Seq<App>) -> Seq<App>
    decreases apps.len(),
{
    if apps.len() == 0 {
        seq![]
    } else {
        let before = without_repeats(apps.drop_last());
        if starts_run(apps, apps.len() - 1) {
            before.push(apps.last())
        } else {
            before
        }
    }
}

/// Whether `listed` is what a stable sort of `apps` by `keys` gives, without repeats.
pub open spec fn is_listing(apps: Seq<App>, keys: Seq<Seq<char>>, listed: Seq<App>) -> bool {
    exists|order: Seq<int>| #[trigger]
        sorts(order, keys) && listed == without_repeats(sequence::reordered(apps, order))
}

/// Removes all but the first of applications next to each other that have the same name but for
/// case.
fn remove_repeats(apps: Vec<AppEntry>) -> (r: Vec<AppEntry>)
    ensures
        desktop::app_views(r@) == without_repeats(desktop::app_views(apps@)),
{
    let ghost all = desktop::app_views(apps@);
    let mut out: Vec<AppEntry> = Vec::new();
    for app in it: apps
        invariant
            it.seq() == apps@,
            all == desktop::app_views(apps@),
            desktop::app_views(out@) == without_repeats(all.take(it.index() as int)),
            it.index() > 0 ==> out@.len() > 0 && same_name(
                out@[out@.len() - 1]@,
                all[it.index() - 1],
            ),
    {
        let ghost i = it.index() as int;
        let ghost sofar = out@;
        let mut repeats: bool = false;
        if out.len() > 0 {
            let last: Vec<char> = text::chars_of(out[out.len() - 1].name.as_str());
            let name: Vec<char> = text::chars_of(app.name.as_str());
            repeats = text::eq_ignore_ascii_case(last.as_slice(), name.as_slice());
        }
        proof {
            assert(app@ == all[i]);
            assert(all.take(i + 1).drop_last() == all.take(i));
            if i > 0 {
                let last = sofar[sofar.len() - 1]@.name;
                text::lemma_same_ignoring_case(last, all[i - 1].name, all[i].name);
                text::lemma_same_ignoring_case(all[i - 1].name, last, all[i].name);
            } else {
                assert(without_repeats(all.take(0)).len() == 0);
            }
            text::lemma_same_ignoring_case(app@.name, app@.name, app@.name);
        }
        if !repeats {
            out.push(app);
            assert(desktop::app_views(out@) == desktop::app_views(sofar).push(all[i]));
        }
    }
    assert(all.take(all.len() as int) == all);
    out
}

/// Sorts applications by the keys given for them, those with the same key as they come, and removes
/// repeats.
pub fn arrange(apps: Vec<AppEntry>, keys: Vec<String>) -> (r: Vec<AppEntry>)
    requires
        apps@.len() == keys@.len(),
    ensures
        is_listing(desktop::app_views(apps@), text::views(keys@), desktop::app_views(r@)),
{
    let ghost all = apps@;
    let ghost all_keys = text::views(keys@);
    let mut rest: Vec<AppEntry> = apps;
    let mut rest_keys: Vec<String> = keys;
    let mut sorted: Vec<AppEntry> = Vec::new();
    let mut sorted_keys: Vec<Vec<char>> = Vec::new();
    let ghost mut order: Seq<int> = Seq::empty();
    while rest.len() > 0
        invariant
            all.len() == all_keys.len(),
            rest@.len() <= all.len(),
            rest@ == all.take(rest@.len() as int),
            text::views(rest_keys@) == all_keys.take(rest@.len() as int),
            order.len() == all.len() - rest@.len(),
            sorted@ == sequence::reordered(all, order),
            sorted_keys@.len() == order.len(),
            forall|i: int|
                0 <= i < order.len() ==> #[trigger] sorted_keys@[i]@ == all_keys[order[i]],
            forall|i: int|
                0 <= i < order.len() ==> rest@.len() <= #[trigger] order[i] < all.len(),
            forall|i: int, j: int|
                0 <= i < j < order.len() ==> goes_before(
                    all_keys,
                    #[trigger] order[i],
                    #[trigger] order[j],
                ),
        decreases rest@.len(),
    {
        let ghost n = rest@.len() - 1;
        assert(rest_keys@.len() == text::views(rest_keys@).len());
        assert(text::views(rest_keys@)[n] == all_keys[n]);
        let app: AppEntry = rest.pop().unwrap();
        let key_text: String = rest_keys.pop().unwrap();
        let key: Vec<char> = text::chars_of(key_text.as_str());
        assert(text::views(rest_keys@) =~= all_keys.take(n));
        assert(rest@ =~= all.take(n));
        let mut place: usize = 0;
        while place < sorted.len() && text::comes_before(
            sorted_keys[place].as_slice(),
            key.as_slice(),
        )
            invariant
                place <= sorted@.len() == order.len() == sorted_keys@.len(),
                key@ == all_keys[n],
                forall|i: int|
                    0 <= i < order.len() ==> #[trigger] sorted_keys@[i]@ == all_keys[order[i]],
                forall|i: int|
                    0 <= i < place ==> text::precedes(all_keys[#[trigger] order[i]], all_keys[n]),
            decreases sorted@.len() - place,
        {
            assert(sorted_keys@[place as int]@ == all_keys[order[place as int]]);
            place += 1;
        }
        proof {
            let old_order = order;
            let p = place as int;
            assert forall|j: int| p <= j < old_order.len() implies goes_before(
                all_keys,
                n,
                #[trigger] old_order[j],
            ) by {
                let at = all_keys[old_order[p]];
                let new = all_keys[n];
                let far = all_keys[old_order[j]];
                assert(sorted_keys@[p]@ == at);
                text::law_order_is_total(at, new);
                if p < j {
                    assert(goes_before(all_keys, old_order[p], old_order[j]));
                    if text::precedes(new, at) && text::precedes(at, far) {
                        text::law_order_is_transitive(new, at, far);
                    }
                }
            }
            order = old_order.insert(p, n);
            assert forall|i: int, j: int| 0 <= i < j < order.len() implies goes_before(
                all_keys,
                #[trigger] order[i],
                #[trigger] order[j],
            ) by {
                let x = if i < p {
                    i
                } else {
                    i - 1
                };
                let y = if j < p {
                    j
                } else {
                    j - 1
                };
                if i == p {
                    assert(order[j] == old_order[y]);
                } else if j == p {
                    assert(order[i] == old_order[x]);
                } else {
                    assert(order[i] == old_order[x] && order[j] == old_order[y]);
                }
            }
        }
        sorted.insert(place, app);
        sorted_keys.insert(place, key);
        assert(sorted@ =~= sequence::reordered(all, order));
    }
    assert(sorts(order, all_keys));
    assert(desktop::app_views(sorted@) =~= sequence::reordered(desktop::app_views(all), order));
    remove_repeats(sorted)
}

/// An order that sorts a list names each of its places once.
proof fn lemma_each_place_once(order: Seq<int>, keys: Seq<Seq<char>>)
    requires
        sorts(order, keys),
    ensures
        order.no_duplicates(),
        forall|x: int| 0 <= x < keys.len() ==> #[trigger] order.contains(x),
{
    assert forall|i: int, j: int| 0 <= i < j < order.len() implies order[i] != order[j] by {
        assert(goes_before(keys, order[i], order[j]));
        text::law_order_is_total(keys[order[i]], keys[order[j]]);
    }
    let places = vstd::set_lib::set_int_range(0, keys.len() as int);
    vstd::set_lib::lemma_int_range(0, keys.len() as int);
    order.unique_seq_to_set();
    assert(order.to_set().subset_of(places));
    vstd::set_lib::lemma_subset_equality(order.to_set(), places);
    assert forall|x: int| 0 <= x < keys.len() implies #[trigger] order.contains(x) by {
        assert(places.contains(x));
        assert(order.to_set().contains(x));
    }
}

/// What goes before what, among the places of a list, is never in doubt.
proof fn lemma_goes_before(keys: Seq<Seq<char>>, a: int, b: int, c: int)
    ensures
        a == b || goes_before(keys, a, b) || goes_before(keys, b, a),
        !(goes_before(keys, a, b) && goes_before(keys, b, a)),
        goes_before(keys, a, b) && goes_before(keys, b, c) ==> goes_before(keys, a, c),
{
    text::law_order_is_total(keys[a], keys[b]);
    if text::precedes(keys[a], keys[b]) && text::precedes(keys[b], keys[c]) {
        text::law_order_is_transitive(keys[a], keys[b], keys[c]);
    }
}

/// Sorting has one outcome: no two orders sort the same list.
pub proof fn law_one_order(p: Seq<int>, q: Seq<int>, keys: Seq<Seq<char>>)
    requires
        sorts(p, keys),
        sorts(q, keys),
    ensures
        p == q,
{
    lemma_same_to(p, q, keys, p.len() as int);
    assert(p =~= q);
}

/// Two orders that sort the same list agree on its first `n` places.
proof fn lemma_same_to(p: Seq<int>, q: Seq<int>, keys: Seq<Seq<char>>, n: int)
    requires
        sorts(p, keys),
        sorts(q, keys),
        0 <= n <= keys.len(),
    ensures
        forall|i: int| 0 <= i < n ==> #[trigger] p[i] == q[i],
    decreases n,
{
    if n > 0 {
        lemma_same_to(p, q, keys, n - 1);
        lemma_each_place_once(p, keys);
        lemma_each_place_once(q, keys);
        let (x, y) = (p[n - 1], q[n - 1]);
        assert(q.contains(x) && p.contains(y));
        let i = choose|i: int| 0 <= i < q.len() && q[i] == x;
        let j = choose|j: int| 0 <= j < p.len() && p[j] == y;
        if i < n - 1 {
            assert(p[i] == q[i]);
        }
        if j < n - 1 {
            assert(p[j] == q[j]);
        }
        if x != y {
            assert(goes_before(keys, q[n - 1], q[i]));
            assert(goes_before(keys, p[n - 1], p[j]));
            lemma_goes_before(keys, x, y, x);
        }
    }
}

/// What is listed is determined by the applications and their sort keys.
pub proof fn law_one_listing(apps: Seq<App>, keys: Seq<Seq<char>>, a: Seq<App>, b: Seq<App>)
    requires
        is_listing(apps, keys, a),
        is_listing(apps, keys, b),
    ensures
        a == b,
{
    let p = choose|order: Seq<int>| #[trigger]
        sorts(order, keys) && a == without_repeats(sequence::reordered(apps, order));
    let q = choose|order: Seq<int>| #[trigger]
        sorts(order, keys) && b == without_repeats(sequence::reordered(apps, order));
    law_one_order(p, q, keys);
}

/// The places of those applications that removing repeats keeps: in order, all of them and only
/// them where an application stands first among those next to it with its name.
proof fn lemma_kept_places(apps: Seq<App>) -> (kept: Seq<int>)
    ensures
        kept.len() == without_repeats(apps).len(),
        forall|m: int|
            0 <= m < kept.len() ==> 0 <= #[trigger] kept[m] < apps.len() && starts_run(
                apps,
                kept[m],
            ) && without_repeats(apps)[m] == apps[kept[m]],
        forall|m: int, n: int|
            0 <= m < n < kept.len() ==> #[trigger] kept[m] < #[trigger] kept[n],
        forall|i: int|
            0 <= i < apps.len() && #[trigger] starts_run(apps, i) ==> kept.contains(i),
    decreases apps.len(),
{
    if apps.len() == 0 {
        seq![]
    } else {
        let less = apps.drop_last();
        let last = apps.len() - 1;
        let before = lemma_kept_places(less);
        assert forall|i: int| 0 <= i < last implies starts_run(less, i) == #[trigger] starts_run(
            apps,
            i,
        ) by {}
        let kept = if starts_run(apps, last) {
            before.push(last)
        } else {
            before
        };
        assert forall|m: int| 0 <= m < kept.len() implies 0 <= #[trigger] kept[m] < apps.len()
            && starts_run(apps, kept[m]) && without_repeats(apps)[m] == apps[kept[m]] by {
            if m < before.len() {
                assert(kept[m] == before[m]);
                assert(starts_run(less, before[m]));
            }
        }
        assert forall|i: int| 0 <= i < apps.len() && #[trigger] starts_run(
            apps,
            i,
        ) implies kept.contains(i) by {
            if i < last {
                assert(starts_run(less, i));
                let m = choose|m: int| 0 <= m < before.len() && before[m] == i;
                assert(kept[m] == i);
            } else {
                assert(kept[kept.len() - 1] == i);
            }
        }
        kept
    }
}

/// In front of each application, or at its own place, one with its name is kept.
proof fn lemma_run_start(apps: Seq<App>, i: int) -> (j: int)
    requires
        0 <= i < apps.len(),
    ensures
        0 <= j <= i,
        starts_run(apps, j),
        same_name(apps[j], apps[i]),
    decreases i,
{
    text::lemma_same_ignoring_case(apps[i].name, apps[i].name, apps[i].name);
    if starts_run(apps, i) {
        i
    } else {
        let j = lemma_run_start(apps, i - 1);
        text::lemma_same_ignoring_case(apps[j].name, apps[i - 1].name, apps[i].name);
        j
    }
}

/// Nothing is made up: whatever is listed is one of the applications.
pub proof fn law_nothing_made_up(
    apps: Seq<App>,
    keys: Seq<Seq<char>>,
    listed: Seq<App>,
    m: int,
)
    requires
        apps.len() == keys.len(),
        is_listing(apps, keys, listed),
        0 <= m < listed.len(),
    ensures
        apps.contains(listed[m]),
{
    let order = choose|order: Seq<int>| #[trigger]
        sorts(order, keys) && listed == without_repeats(sequence::reordered(apps, order));
    let kept = lemma_kept_places(sequence::reordered(apps, order));
    assert(listed[m] == apps[order[kept[m]]]);
}

/// Nothing is lost: whatever application is given, one with its name, but for case, is listed.
pub proof fn law_nothing_lost(apps: Seq<App>, keys: Seq<Seq<char>>, listed: Seq<App>, i: int)
    requires
        apps.len() == keys.len(),
        is_listing(apps, keys, listed),
        0 <= i < apps.len(),
    ensures
        exists|m: int| 0 <= m < listed.len() && same_name(#[trigger] listed[m], apps[i]),
{
    let order = choose|order: Seq<int>| #[trigger]
        sorts(order, keys) && listed == without_repeats(sequence::reordered(apps, order));
    let sorted = sequence::reordered(apps, order);
    let kept = lemma_kept_places(sorted);
    lemma_each_place_once(order, keys);
    assert(order.contains(i));
    let at = choose|at: int| 0 <= at < order.len() && order[at] == i;
    let start = lemma_run_start(sorted, at);
    assert(kept.contains(start));
    let m = choose|m: int| 0 <= m < kept.len() && kept[m] == start;
    assert(listed[m] == sorted[start]);
}

/// Neighbours in the list never have the same name but for case.
pub proof fn law_neighbours_differ(
    apps: Seq<App>,
    keys: Seq<Seq<char>>,
    listed: Seq<App>,
    m: int,
)
    requires
        is_listing(apps, keys, listed),
        0 <= m < listed.len() - 1,
    ensures
        !same_name(listed[m], listed[m + 1]),
{
    let order = choose|order: Seq<int>| #[trigger]
        sorts(order, keys) && listed == without_repeats(sequence::reordered(apps, order));
    lemma_neighbours_differ(sequence::reordered(apps, order));
}

proof fn lemma_neighbours_differ(apps: Seq<App>)
    ensures
        apps.len() > 0 ==> without_repeats(apps).len() > 0 && same_name(
            without_repeats(apps).last(),
            apps.last(),
        ),
        forall|m: int|
            0 < m < without_repeats(apps).len() ==> !same_name(
                without_repeats(apps)[m - 1],
                #[trigger] without_repeats(apps)[m],
            ),
    decreases apps.len(),
{
    if apps.len() > 0 {
        let less = apps.drop_last();
        let (before, last) = (without_repeats(less), apps.last());
        lemma_neighbours_differ(less);
        text::lemma_same_ignoring_case(last.name, last.name, last.name);
        if less.len() > 0 {
            let (kept, near) = (before.last().name, less.last().name);
            text::lemma_same_ignoring_case(kept, near, last.name);
            text::lemma_same_ignoring_case(near, kept, last.name);
        }
    }
}

/// Whether the applications with the name, but for case, of the one at place `i` stay together when
/// the list is sorted: they have one sort key, and nothing with that key and another name stands
/// between two of them.
pub open spec fn name_stays_together(apps: Seq<App>, keys: Seq<Seq<char>>, i: int) -> bool {
    &&& forall|j: int|
        0 <= j < apps.len() && same_name(#[trigger] apps[j], apps[i]) ==> keys[j] == keys[i]
    &&& forall|x: int, k: int, y: int|
        0 <= x < k < y < apps.len() && same_name(#[trigger] apps[x], apps[i]) && same_name(
            #[trigger] apps[y],
            apps[i],
        ) && keys[k] == keys[i] ==> same_name(#[trigger] apps[k], apps[i])
}

/// Whether that holds of the name of every application.
pub open spec fn names_stay_together(apps: Seq<App>, keys: Seq<Seq<char>>) -> bool {
    forall|i: int| 0 <= i < apps.len() ==> #[trigger] name_stays_together(apps, keys, i)
}

/// Of a name that stays together nothing is kept but the first.
proof fn lemma_nothing_kept_behind(
    apps: Seq<App>,
    keys: Seq<Seq<char>>,
    order: Seq<int>,
    i: int,
    p: int,
    q: int,
)
    requires
        apps.len() == keys.len(),
        sorts(order, keys),
        0 <= i < apps.len(),
        name_stays_together(apps, keys, i),
        0 <= p < q < order.len(),
        same_name(apps[order[p]], apps[i]),
        same_name(apps[order[q]], apps[i]),
    ensures
        !starts_run(sequence::reordered(apps, order), q),
{
    let (a, b, k) = (order[p], order[q], order[q - 1]);
    let name = apps[i].name;
    assert(keys[a] == keys[i] && keys[b] == keys[i]);
    if p < q - 1 {
        assert(goes_before(keys, order[p], order[q - 1]));
        assert(goes_before(keys, order[q - 1], order[q]));
        text::law_order_is_total(keys[a], keys[k]);
        assert(a < k < b && keys[k] == keys[i]);
    }
    assert(same_name(apps[k], apps[i]));
    text::lemma_same_ignoring_case(apps[b].name, name, name);
    text::lemma_same_ignoring_case(apps[k].name, name, apps[b].name);
}

/// A name that stays together is listed once: of the applications with that name, but for case, the
/// one that was given first stands in the list, and no other entry of the list has the name.
pub proof fn law_name_listed_once(apps: Seq<App>, keys: Seq<Seq<char>>, listed: Seq<App>, i: int)
    requires
        apps.len() == keys.len(),
        is_listing(apps, keys, listed),
        first_of_name(apps, i),
        name_stays_together(apps, keys, i),
    ensures
        exists|m: int| #[trigger] stands_alone_at(listed, apps[i], m),
{
    let order = choose|order: Seq<int>| #[trigger]
        sorts(order, keys) && listed == without_repeats(sequence::reordered(apps, order));
    let sorted = sequence::reordered(apps, order);
    let kept = lemma_kept_places(sorted);
    lemma_each_place_once(order, keys);
    assert(order.contains(i));
    let q = choose|q: int| 0 <= q < order.len() && order[q] == i;
    let start = lemma_run_start(sorted, q);
    if start < q {
        assert(goes_before(keys, order[start], order[q]));
        text::law_order_is_total(keys[order[start]], keys[i]);
        assert(same_name(apps[order[start]], apps[i]));
        assert(false);
    }
    assert(kept.contains(q));
    let m = choose|m: int| 0 <= m < kept.len() && kept[m] == q;
    assert(listed[m] == apps[i]);
    assert forall|n: int| 0 <= n < listed.len() && n != m implies !same_name(
        #[trigger] listed[n],
        apps[i],
    ) by {
        let r = kept[n];
        if same_name(listed[n], apps[i]) {
            text::lemma_same_ignoring_case(apps[i].name, apps[i].name, apps[i].name);
            if n < m {
                assert(kept[n] < kept[m]);
                lemma_nothing_kept_behind(apps, keys, order, i, r, q);
            } else {
                assert(kept[m] < kept[n]);
                lemma_nothing_kept_behind(apps, keys, order, i, q, r);
            }
        }
    }
    assert(stands_alone_at(listed, apps[i], m));
}

/// Whether `app` stands at place `m` of a list and nothing else there has its name but for case.
pub open spec fn stands_alone_at(listed: Seq<App>, app: App, m: int) -> bool {
    &&& 0 <= m < listed.len()
    &&& listed[m] == app
    &&& forall|n: int|
        0 <= n < listed.len() && n != m ==> !same_name(#[trigger] listed[n], app)
}

/// Where all names stay together, no two of the applications listed have the same name but for
/// case, and of those with one name the listed one is that which was given first.
pub proof fn law_each_name_once(apps: Seq<App>, keys: Seq<Seq<char>>, listed: Seq<App>)
    requires
        apps.len() == keys.len(),
        is_listing(apps, keys, listed),
        names_stay_together(apps, keys),
    ensures
        forall|m: int, n: int|
            0 <= m < n < listed.len() ==> !same_name(#[trigger] listed[m], #[trigger] listed[n]),
        forall|m: int|
            0 <= m < listed.len() ==> exists|i: int|
                0 <= i < apps.len() && #[trigger] apps[i] == #[trigger] listed[m] && forall|j: int|
                    0 <= j < i ==> !same_name(#[trigger] apps[j], apps[i]),
{
    assert forall|m: int, n: int| 0 <= m < n < listed.len() implies !same_name(
        #[trigger] listed[m],
        #[trigger] listed[n],
    ) by {
        let i = lemma_listed_is_first(apps, keys, listed, n);
        assert(!same_name(listed[m], apps[i]));
    }
    assert forall|m: int| 0 <= m < listed.len() implies exists|i: int|
        0 <= i < apps.len() && #[trigger] apps[i] == #[trigger] listed[m] && forall|j: int|
            0 <= j < i ==> !same_name(#[trigger] apps[j], apps[i]) by {
        let i = lemma_listed_is_first(apps, keys, listed, m);
        assert(apps[i] == listed[m]);
    }
}

/// Where all names stay together, the place at which an application that is listed was given.
proof fn lemma_listed_is_first(apps: Seq<App>, keys: Seq<Seq<char>>, listed: Seq<App>, m: int) -> (i:
    int)
    requires
        apps.len() == keys.len(),
        is_listing(apps, keys, listed),
        names_stay_together(apps, keys),
        0 <= m < listed.len(),
    ensures
        first_of_name(apps, i),
        stands_alone_at(listed, apps[i], m),
{
    law_nothing_made_up(apps, keys, listed, m);
    let k = choose|k: int| 0 <= k < apps.len() && apps[k] == listed[m];
    let i = lemma_first_with_name(apps, k);
    assert(name_stays_together(apps, keys, i));
    law_name_listed_once(apps, keys, listed, i);
    let n = choose|n: int| #[trigger] stands_alone_at(listed, apps[i], n);
    text::lemma_same_ignoring_case(listed[m].name, apps[i].name, listed[m].name);
    assert(n == m);
    i
}

/// Whether no application in front of the one at place `i` has its name but for case.
pub open spec fn first_of_name(apps: Seq<App>, i: int) -> bool {
    &&& 0 <= i < apps.len()
    &&& forall|j: int| 0 <= j < i ==> !same_name(#[trigger] apps[j], apps[i])
}

/// The place of the first application with the name of the one at place `k`.
proof fn lemma_first_with_name(apps: Seq<App>, k: int) -> (i: int)
    requires
        0 <= k < apps.len(),
    ensures
        first_of_name(apps, i),
        same_name(apps[i], apps[k]),
    decreases k,
{
    text::lemma_same_ignoring_case(apps[k].name, apps[k].name, apps[k].name);
    if exists|j: int| 0 <= j < k && same_name(#[trigger] apps[j], apps[k]) {
        let j = choose|j: int| 0 <= j < k && same_name(#[trigger] apps[j], apps[k]);
        let i = lemma_first_with_name(apps, j);
        text::lemma_same_ignoring_case(apps[i].name, apps[j].name, apps[k].name);
        i
    } else {
        k
    }
}

/// What is listed is in the order of the sort keys: of two applications listed, the one in front was
/// given with a key that does not come after that of the other.
pub proof fn law_listed_in_order(
    apps: Seq<App>,
    keys: Seq<Seq<char>>,
    listed: Seq<App>,
    m: int,
    n: int,
)
    requires
        apps.len() == keys.len(),
        is_listing(apps, keys, listed),
        0 <= m < n < listed.len(),
    ensures
        exists|i: int, j: int|
            0 <= i < apps.len() && 0 <= j < apps.len() && listed[m] == apps[i] && listed[n]
                == apps[j] && #[trigger] goes_before(keys, i, j),
{
    let order = choose|order: Seq<int>| #[trigger]
        sorts(order, keys) && listed == without_repeats(sequence::reordered(apps, order));
    let kept = lemma_kept_places(sequence::reordered(apps, order));
    assert(kept[m] < kept[n]);
    assert(goes_before(keys, order[kept[m]], order[kept[n]]));
}

/// The sort keys that `key` gives a list of applications.
pub open spec fn keys_by(apps: Seq<App>, key: spec_fn(App) -> Seq<char>) -> Seq<Seq<char>> {
    Seq::new(apps.len(), |i: int| key(apps[i]))
}

/// The rule that keeps the applications with sort key `k`.
pub open spec fn with_key(
    key: spec_fn(App) -> Seq<char>,
    k: Seq<char>,
) -> spec_fn(App) -> Option<App> {
    |app: App|
        if key(app) == k {
            Some(app)
        } else {
            None
        }
}

/// Whether the sort keys of a list never go down.
spec fn never_down(s: Seq<App>, key: spec_fn(App) -> Seq<char>) -> bool {
    forall|i: int, j: int|
        0 <= i < j < s.len() ==> !text::precedes(#[trigger] key(s[j]), #[trigger] key(s[i]))
}

/// Two lists in the order of their sort keys that have the same applications with each key, in the
/// same order, are the same.
proof fn lemma_one_sorted_list(a: Seq<App>, b: Seq<App>, key: spec_fn(App) -> Seq<char>)
    requires
        never_down(a, key),
        never_down(b, key),
        forall|k: Seq<char>|
            a.filter_map(with_key(key, k)) == #[trigger] b.filter_map(with_key(key, k)),
    ensures
        a == b,
    decreases a.len(),
{
    if a.len() == 0 {
        if b.len() > 0 {
            let rule = with_key(key, key(b.last()));
            assert(a.filter_map(rule) == b.filter_map(rule));
        }
        assert(a =~= b);
    } else {
        let x = a.last();
        let rule = with_key(key, key(x));
        let kept = b.filter_map(rule);
        assert(a.filter_map(rule) == kept);
        assert(kept.last() == x);
        assert(b.len() > 0);
        let y = b.last();
        assert(kept.contains(kept[kept.len() - 1]));
        b.lemma_filter_map_contains(rule, x);
        assert(b.contains(x));
        let i = choose|i: int| 0 <= i < b.len() && b[i] == x;
        let back = with_key(key, key(y));
        assert(a.filter_map(back) == b.filter_map(back));
        let other = a.filter_map(back);
        assert(other.last() == y);
        assert(other.contains(other[other.len() - 1]));
        a.lemma_filter_map_contains(back, y);
        assert(a.contains(y));
        let j = choose|j: int| 0 <= j < a.len() && a[j] == y;
        text::law_order_is_total(key(x), key(y));
        assert(i < b.len() - 1 ==> !text::precedes(key(b[b.len() - 1]), key(b[i])));
        assert(j < a.len() - 1 ==> !text::precedes(key(a[a.len() - 1]), key(a[j])));
        text::law_order_is_total(key(x), key(x));
        text::law_order_is_total(key(y), key(y));
        assert(key(x) == key(y));
        assert(x == y);
        let (c, d) = (a.drop_last(), b.drop_last());
        assert forall|i: int, j: int| 0 <= i < j < c.len() implies !text::precedes(
            #[trigger] key(c[j]),
            #[trigger] key(c[i]),
        ) by {
            assert(!text::precedes(key(a[j]), key(a[i])));
        }
        assert forall|i: int, j: int| 0 <= i < j < d.len() implies !text::precedes(
            #[trigger] key(d[j]),
            #[trigger] key(d[i]),
        ) by {
            assert(!text::precedes(key(b[j]), key(b[i])));
        }
        assert forall|k: Seq<char>|
            c.filter_map(with_key(key, k)) == #[trigger] d.filter_map(with_key(key, k)) by {
            let rule = with_key(key, k);
            assert(a.filter_map(rule) == b.filter_map(rule));
            if key(x) == k {
                assert(c.filter_map(rule) =~= a.filter_map(rule).drop_last());
                assert(d.filter_map(rule) =~= b.filter_map(rule).drop_last());
            }
        }
        lemma_one_sorted_list(c, d, key);
        assert(a =~= c.push(x));
        assert(b =~= d.push(y));
    }
}

/// The order in which applications are given matters only among those with the same sort key: where
/// two lists have the same applications with each key, in the same order, the same is listed.
pub proof fn law_order_matters_within_keys(
    a: Seq<App>,
    b: Seq<App>,
    key: spec_fn(App) -> Seq<char>,
    listed_a: Seq<App>,
    listed_b: Seq<App>,
)
    requires
        is_listing(a, keys_by(a, key), listed_a),
        is_listing(b, keys_by(b, key), listed_b),
        forall|k: Seq<char>|
            a.filter_map(with_key(key, k)) == #[trigger] b.filter_map(with_key(key, k)),
    ensures
        listed_a == listed_b,
{
    let p = choose|order: Seq<int>| #[trigger]
        sorts(order, keys_by(a, key)) && listed_a == without_repeats(sequence::reordered(a, order));
    let q = choose|order: Seq<int>| #[trigger]
        sorts(order, keys_by(b, key)) && listed_b == without_repeats(sequence::reordered(b, order));
    let (x, y) = (sequence::reordered(a, p), sequence::reordered(b, q));
    lemma_sorted_by_key(a, p, key);
    lemma_sorted_by_key(b, q, key);
    assert forall|k: Seq<char>|
        x.filter_map(with_key(key, k)) == #[trigger] y.filter_map(with_key(key, k)) by {
        let rule = with_key(key, k);
        assert(x.filter_map(rule) == a.filter_map(rule));
        assert(a.filter_map(rule) == b.filter_map(rule));
        assert(y.filter_map(rule) == b.filter_map(rule));
    }
    lemma_one_sorted_list(x, y, key);
}

/// A stable sort puts the keys in order, and leaves what has the same key in order.
proof fn lemma_sorted_by_key(a: Seq<App>, order: Seq<int>, key: spec_fn(App) -> Seq<char>)
    requires
        sorts(order, keys_by(a, key)),
    ensures
        never_down(sequence::reordered(a, order), key),
        forall|k: Seq<char>| #[trigger]
            sequence::reordered(a, order).filter_map(with_key(key, k)) == a.filter_map(with_key(key, k)),
{
    let keys = keys_by(a, key);
    lemma_each_place_once(order, keys);
    let x = sequence::reordered(a, order);
    assert forall|i: int, j: int| 0 <= i < j < x.len() implies !text::precedes(
        #[trigger] key(x[j]),
        #[trigger] key(x[i]),
    ) by {
        assert(goes_before(keys, order[i], order[j]));
        text::law_order_is_total(keys[order[i]], keys[order[j]]);
    }
    assert forall|k: Seq<char>| #[trigger]
        x.filter_map(with_key(key, k)) == a.filter_map(with_key(key, k)) by {
        let rule = with_key(key, k);
        assert forall|i: int, j: int|
            0 <= i < j < order.len() && rule(a[#[trigger] order[i]]) is Some && rule(
                a[#[trigger] order[j]],
            ) is Some implies order[i] < order[j] by {
            assert(goes_before(keys, order[i], order[j]));
            text::law_order_is_total(keys[order[i]], keys[order[j]]);
        }
        sequence::lemma_kept_of_reordered(a, order, rule);
    }
}

/// Two applications have one name just if their names are the same but for case, whatever else they
/// hold.
pub proof fn law_names_decide(a: App, b: App)
    ensures
        same_name(a, b) <==> text::same_ignoring_case(a.name, b.name),
{
}

/// An order sorts a list just if it names every place of it once, no key stands behind one that it
/// comes before, and places with one key stay as they were.
pub proof fn law_stable_sort(order: Seq<int>, keys: Seq<Seq<char>>)
    ensures
        sorts(order, keys) <==> {
            &&& order.len() == keys.len()
            &&& order.no_duplicates()
            &&& forall|i: int| 0 <= i < order.len() ==> 0 <= #[trigger] order[i] < keys.len()
            &&& forall|i: int, j: int|
                0 <= i < j < order.len() ==> !text::precedes(
                    keys[#[trigger] order[j]],
                    keys[#[trigger] order[i]],
                )
            &&& forall|i: int, j: int|
                0 <= i < j < order.len() && keys[#[trigger] order[i]] == keys[#[trigger] order[j]]
                    ==> order[i] < order[j]
        },
{
    if sorts(order, keys) {
        lemma_each_place_once(order, keys);
    }
    assert forall|i: int, j: int| 0 <= i < j < order.len() implies (goes_before(
        keys,
        #[trigger] order[i],
        #[trigger] order[j],
    ) <==> !text::precedes(keys[order[j]], keys[order[i]]) && (keys[order[i]] == keys[order[j]]
        ==> order[i] < order[j])) by {
        text::law_order_is_total(keys[order[i]], keys[order[j]]);
    }
}

/// Whether `listed` is what stands at the places `kept` of the applications in the given order:
/// `order` puts the keys in order and leaves places with one key as they were, and the places kept
/// are, in order, just those behind no application with the same name but for case.
pub open spec fn keeps(
    apps: Seq<App>,
    keys: Seq<Seq<char>>,
    listed: Seq<App>,
    order: Seq<int>,
    kept: Seq<int>,
) -> bool {
    &&& sequence::rearranges(order, apps.len())
    &&& forall|i: int, j: int|
        0 <= i < j < order.len() ==> !text::precedes(
            keys[#[trigger] order[j]],
            keys[#[trigger] order[i]],
        )
    &&& forall|i: int, j: int|
        0 <= i < j < order.len() && keys[#[trigger] order[i]] == keys[#[trigger] order[j]]
            ==> order[i] < order[j]
    &&& kept.len() == listed.len()
    &&& forall|m: int|
        0 <= m < kept.len() ==> 0 <= #[trigger] kept[m] < order.len() && listed[m]
            == apps[order[kept[m]]]
    &&& forall|m: int, n: int| 0 <= m < n < kept.len() ==> #[trigger] kept[m] < #[trigger] kept[n]
    &&& forall|q: int|
        0 <= q < order.len() ==> (#[trigger] kept.contains(q) <==> q == 0
            || !text::same_ignoring_case(apps[order[q - 1]].name, apps[order[q]].name))
}

/// What is listed are the applications in the order of their keys, those with one key as they were
/// given, and of these all but the ones right behind an application with the same name but for case.
pub proof fn law_what_is_kept(apps: Seq<App>, keys: Seq<Seq<char>>, listed: Seq<App>)
    requires
        apps.len() == keys.len(),
        is_listing(apps, keys, listed),
    ensures
        exists|order: Seq<int>, kept: Seq<int>| #[trigger] keeps(apps, keys, listed, order, kept),
{
    let order = choose|order: Seq<int>| #[trigger]
        sorts(order, keys) && listed == without_repeats(sequence::reordered(apps, order));
    let sorted = sequence::reordered(apps, order);
    let kept = lemma_kept_places(sorted);
    lemma_each_place_once(order, keys);
    law_stable_sort(order, keys);
    assert forall|q: int| 0 <= q < order.len() implies (#[trigger] kept.contains(q) <==> q == 0
        || !text::same_ignoring_case(apps[order[q - 1]].name, apps[order[q]].name)) by {
        assert(starts_run(sorted, q) <==> q == 0 || !text::same_ignoring_case(
            apps[order[q - 1]].name,
            apps[order[q]].name,
        ));
        if kept.contains(q) {
            let m = choose|m: int| 0 <= m < kept.len() && kept[m] == q;
            assert(starts_run(sorted, kept[m]));
        }
    }
    assert(keeps(apps, keys, listed, order, kept));
}

} // verus!

//! The categories of the menu, and the category that an application goes to.

use crate::text;
use vstd::prelude::*;
use vstd::slice::slice_subrange;

verus! {

/// The categories in the order in which the menu shows them: the title of each and the name of its
/// icon.
pub open spec fn buckets() -> Seq<(Seq<char>, Seq<char>)> {
    seq![
        ("Internet"@, "web-browser-symbolic"@),
        ("Sound & Video"@, "applications-multimedia-symbolic"@),
        ("Graphics"@, "applications-graphics-symbolic"@),
        ("Documents"@, "x-office-document-symbolic"@),
        ("Utilities"@, "applications-utilities-symbolic"@),
        ("System"@, "applications-system-symbolic"@),
        ("Games"@, "applications-games-symbolic"@),
    ]
}

/// Whether `title` is the title of a category.
pub open spec fn is_bucket(title: Seq<char>) -> bool {
    exists|i: int| 0 <= i < buckets().len() && #[trigger] buckets()[i].0 == title
}

/// Whether the characters of `s` from place `a` up to place `b` are one of the pieces into which
/// semicolons divide it.
pub open spec fn is_piece(s: Seq<char>, a: int, b: int) -> bool {
    &&& 0 <= a <= b <= s.len()
    &&& a == 0 || s[a - 1] == ';'
    &&& b == s.len() || s[b] == ';'
    &&& forall|i: int| a <= i < b ==> #[trigger] s[i] != ';'
}

/// Whether the list `categories` holds `c`: one of its pieces is `c`, but for white space around it
/// and the case of its letters.
pub open spec fn holds(categories: Seq<char>, c: Seq<char>) -> bool {
    exists|a: int, b: int| #[trigger]
        is_piece(categories, a, b) && text::same_ignoring_case(text::trim(categories.subrange(a, b)), c)
}

/// The title of the category that an application with the given list of desktop categories goes to.
/// The rules have a fixed priority: the first that applies decides.
pub open spec fn bucket_of(categories: Seq<char>) -> Seq<char> {
    let listed = |c: Seq<char>| holds(categories, c);
    if listed("Game"@) {
        "Games"@
    } else if listed("WebBrowser"@) || listed("Network"@) {
        "Internet"@
    } else if listed("AudioVideo"@) || listed("Audio"@) || listed("Video"@) || listed("Player"@) {
        "Sound & Video"@
    } else if listed("Graphics"@) || listed("2DGraphics"@) || listed("RasterGraphics"@) {
        "Graphics"@
    } else if listed("Office"@) || listed("Viewer"@) {
        "Documents"@
    } else if listed("Settings"@) || listed("TerminalEmulator"@) || listed("Monitor"@) {
        "System"@
    } else if listed("FileManager"@) || listed("TextEditor"@) || listed("Development"@) || listed(
        "Utility"@,
    ) {
        "Utilities"@
    } else if listed("System"@) {
        "System"@
    } else {
        "Utilities"@
    }
}

/// The categories in the order in which the menu shows them: the title of each and the name of its
/// icon.
pub fn bucket_list() -> (r: Vec<(&'static str, &'static str)>)
    ensures
        r@.len() == buckets().len(),
        forall|i: int| 0 <= i < r@.len() ==> (#[trigger] r@[i].0@, r@[i].1@) == buckets()[i],
{
    vec![
        ("Internet", "web-browser-symbolic"),
        ("Sound & Video", "applications-multimedia-symbolic"),
        ("Graphics", "applications-graphics-symbolic"),
        ("Documents", "x-office-document-symbolic"),
        ("Utilities", "applications-utilities-symbolic"),
        ("System", "applications-system-symbolic"),
        ("Games", "applications-games-symbolic"),
    ]
}

/// Whether the list `categories` holds `c`.
fn has_category(categories: &[char], c: &str) -> (r: bool)
    ensures
        r == holds(categories@, c@),
{
    let wanted: Vec<char> = text::chars_of(c);
    let ghost s = categories@;
    let mut start: usize = 0;
    let mut i: usize = 0;
    loop
        invariant
            s == categories@,
            wanted@ == c@,
            start <= i <= s.len(),
            start == 0 || s[start - 1] == ';',
            forall|k: int| start <= k < i ==> #[trigger] s[k] != ';',
            forall|a: int, b: int| #[trigger]
                is_piece(s, a, b) && a < start ==> !text::same_ignoring_case(
                    text::trim(s.subrange(a, b)),
                    c@,
                ),
        decreases s.len() - i,
    {
        if i == categories.len() || categories[i] == ';' {
            let piece: &[char] = slice_subrange(categories, start, i);
            assert(is_piece(s, start as int, i as int));
            if text::eq_ignore_ascii_case(text::trimmed(piece), wanted.as_slice()) {
                return true;
            }
            assert forall|a: int, b: int| #[trigger]
                is_piece(s, a, b) && a < i + 1 implies !text::same_ignoring_case(
                text::trim(s.subrange(a, b)),
                c@,
            ) by {
                if a > start {
                    assert(s[a - 1] != ';');
                } else if a == start {
                    if b < i {
                        assert(s[b] != ';');
                    } else if b > i {
                        assert(s[i as int] != ';');
                    }
                }
            }
            if i == categories.len() {
                return false;
            }
            start = i + 1;
        }
        i += 1;
    }
}

/// The title of the category that an application with the given list of desktop categories goes to.
pub fn bucket_for(categories: &str) -> (r: &'static str)
    ensures
        r@ == bucket_of(categories@),
{
    let chars: Vec<char> = text::chars_of(categories);
    let list: &[char] = chars.as_slice();
    if has_category(list, "Game") {
        "Games"
    } else if has_category(list, "WebBrowser") || has_category(list, "Network") {
        "Internet"
    } else if has_category(list, "AudioVideo") || has_category(list, "Audio") || has_category(
        list,
        "Video",
    ) || has_category(list, "Player") {
        "Sound & Video"
    } else if has_category(list, "Graphics") || has_category(list, "2DGraphics") || has_category(
        list,
        "RasterGraphics",
    ) {
        "Graphics"
    } else if has_category(list, "Office") || has_category(list, "Viewer") {
        "Documents"
    } else if has_category(list, "Settings") {
        "System"
    } else if has_category(list, "TerminalEmulator") || has_category(list, "Monitor") {
        "System"
    } else if has_category(list, "FileManager") || has_category(list, "TextEditor") || has_category(
        list,
        "Development",
    ) || has_category(list, "Utility") {
        "Utilities"
    } else if has_category(list, "System") {
        "System"
    } else {
        "Utilities"
    }
}

/// Every application goes to one of the categories of the menu.
pub proof fn law_bucket_is_listed(categories: Seq<char>)
    ensures
        is_bucket(bucket_of(categories)),
{
    let b = buckets();
    assert(b[0].0 == "Internet"@);
    assert(b[1].0 == "Sound & Video"@);
    assert(b[2].0 == "Graphics"@);
    assert(b[3].0 == "Documents"@);
    assert(b[4].0 == "Utilities"@);
    assert(b[5].0 == "System"@);
    assert(b[6].0 == "Games"@);
}

/// No two categories have the same title.
pub proof fn law_titles_are_distinct(i: int, j: int)
    requires
        0 <= i < j < buckets().len(),
    ensures
        buckets()[i].0 != buckets()[j].0,
{
    reveal_strlit("Internet");
    reveal_strlit("Sound & Video");
    reveal_strlit("Graphics");
    reveal_strlit("Documents");
    reveal_strlit("Utilities");
    reveal_strlit("System");
    reveal_strlit("Games");
    let b = buckets();
    assert(b[0].0[0] == 'I');
    assert(b[1].0[0] == 'S' && b[1].0.len() == 13);
    assert(b[2].0[0] == 'G' && b[2].0.len() == 8);
    assert(b[3].0[0] == 'D');
    assert(b[4].0[0] == 'U');
    assert(b[5].0[0] == 'S' && b[5].0.len() == 6);
    assert(b[6].0[0] == 'G' && b[6].0.len() == 5);
}

/// Two lists joined by a semicolon hold what either of them holds.
pub proof fn law_joined_lists(x: Seq<char>, y: Seq<char>, c: Seq<char>)
    ensures
        holds(x + seq![';'] + y, c) == (holds(x, c) || holds(y, c)),
{
    let s = x + seq![';'] + y;
    let n = x.len() as int;
    if holds(x, c) {
        let (a, b) = choose|a: int, b: int| #[trigger]
            is_piece(x, a, b) && text::same_ignoring_case(text::trim(x.subrange(a, b)), c);
        assert(s.subrange(a, b) == x.subrange(a, b));
        assert(is_piece(s, a, b));
    }
    if holds(y, c) {
        let (a, b) = choose|a: int, b: int| #[trigger]
            is_piece(y, a, b) && text::same_ignoring_case(text::trim(y.subrange(a, b)), c);
        assert(s.subrange(a + n + 1, b + n + 1) == y.subrange(a, b));
        assert forall|i: int| a + n + 1 <= i < b + n + 1 implies #[trigger] s[i] != ';' by {
            assert(s[i] == y[i - n - 1]);
        }
        assert(is_piece(s, a + n + 1, b + n + 1));
    }
    if holds(s, c) {
        let (a, b) = choose|a: int, b: int| #[trigger]
            is_piece(s, a, b) && text::same_ignoring_case(text::trim(s.subrange(a, b)), c);
        assert(s[n] == ';');
        if a <= n {
            assert(b <= n);
            assert forall|i: int| a <= i < b implies #[trigger] x[i] != ';' by {
                assert(s[i] == x[i]);
            }
            assert(s.subrange(a, b) == x.subrange(a, b));
            assert(is_piece(x, a, b));
        } else {
            assert forall|i: int| a - n - 1 <= i < b - n - 1 implies #[trigger] y[i] != ';' by {
                assert(s[i + n + 1] == y[i]);
            }
            assert(s.subrange(a, b) == y.subrange(a - n - 1, b - n - 1));
            assert(is_piece(y, a - n - 1, b - n - 1));
        }
    }
}

/// The category depends on what the list holds and on nothing else. That a piece of the list is
/// empty counts for nothing.
pub proof fn law_bucket_depends_on_what_is_listed(x: Seq<char>, y: Seq<char>)
    requires
        forall|c: Seq<char>| c.len() > 0 ==> holds(x, c) == #[trigger] holds(y, c),
    ensures
        bucket_of(x) == bucket_of(y),
{
    reveal_strlit("Game");
    reveal_strlit("WebBrowser");
    reveal_strlit("Network");
    reveal_strlit("AudioVideo");
    reveal_strlit("Audio");
    reveal_strlit("Video");
    reveal_strlit("Player");
    reveal_strlit("Graphics");
    reveal_strlit("2DGraphics");
    reveal_strlit("RasterGraphics");
    reveal_strlit("Office");
    reveal_strlit("Viewer");
    reveal_strlit("Settings");
    reveal_strlit("TerminalEmulator");
    reveal_strlit("Monitor");
    reveal_strlit("FileManager");
    reveal_strlit("TextEditor");
    reveal_strlit("Development");
    reveal_strlit("Utility");
    reveal_strlit("System");
}

/// Of two lists joined by a semicolon, one decides: the application goes to the category of the one
/// or of the other.
pub proof fn law_bucket_of_joined_lists(x: Seq<char>, y: Seq<char>)
    ensures
        bucket_of(x + seq![';'] + y) == bucket_of(x) || bucket_of(x + seq![';'] + y) == bucket_of(
            y,
        ),
{
    assert forall|c: Seq<char>| #[trigger]
        holds(x + seq![';'] + y, c) == (holds(x, c) || holds(y, c)) by {
        law_joined_lists(x, y, c);
    }
}

/// Whether all of `s` is white space. An empty text is.
pub open spec fn is_blank(s: Seq<char>) -> bool {
    forall|i: int| 0 <= i < s.len() ==> text::is_white_space(#[trigger] s[i])
}

/// Empty pieces and pieces of white space have no influence on the category, wherever they stand:
/// at the start of the list, at its end or within it.
pub proof fn law_bucket_ignores_blank_pieces(x: Seq<char>, blank: Seq<char>, y: Seq<char>)
    requires
        is_blank(blank),
    ensures
        bucket_of(blank + seq![';'] + x) == bucket_of(x),
        bucket_of(x + seq![';'] + blank) == bucket_of(x),
        bucket_of(x + seq![';'] + (blank + seq![';'] + y)) == bucket_of(x + seq![';'] + y),
{
    let (front, back) = (blank + seq![';'] + x, x + seq![';'] + blank);
    let (within, without) = (x + seq![';'] + (blank + seq![';'] + y), x + seq![';'] + y);
    assert forall|c: Seq<char>| c.len() > 0 implies {
        &&& holds(front, c) == #[trigger] holds(x, c)
        &&& holds(back, c) == holds(x, c)
    } by {
        lemma_blank_holds_nothing(blank, c);
        law_joined_lists(blank, x, c);
        law_joined_lists(x, blank, c);
    }
    law_bucket_depends_on_what_is_listed(front, x);
    law_bucket_depends_on_what_is_listed(back, x);
    assert forall|c: Seq<char>| c.len() > 0 implies holds(within, c) == #[trigger] holds(
        without,
        c,
    ) by {
        lemma_blank_holds_nothing(blank, c);
        law_joined_lists(blank, y, c);
        law_joined_lists(x, blank + seq![';'] + y, c);
        law_joined_lists(x, y, c);
    }
    law_bucket_depends_on_what_is_listed(within, without);
}

proof fn lemma_blank_holds_nothing(blank: Seq<char>, c: Seq<char>)
    requires
        is_blank(blank),
        c.len() > 0,
    ensures
        !holds(blank, c),
{
    assert forall|a: int, b: int| #[trigger]
        is_piece(blank, a, b) implies !text::same_ignoring_case(
        text::trim(blank.subrange(a, b)),
        c,
    ) by {
        lemma_trim_of_blank(blank.subrange(a, b));
    }
}

proof fn lemma_trim_of_blank(s: Seq<char>)
    requires
        is_blank(s),
    ensures
        text::trim(s).len() == 0,
    decreases s.len(),
{
    if s.len() > 0 {
        assert(text::is_white_space(s[0]));
        assert(is_blank(s.drop_first()));
        lemma_trim_of_blank(s.drop_first());
    }
}

/// The order in which desktop categories are listed has no influence on the category.
pub proof fn law_bucket_ignores_order(x: Seq<char>, y: Seq<char>)
    ensures
        bucket_of(x + seq![';'] + y) == bucket_of(y + seq![';'] + x),
{
    assert forall|c: Seq<char>|
        holds(x + seq![';'] + y, c) == #[trigger] holds(y + seq![';'] + x, c) by {
        law_joined_lists(x, y, c);
        law_joined_lists(y, x, c);
    }
    law_bucket_depends_on_what_is_listed(x + seq![';'] + y, y + seq![';'] + x);
}

/// The case of ASCII letters in the list has no influence on the category.
pub proof fn law_bucket_ignores_case(x: Seq<char>, y: Seq<char>)
    requires
        text::same_ignoring_case(x, y),
    ensures
        bucket_of(x) == bucket_of(y),
{
    assert forall|c: Seq<char>| holds(x, c) == #[trigger] holds(y, c) by {
        if holds(x, c) {
            lemma_has_ignores_case(x, y, c);
        }
        if holds(y, c) {
            lemma_has_ignores_case(y, x, c);
        }
    }
    law_bucket_depends_on_what_is_listed(x, y);
}

proof fn lemma_has_ignores_case(x: Seq<char>, y: Seq<char>, c: Seq<char>)
    requires
        text::same_ignoring_case(x, y),
        holds(x, c),
    ensures
        holds(y, c),
{
    let (a, b) = choose|a: int, b: int| #[trigger]
        is_piece(x, a, b) && text::same_ignoring_case(text::trim(x.subrange(a, b)), c);
    assert forall|i: int| 0 <= i < x.len() implies (x[i] == ';') == (#[trigger] y[i] == ';') by {
        assert(text::ascii_lower(x[i]) == text::ascii_lower(y[i]));
    }
    assert(is_piece(y, a, b));
    let u = x.subrange(a, b);
    let v = y.subrange(a, b);
    assert forall|i: int| 0 <= i < u.len() implies text::ascii_lower(#[trigger] u[i])
        == text::ascii_lower(v[i]) by {
        assert(u[i] == x[a + i]);
    }
    text::lemma_trim_keeps_same(u, v);
    text::lemma_same_ignoring_case(text::trim(v), text::trim(u), c);
}

/// Games come first: a list that holds Game goes to Games, whatever else it holds.
pub proof fn law_games(categories: Seq<char>)
    requires
        holds(categories, "Game"@),
    ensures
        bucket_of(categories) == "Games"@,
{
}

/// A list that holds WebBrowser or Network, and not Game, goes to Internet, whatever else it holds.
pub proof fn law_internet(categories: Seq<char>)
    requires
        holds(categories, "WebBrowser"@) || holds(categories, "Network"@),
        !holds(categories, "Game"@),
    ensures
        bucket_of(categories) == "Internet"@,
{
}

/// A list that holds AudioVideo, Audio, Video or Player, and nothing that comes before them, goes to
/// Sound & Video, whatever else it holds.
pub proof fn law_sound_and_video(categories: Seq<char>)
    requires
        holds(categories, "AudioVideo"@) || holds(categories, "Audio"@) || holds(categories, "Video"@) || holds(categories, "Player"@),
        !holds(categories, "Game"@),
        !holds(categories, "WebBrowser"@),
        !holds(categories, "Network"@),
    ensures
        bucket_of(categories) == "Sound & Video"@,
{
}

/// A list that holds Graphics, 2DGraphics or RasterGraphics, and nothing that comes before them,
/// goes to Graphics, whatever else it holds.
pub proof fn law_graphics(categories: Seq<char>)
    requires
        holds(categories, "Graphics"@) || holds(categories, "2DGraphics"@) || holds(categories, "RasterGraphics"@),
        !holds(categories, "Game"@),
        !holds(categories, "WebBrowser"@),
        !holds(categories, "Network"@),
        !holds(categories, "AudioVideo"@),
        !holds(categories, "Audio"@),
        !holds(categories, "Video"@),
        !holds(categories, "Player"@),
    ensures
        bucket_of(categories) == "Graphics"@,
{
}

/// A list that holds Office or Viewer, and nothing that comes before them, goes to Documents,
/// whatever else it holds.
pub proof fn law_documents(categories: Seq<char>)
    requires
        holds(categories, "Office"@) || holds(categories, "Viewer"@),
        !holds(categories, "Game"@),
        !holds(categories, "WebBrowser"@),
        !holds(categories, "Network"@),
        !holds(categories, "AudioVideo"@),
        !holds(categories, "Audio"@),
        !holds(categories, "Video"@),
        !holds(categories, "Player"@),
        !holds(categories, "Graphics"@),
        !holds(categories, "2DGraphics"@),
        !holds(categories, "RasterGraphics"@),
    ensures
        bucket_of(categories) == "Documents"@,
{
}

/// A list that holds Settings, TerminalEmulator or Monitor, and nothing that comes before them, goes
/// to System, whatever else it holds.
pub proof fn law_system(categories: Seq<char>)
    requires
        holds(categories, "Settings"@) || holds(categories, "TerminalEmulator"@) || holds(categories, "Monitor"@),
        !holds(categories, "Game"@),
        !holds(categories, "WebBrowser"@),
        !holds(categories, "Network"@),
        !holds(categories, "AudioVideo"@),
        !holds(categories, "Audio"@),
        !holds(categories, "Video"@),
        !holds(categories, "Player"@),
        !holds(categories, "Graphics"@),
        !holds(categories, "2DGraphics"@),
        !holds(categories, "RasterGraphics"@),
        !holds(categories, "Office"@),
        !holds(categories, "Viewer"@),
    ensures
        bucket_of(categories) == "System"@,
{
}

/// A list that holds FileManager, TextEditor, Development or Utility, and nothing that comes before
/// them, goes to Utilities. That it may hold System too makes no difference.
pub proof fn law_utilities(categories: Seq<char>)
    requires
        holds(categories, "FileManager"@) || holds(categories, "TextEditor"@) || holds(categories, "Development"@) || holds(categories, "Utility"@),
        !holds(categories, "Game"@),
        !holds(categories, "WebBrowser"@),
        !holds(categories, "Network"@),
        !holds(categories, "AudioVideo"@),
        !holds(categories, "Audio"@),
        !holds(categories, "Video"@),
        !holds(categories, "Player"@),
        !holds(categories, "Graphics"@),
        !holds(categories, "2DGraphics"@),
        !holds(categories, "RasterGraphics"@),
        !holds(categories, "Office"@),
        !holds(categories, "Viewer"@),
        !holds(categories, "Settings"@),
        !holds(categories, "TerminalEmulator"@),
        !holds(categories, "Monitor"@),
    ensures
        bucket_of(categories) == "Utilities"@,
{
}

/// A list that holds none of what decides goes by System: to System if it holds that, and to
/// Utilities otherwise.
pub proof fn law_system_or_utilities(categories: Seq<char>)
    requires
        !holds(categories, "Game"@),
        !holds(categories, "WebBrowser"@),
        !holds(categories, "Network"@),
        !holds(categories, "AudioVideo"@),
        !holds(categories, "Audio"@),
        !holds(categories, "Video"@),
        !holds(categories, "Player"@),
        !holds(categories, "Graphics"@),
        !holds(categories, "2DGraphics"@),
        !holds(categories, "RasterGraphics"@),
        !holds(categories, "Office"@),
        !holds(categories, "Viewer"@),
        !holds(categories, "Settings"@),
        !holds(categories, "TerminalEmulator"@),
        !holds(categories, "Monitor"@),
        !holds(categories, "FileManager"@),
        !holds(categories, "TextEditor"@),
        !holds(categories, "Development"@),
        !holds(categories, "Utility"@),
    ensures
        holds(categories, "System"@) ==> bucket_of(categories) == "System"@,
        !holds(categories, "System"@) ==> bucket_of(categories) == "Utilities"@,
{
}

/// A list of one piece holds what the piece is, but for the white space around it and the case of
/// its letters, and nothing else.
pub proof fn law_list_of_one(front: Seq<char>, s: Seq<char>, back: Seq<char>, c: Seq<char>)
    requires
        forall|i: int| 0 <= i < front.len() ==> text::is_white_space(#[trigger] front[i]),
        forall|i: int| 0 <= i < back.len() ==> text::is_white_space(#[trigger] back[i]),
        forall|i: int| 0 <= i < s.len() ==> #[trigger] s[i] != ';',
        s.len() > 0 ==> !text::is_white_space(s[0]) && !text::is_white_space(s.last()),
    ensures
        holds(front + s + back, c) <==> text::same_ignoring_case(s, c),
{
    let list = front + s + back;
    let n = list.len() as int;
    text::law_trim(front, s, back);
    assert forall|i: int| 0 <= i < n implies #[trigger] list[i] != ';' by {
        if i < front.len() {
            assert(list[i] == front[i]);
        } else if i < front.len() + s.len() {
            assert(list[i] == s[i - front.len()]);
        } else {
            assert(list[i] == back[i - front.len() - s.len()]);
        }
    }
    assert(is_piece(list, 0, n));
    assert(list.subrange(0, n) =~= list);
    assert forall|a: int, b: int| #[trigger] is_piece(list, a, b) implies a == 0 && b == n by {
        if a > 0 {
            assert(list[a - 1] != ';');
        }
        if b < n {
            assert(list[b] != ';');
        }
    }
}

/// The menu has seven categories, in this order and with these icons.
pub proof fn law_categories_of_the_menu(i: int)
    requires
        0 <= i < buckets().len(),
    ensures
        buckets().len() == 7,
        i == 0 <==> buckets()[i].0 == "Internet"@,
        i == 1 <==> buckets()[i].0 == "Sound & Video"@,
        i == 2 <==> buckets()[i].0 == "Graphics"@,
        i == 3 <==> buckets()[i].0 == "Documents"@,
        i == 4 <==> buckets()[i].0 == "Utilities"@,
        i == 5 <==> buckets()[i].0 == "System"@,
        i == 6 <==> buckets()[i].0 == "Games"@,
        buckets()[i].0 == "Internet"@ ==> buckets()[i].1 == "web-browser-symbolic"@,
        buckets()[i].0 == "Sound & Video"@ ==> buckets()[i].1
            == "applications-multimedia-symbolic"@,
        buckets()[i].0 == "Graphics"@ ==> buckets()[i].1 == "applications-graphics-symbolic"@,
        buckets()[i].0 == "Documents"@ ==> buckets()[i].1 == "x-office-document-symbolic"@,
        buckets()[i].0 == "Utilities"@ ==> buckets()[i].1 == "applications-utilities-symbolic"@,
        buckets()[i].0 == "System"@ ==> buckets()[i].1 == "applications-system-symbolic"@,
        buckets()[i].0 == "Games"@ ==> buckets()[i].1 == "applications-games-symbolic"@,
{
    let b = buckets();
    assert(b[0].0 == "Internet"@ && b[1].0 == "Sound & Video"@ && b[2].0 == "Graphics"@);
    assert(b[3].0 == "Documents"@ && b[4].0 == "Utilities"@ && b[5].0 == "System"@);
    assert(b[6].0 == "Games"@);
    assert forall|j: int, k: int| 0 <= j < k < 7 implies #[trigger] b[j].0 != #[trigger] b[k].0 by {
        law_titles_are_distinct(j, k);
    }
}

} // verus!

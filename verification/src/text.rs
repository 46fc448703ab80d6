//! Text: the few operations on characters and strings that the menu's rules are made of.
//!
//! A string is modelled by its view, the sequence of its characters.

use vstd::prelude::*;
use vstd::slice::slice_subrange;
use vstd::string::*;
use vstd::utf8::*;

verus! {

/// Whether `c` has the Unicode property White_Space.
pub open spec fn is_white_space(c: char) -> bool {
    let u = c as u32;
    ||| 0x09 <= u <= 0x0d
    ||| u == 0x20
    ||| u == 0x85
    ||| u == 0xa0
    ||| u == 0x1680
    ||| 0x2000 <= u <= 0x200a
    ||| u == 0x2028
    ||| u == 0x2029
    ||| u == 0x202f
    ||| u == 0x205f
    ||| u == 0x3000
}

/// `c` with the letters A to Z replaced by a to z.
pub open spec fn ascii_lower(c: char) -> char {
    if 'A' <= c <= 'Z' {
        (c as u32 + 32) as char
    } else {
        c
    }
}

/// Whether `a` and `b` differ in the case of ASCII letters at most.
pub open spec fn same_ignoring_case(a: Seq<char>, b: Seq<char>) -> bool {
    &&& a.len() == b.len()
    &&& forall|i: int| 0 <= i < a.len() ==> ascii_lower(#[trigger] a[i]) == ascii_lower(b[i])
}

/// `s` without the white space at its two ends.
pub open spec fn trim(s: Seq<char>) -> Seq<char>
    decreases s.len(),
{
    if s.len() > 0 && is_white_space(s[0]) {
        trim(s.drop_first())
    } else if s.len() > 0 && is_white_space(s.last()) {
        trim(s.drop_last())
    } else {
        s
    }
}

/// How many characters stand in front of the first white space of `s`.
pub open spec fn word_len(s: Seq<char>) -> nat
    decreases s.len(),
{
    if s.len() == 0 || is_white_space(s[0]) {
        0
    } else {
        1 + word_len(s.drop_first())
    }
}

pub proof fn lemma_word_len(s: Seq<char>)
    ensures
        word_len(s) <= s.len(),
        s.len() > 0 && !is_white_space(s[0]) ==> word_len(s) > 0,
        forall|i: int| 0 <= i < word_len(s) ==> !is_white_space(#[trigger] s[i]),
        word_len(s) < s.len() ==> is_white_space(s[word_len(s) as int]),
    decreases s.len(),
{
    if s.len() > 0 && !is_white_space(s[0]) {
        let t = s.drop_first();
        lemma_word_len(t);
        assert forall|i: int| 0 <= i < word_len(s) implies !is_white_space(#[trigger] s[i]) by {
            if i > 0 {
                assert(s[i] == t[i - 1]);
            }
        }
    }
}

/// The words of `s`: its longest runs of characters that are not white space, in order.
pub open spec fn words(s: Seq<char>) -> Seq<Seq<char>>
    decreases s.len(),
{
    if s.len() == 0 {
        seq![]
    } else if is_white_space(s[0]) {
        words(s.drop_first())
    } else {
        let n = word_len(s) as int;
        proof {
            lemma_word_len(s);
        }
        seq![s.take(n)] + words(s.skip(n))
    }
}

/// The order of strings: that of the code points at the first place where two strings differ, and
/// a string that goes on comes after one that has ended.
pub open spec fn precedes(a: Seq<char>, b: Seq<char>) -> bool {
    exists|k: int| first_difference(a, b, k) && k < b.len() && (k == a.len() || a[k] < b[k])
}

/// Whether `a` and `b` agree in front of place `k`, and not at it.
pub open spec fn first_difference(a: Seq<char>, b: Seq<char>, k: int) -> bool {
    &&& 0 <= k <= a.len()
    &&& k <= b.len()
    &&& forall|i: int| 0 <= i < k ==> #[trigger] a[i] == b[i]
    &&& k < a.len() && k < b.len() ==> a[k] != b[k]
}

/// The characters of each string.
pub open spec fn views(strings: Seq<String>) -> Seq<Seq<char>> {
    Seq::new(strings.len(), |i: int| strings[i]@)
}

/// The decimal digits of `n`, without leading zeros.
pub open spec fn decimal(n: nat) -> Seq<char>
    decreases n,
{
    if n < 10 {
        seq![digit(n)]
    } else {
        decimal(n / 10).push(digit(n % 10))
    }
}

/// The character of a digit.
pub open spec fn digit(d: nat) -> char {
    ('0' as u32 + d) as char
}

/// The characters of `s`, in order.
pub fn chars_of(s: &str) -> (r: Vec<char>)
    ensures
        r@ == s@,
{
    let mut out: Vec<char> = Vec::new();
    for c in it: s.chars()
        invariant
            it.seq() == s@,
            out@ == s@.take(it.index() as int),
    {
        out.push(c);
    }
    assert(s@.take(s@.len() as int) == s@);
    out
}

/// Names what [`str::to_lowercase`] makes of a string with the characters `s`.
pub uninterp spec fn lowercase(s: Seq<char>) -> Seq<char>;

/// Each of the characters with the letters A to Z replaced by a to z.
pub open spec fn ascii_lowercase(s: Seq<char>) -> Seq<char> {
    Seq::new(s.len(), |i: int| ascii_lower(s[i]))
}

/// Calls [`str::to_lowercase`]. The contract claims that the result depends on the characters of
/// `s` alone, and that of a string of ASCII characters it is the one with a to z for A to Z. What
/// Unicode's tables make of other characters is left unsaid.
#[verifier::external_body]
pub(crate) fn to_lowercase(s: &str) -> (r: String)
    ensures
        r@ == lowercase(s@),
        is_ascii_chars(s@) ==> r@ == ascii_lowercase(s@),
{
    s.to_lowercase()
}

/// Whether `c` has the Unicode property White_Space.
pub fn is_whitespace(c: char) -> (r: bool)
    ensures
        r == is_white_space(c),
{
    let u: u32 = c as u32;
    (0x09 <= u && u <= 0x0d) || u == 0x20 || u == 0x85 || u == 0xa0 || u == 0x1680 || (0x2000 <= u
        && u <= 0x200a) || u == 0x2028 || u == 0x2029 || u == 0x202f || u == 0x205f || u == 0x3000
}

/// The code point of `c` with the letters A to Z replaced by a to z.
fn ascii_lower_code(c: char) -> (r: u32)
    ensures
        r == ascii_lower(c) as u32,
{
    let u: u32 = c as u32;
    if 0x41 <= u && u <= 0x5a {
        u + 32
    } else {
        u
    }
}

/// Whether `a` and `b` differ in the case of ASCII letters at most.
pub fn eq_ignore_ascii_case(a: &[char], b: &[char]) -> (r: bool)
    ensures
        r == same_ignoring_case(a@, b@),
{
    if a.len() != b.len() {
        return false;
    }
    let mut i: usize = 0;
    while i < a.len()
        invariant
            i <= a@.len(),
            a@.len() == b@.len(),
            forall|j: int| 0 <= j < i ==> ascii_lower(#[trigger] a@[j]) == ascii_lower(b@[j]),
        decreases a@.len() - i,
    {
        if ascii_lower_code(a[i]) != ascii_lower_code(b[i]) {
            assert(ascii_lower(a@[i as int]) != ascii_lower(b@[i as int]));
            return false;
        }
        i += 1;
    }
    true
}

/// Whether two strings are the same.
pub fn same_str(a: &str, b: &str) -> (r: bool)
    ensures
        r == (a@ == b@),
{
    let x: Vec<char> = chars_of(a);
    let y: Vec<char> = chars_of(b);
    if x.len() != y.len() {
        return false;
    }
    let mut i: usize = 0;
    while i < x.len()
        invariant
            i <= x@.len(),
            x@ == a@,
            y@ == b@,
            x@.len() == y@.len(),
            forall|j: int| 0 <= j < i ==> x@[j] == y@[j],
        decreases x@.len() - i,
    {
        if x[i] != y[i] {
            return false;
        }
        i += 1;
    }
    assert(a@ =~= b@);
    true
}

/// `s` without the white space at its two ends.
pub fn trimmed<'a>(s: &'a [char]) -> (r: &'a [char])
    ensures
        r@ == trim(s@),
{
    let mut lo: usize = 0;
    let mut hi: usize = s.len();
    assert(s@.subrange(0, s@.len() as int) == s@);
    while lo < hi && is_whitespace(s[lo])
        invariant
            lo <= hi == s@.len(),
            trim(s@) == trim(s@.subrange(lo as int, hi as int)),
        decreases hi - lo,
    {
        assert(s@.subrange(lo as int, hi as int).drop_first() == s@.subrange(lo + 1, hi as int));
        lo += 1;
    }
    while lo < hi && is_whitespace(s[hi - 1])
        invariant
            lo <= hi <= s@.len(),
            lo < hi ==> !is_white_space(s@[lo as int]),
            trim(s@) == trim(s@.subrange(lo as int, hi as int)),
        decreases hi - lo,
    {
        assert(s@.subrange(lo as int, hi as int).drop_last() == s@.subrange(lo as int, hi - 1));
        hi -= 1;
    }
    slice_subrange(s, lo, hi)
}

/// Whether `a` comes before `b` in the order of strings.
pub fn comes_before(a: &[char], b: &[char]) -> (r: bool)
    ensures
        r == precedes(a@, b@),
{
    let mut k: usize = 0;
    while k < a.len() && k < b.len() && a[k] == b[k]
        invariant
            k <= a@.len(),
            k <= b@.len(),
            forall|i: int| 0 <= i < k ==> #[trigger] a@[i] == b@[i],
        decreases a@.len() - k,
    {
        k += 1;
    }
    assert(first_difference(a@, b@, k as int));
    assert forall|j: int| first_difference(a@, b@, j) implies j == k by {
        lemma_first_difference_unique(a@, b@, j, k as int);
    }
    k < b.len() && (k == a.len() || a[k] < b[k])
}

/// `n` in decimal.
pub fn decimal_text(n: u32) -> (r: String)
    ensures
        r@ == decimal(n as nat),
    decreases n,
{
    let mut out: String = if n < 10 {
        String::new()
    } else {
        decimal_text(n / 10)
    };
    out.append(digit_text(n % 10));
    assert(out@ =~= decimal(n as nat));
    out
}

fn digit_text(d: u32) -> (r: &'static str)
    requires
        d < 10,
    ensures
        r@ == seq![digit(d as nat)],
{
    proof {
        reveal_strlit("0");
        reveal_strlit("1");
        reveal_strlit("2");
        reveal_strlit("3");
        reveal_strlit("4");
        reveal_strlit("5");
        reveal_strlit("6");
        reveal_strlit("7");
        reveal_strlit("8");
        reveal_strlit("9");
    }
    if d == 0 {
        "0"
    } else if d == 1 {
        "1"
    } else if d == 2 {
        "2"
    } else if d == 3 {
        "3"
    } else if d == 4 {
        "4"
    } else if d == 5 {
        "5"
    } else if d == 6 {
        "6"
    } else if d == 7 {
        "7"
    } else if d == 8 {
        "8"
    } else {
        "9"
    }
}

/// Two strings first differ at one place.
proof fn lemma_first_difference_unique(a: Seq<char>, b: Seq<char>, j: int, k: int)
    requires
        first_difference(a, b, j),
        first_difference(a, b, k),
    ensures
        j == k,
{
    if j < k {
        assert(a[j] == b[j]);
    } else if k < j {
        assert(a[k] == b[k]);
    }
}

/// Two strings that agree in front of place `from` first differ somewhere.
proof fn lemma_first_difference_exists(a: Seq<char>, b: Seq<char>, from: int) -> (k: int)
    requires
        0 <= from <= a.len(),
        from <= b.len(),
        forall|i: int| 0 <= i < from ==> #[trigger] a[i] == b[i],
    ensures
        first_difference(a, b, k),
    decreases a.len() - from,
{
    if from < a.len() && from < b.len() && a[from] == b[from] {
        lemma_first_difference_exists(a, b, from + 1)
    } else {
        from
    }
}

/// Of two strings, either they are the same or just one of them comes before the other.
pub proof fn law_order_is_total(a: Seq<char>, b: Seq<char>)
    ensures
        a == b || precedes(a, b) || precedes(b, a),
        !(precedes(a, b) && precedes(b, a)),
        a == b ==> !precedes(a, b),
{
    let k = lemma_first_difference_exists(a, b, 0);
    assert(first_difference(b, a, k));
    assert forall|j: int| first_difference(a, b, j) implies j == k by {
        lemma_first_difference_unique(a, b, j, k);
    }
    assert forall|j: int| first_difference(b, a, j) implies j == k by {
        lemma_first_difference_unique(b, a, j, k);
    }
    if k == a.len() && k == b.len() {
        assert(a =~= b);
    }
}

/// The order of strings is transitive.
pub proof fn law_order_is_transitive(a: Seq<char>, b: Seq<char>, c: Seq<char>)
    requires
        precedes(a, b),
        precedes(b, c),
    ensures
        precedes(a, c),
{
    let j = choose|k: int|
        first_difference(a, b, k) && k < b.len() && (k == a.len() || a[k] < b[k]);
    let k = choose|k: int|
        first_difference(b, c, k) && k < c.len() && (k == b.len() || b[k] < c[k]);
    let d = if j < k {
        j
    } else {
        k
    };
    assert forall|i: int| 0 <= i < d implies #[trigger] a[i] == c[i] by {
        assert(a[i] == b[i]);
        assert(b[i] == c[i]);
    }
    if j < k {
        assert(b[j] == c[j]);
    } else if k < j {
        assert(a[k] == b[k]);
    }
    assert(first_difference(a, c, d));
}

/// To be the same but for case is symmetric and transitive.
pub proof fn lemma_same_ignoring_case(a: Seq<char>, b: Seq<char>, c: Seq<char>)
    ensures
        same_ignoring_case(a, a),
        same_ignoring_case(a, b) == same_ignoring_case(b, a),
        same_ignoring_case(a, b) && same_ignoring_case(b, c) ==> same_ignoring_case(a, c),
{
    if same_ignoring_case(b, a) {
        assert forall|i: int| 0 <= i < a.len() implies ascii_lower(#[trigger] a[i]) == ascii_lower(
            b[i],
        ) by {
            assert(ascii_lower(b[i]) == ascii_lower(a[i]));
        }
    }
    if same_ignoring_case(a, b) {
        assert forall|i: int| 0 <= i < b.len() implies ascii_lower(#[trigger] b[i]) == ascii_lower(
            a[i],
        ) by {
            assert(ascii_lower(a[i]) == ascii_lower(b[i]));
        }
    }
    if same_ignoring_case(a, b) && same_ignoring_case(b, c) {
        assert forall|i: int| 0 <= i < a.len() implies ascii_lower(#[trigger] a[i]) == ascii_lower(
            c[i],
        ) by {
            assert(ascii_lower(b[i]) == ascii_lower(c[i]));
        }
    }
}

/// Strings that are the same but for case stay so when they are trimmed.
pub proof fn lemma_trim_keeps_same(a: Seq<char>, b: Seq<char>)
    requires
        same_ignoring_case(a, b),
    ensures
        same_ignoring_case(trim(a), trim(b)),
    decreases a.len(),
{
    if a.len() > 0 {
        assert(ascii_lower(a[0]) == ascii_lower(b[0]));
        assert(ascii_lower(a[a.len() - 1]) == ascii_lower(b[b.len() - 1]));
        if is_white_space(a[0]) {
            let (u, v) = (a.drop_first(), b.drop_first());
            assert forall|i: int| 0 <= i < u.len() implies ascii_lower(#[trigger] u[i])
                == ascii_lower(v[i]) by {
                assert(u[i] == a[i + 1]);
            }
            lemma_trim_keeps_same(u, v);
        } else if is_white_space(a.last()) {
            lemma_trim_keeps_same(a.drop_last(), b.drop_last());
        }
    }
}

/// Two strings are the same but for case just if they are the same with a to z for A to Z.
pub proof fn lemma_ascii_lowercase(a: Seq<char>, b: Seq<char>)
    ensures
        same_ignoring_case(a, b) <==> ascii_lowercase(a) == ascii_lowercase(b),
{
    let (x, y) = (ascii_lowercase(a), ascii_lowercase(b));
    if same_ignoring_case(a, b) {
        assert forall|k: int| 0 <= k < x.len() implies x[k] == y[k] by {
            assert(ascii_lower(a[k]) == ascii_lower(b[k]));
        }
        assert(x =~= y);
    }
    if x == y {
        assert(x.len() == a.len() && y.len() == b.len());
        assert forall|k: int| 0 <= k < a.len() implies ascii_lower(#[trigger] a[k]) == ascii_lower(
            b[k],
        ) by {
            assert(x[k] == y[k]);
        }
    }
}

/// What is the same as a string of ASCII characters but for case is made of them too.
pub proof fn lemma_same_as_ascii(a: Seq<char>, b: Seq<char>)
    requires
        is_ascii_chars(a),
        same_ignoring_case(a, b),
    ensures
        is_ascii_chars(b),
{
    assert forall|i: int| 0 <= i < b.len() implies '\0' <= #[trigger] b[i] <= '\u{7f}' by {
        assert(ascii_lower(a[i]) == ascii_lower(b[i]));
    }
}

/// White space among the ASCII characters is the space and what moves the place of printing: tab,
/// line feed, vertical tab, form feed and carriage return. No letter, digit or punctuation mark is.
/// The rest of it lies in a few places beyond.
pub proof fn law_white_space(c: char)
    ensures
        is_white_space(' ') && is_white_space('\t') && is_white_space('\n') && is_white_space('\r'),
        is_white_space('\u{b}') && is_white_space('\u{c}'),
        c < '\t' ==> !is_white_space(c),
        '\u{e}' <= c <= '\u{1f}' ==> !is_white_space(c),
        '!' <= c <= '\u{84}' ==> !is_white_space(c),
        is_white_space('\u{85}') && is_white_space('\u{a0}') && is_white_space('\u{1680}'),
        '\u{86}' <= c <= '\u{9f}' || '\u{a1}' <= c <= '\u{167f}' || '\u{1681}' <= c <= '\u{1fff}'
            ==> !is_white_space(c),
        '\u{2000}' <= c <= '\u{200a}' ==> is_white_space(c),
        '\u{200b}' <= c <= '\u{2027}' || '\u{202a}' <= c <= '\u{202e}' ==> !is_white_space(c),
        is_white_space('\u{2028}') && is_white_space('\u{2029}') && is_white_space('\u{202f}'),
        '\u{2030}' <= c <= '\u{205e}' || '\u{2060}' <= c <= '\u{2fff}' ==> !is_white_space(c),
        is_white_space('\u{205f}') && is_white_space('\u{3000}'),
        c > '\u{3000}' ==> !is_white_space(c),
{
}

/// Two strings are the same but for case just if they are of one length and at each place hold the
/// same character or the two forms of one letter of A to Z.
pub proof fn law_same_but_for_case(a: Seq<char>, b: Seq<char>)
    ensures
        same_ignoring_case(a, b) <==> a.len() == b.len() && forall|i: int|
            0 <= i < a.len() ==> {
                ||| #[trigger] a[i] == b[i]
                ||| 'A' <= a[i] <= 'Z' && b[i] as int == a[i] as int + 32
                ||| 'A' <= b[i] <= 'Z' && a[i] as int == b[i] as int + 32
            },
{
    if a.len() == b.len() {
        assert forall|i: int| 0 <= i < a.len() implies (ascii_lower(#[trigger] a[i]) == ascii_lower(
            b[i],
        ) <==> {
            ||| a[i] == b[i]
            ||| 'A' <= a[i] <= 'Z' && b[i] as int == a[i] as int + 32
            ||| 'A' <= b[i] <= 'Z' && a[i] as int == b[i] as int + 32
        }) by {
            lemma_ascii_lower(a[i]);
            lemma_ascii_lower(b[i]);
        }
    }
}

proof fn lemma_ascii_lower(c: char)
    ensures
        'A' <= c <= 'Z' ==> ascii_lower(c) as int == c as int + 32,
        !('A' <= c <= 'Z') ==> ascii_lower(c) == c,
{
}

/// Lower case with a to z for A to Z changes the letters A to Z, each into the one that stands 32
/// places behind it, and nothing else.
pub proof fn law_ascii_lowercase(s: Seq<char>, i: int)
    requires
        0 <= i < s.len(),
    ensures
        ascii_lowercase(s).len() == s.len(),
        'A' <= s[i] <= 'Z' ==> ascii_lowercase(s)[i] as int == s[i] as int + 32,
        !('A' <= s[i] <= 'Z') ==> ascii_lowercase(s)[i] == s[i],
{
    lemma_ascii_lower(s[i]);
}

/// White space around a text is what trimming takes off, and all that it takes off: a text that is
/// empty or neither starts nor ends with white space comes back from between any two runs of it.
pub proof fn law_trim(front: Seq<char>, s: Seq<char>, back: Seq<char>)
    requires
        forall|i: int| 0 <= i < front.len() ==> is_white_space(#[trigger] front[i]),
        forall|i: int| 0 <= i < back.len() ==> is_white_space(#[trigger] back[i]),
        s.len() > 0 ==> !is_white_space(s[0]) && !is_white_space(s.last()),
    ensures
        trim(front + s + back) == s,
    decreases front.len() + back.len(),
{
    let all = front + s + back;
    if front.len() > 0 {
        assert(all[0] == front[0]);
        assert(all.drop_first() =~= front.drop_first() + s + back);
        law_trim(front.drop_first(), s, back);
    } else if back.len() > 0 {
        if s.len() == 0 {
            assert(all[0] == back[0]);
            assert(all.drop_first() =~= front + s + back.drop_first());
            law_trim(front, s, back.drop_first());
        } else {
            assert(all[0] == s[0]);
            assert(all.last() == back.last());
            assert(all.drop_last() =~= front + s + back.drop_last());
            law_trim(front, s, back.drop_last());
        }
    } else {
        assert(all =~= s);
    }
}

/// A string comes before every string that goes on where it ends.
pub proof fn law_shorter_comes_first(a: Seq<char>, more: Seq<char>)
    ensures
        precedes(a, a + more) <==> more.len() > 0,
        !precedes(a + more, a),
{
    let b = a + more;
    assert(first_difference(a, b, a.len() as int));
    assert(first_difference(b, a, a.len() as int));
    assert forall|j: int| first_difference(a, b, j) implies j == a.len() by {
        lemma_first_difference_unique(a, b, j, a.len() as int);
    }
    assert forall|j: int| first_difference(b, a, j) implies j == a.len() by {
        lemma_first_difference_unique(b, a, j, a.len() as int);
    }
}

/// Of two strings that start alike, the code points at the place where they part decide, whatever
/// follows them.
pub proof fn law_first_difference_decides(
    start: Seq<char>,
    c: char,
    x: Seq<char>,
    d: char,
    y: Seq<char>,
)
    requires
        c != d,
    ensures
        precedes(start + seq![c] + x, start + seq![d] + y) <==> (c as u32) < (d as u32),
{
    let (a, b) = (start + seq![c] + x, start + seq![d] + y);
    let k = start.len() as int;
    assert(a[k] == c && b[k] == d);
    assert forall|i: int| 0 <= i < k implies #[trigger] a[i] == b[i] by {
        assert(a[i] == start[i] && b[i] == start[i]);
    }
    assert(first_difference(a, b, k));
    assert forall|j: int| first_difference(a, b, j) implies j == k by {
        lemma_first_difference_unique(a, b, j, k);
    }
}

/// The number that a row of decimal digits stands for.
pub open spec fn number_of(digits: Seq<char>) -> int
    decreases digits.len(),
{
    if digits.len() == 0 {
        0
    } else {
        10 * number_of(digits.drop_last()) + (digits.last() as int - '0' as int)
    }
}

/// What is written of a number is made of decimal digits, stands for the number and starts with a
/// zero only where that is all of it.
pub proof fn law_decimal(n: nat)
    ensures
        number_of(decimal(n)) == n,
        forall|i: int| 0 <= i < decimal(n).len() ==> '0' <= #[trigger] decimal(n)[i] <= '9',
        decimal(n).len() > 0,
        decimal(n)[0] == '0' ==> decimal(n).len() == 1,
    decreases n,
{
    reveal_with_fuel(number_of, 2);
    if n < 10 {
        assert(decimal(n).drop_last() =~= seq![]);
        assert(decimal(n).last() as int == '0' as int + n);
    } else {
        law_decimal(n / 10);
        assert(decimal(n).drop_last() =~= decimal(n / 10));
        assert(decimal(n).last() as int == '0' as int + n % 10);
        if decimal(n / 10)[0] == '0' {
            assert(decimal(n / 10).len() == 1);
            assert(decimal(n / 10).drop_last() =~= seq![]);
            assert(n / 10 == 0);
        }
    }
}

/// The characters of each string of a list stand at its place.
pub proof fn law_views(strings: Seq<String>, i: int)
    requires
        0 <= i < strings.len(),
    ensures
        views(strings).len() == strings.len(),
        views(strings)[i] == strings[i]@,
{
}

} // verus!

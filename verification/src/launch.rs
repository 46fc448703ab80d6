//! Command lines, and what is started for them.

use crate::desktop::{App, AppEntry};
use crate::text;
use vstd::prelude::*;
use vstd::string::*;
use vstd::utf8::*;

verus! {

/// Whether a word of a command line is a field code, which stands for nothing here: a percent sign
/// and one more ASCII character, such as `%f`, `%U` or `%k`.
pub open spec fn is_field_code(word: Seq<char>) -> bool {
    word.len() == 2 && word[0] == '%' && (word[1] as u32) < 0x80
}

/// Tells the words of a command line that are arguments from its field codes.
pub open spec fn is_argument() -> spec_fn(Seq<char>) -> bool {
    |word: Seq<char>| !is_field_code(word)
}

/// The program and the arguments of a command line: its words, without the field codes.
pub open spec fn argv_of(line: Seq<char>) -> Seq<Seq<char>> {
    text::words(line).filter(is_argument())
}

/// The program and the arguments to start for an application: those of its command line, in a
/// terminal if it is to run in one.
pub open spec fn launch_argv_of(app: App) -> Seq<Seq<char>> {
    if app.terminal {
        seq!["foot"@, "-e"@] + argv_of(app.command)
    } else {
        argv_of(app.command)
    }
}

/// The program and the arguments of a command line. Words are not quoted: white space divides them.
pub fn exec_argv(line: &str) -> (r: Vec<String>)
    ensures
        text::views(r@) == argv_of(line@),
{
    let chars: Vec<char> = text::chars_of(line);
    let ghost s = line@;
    let mut out: Vec<String> = Vec::new();
    let mut i: usize = 0;
    assert(s.skip(0) == s);
    assert(text::views(out@) + argv_of(s) =~= argv_of(s));
    while i < chars.len()
        invariant
            i <= s.len(),
            s == line@,
            s == chars@,
            text::views(out@) + argv_of(s.skip(i as int)) == argv_of(s),
        decreases s.len() - i,
    {
        let ghost rest = s.skip(i as int);
        if text::is_whitespace(chars[i]) {
            assert(rest.drop_first() == s.skip(i + 1));
            i += 1;
        } else {
            let mut j: usize = i;
            while j < chars.len() && !text::is_whitespace(chars[j])
                invariant
                    i <= j <= s.len(),
                    s == chars@,
                    text::word_len(s.skip(i as int)) == j - i + text::word_len(s.skip(j as int)),
                decreases s.len() - j,
            {
                assert(s.skip(j as int).drop_first() == s.skip(j + 1));
                j += 1;
            }
            let ghost word = s.subrange(i as int, j as int);
            proof {
                assert(text::word_len(s.skip(j as int)) == 0);
                assert(rest.take(j - i) == word);
                assert(rest.skip(j - i) == s.skip(j as int));
                lemma_first_word(word, text::words(s.skip(j as int)));
            }
            let ghost sofar = out@;
            let code: bool = j - i == 2 && chars[i] == '%' && (chars[i + 1] as u32) < 0x80;
            if !code {
                out.push(line.substring_char(i, j).to_owned());
                assert(text::views(out@) =~= text::views(sofar).push(word));
                assert(text::views(out@) + argv_of(s.skip(j as int)) =~= text::views(sofar) + (seq![
                    word,
                ] + argv_of(s.skip(j as int))));
            }
            i = j;
        }
    }
    assert(text::views(out@) =~= argv_of(s));
    out
}

/// What the first of some words adds to the arguments.
proof fn lemma_first_word(word: Seq<char>, rest: Seq<Seq<char>>)
    ensures
        (seq![word] + rest).filter(is_argument()) == if is_field_code(word) {
            rest.filter(is_argument())
        } else {
            seq![word] + rest.filter(is_argument())
        },
{
    reveal_with_fuel(Seq::filter, 2);
    Seq::filter_distributes_over_add(seq![word], rest, is_argument());
    assert(seq![word].drop_last() =~= seq![]);
    assert(seq![word].filter(is_argument()) =~= if is_field_code(word) {
        seq![]
    } else {
        seq![word]
    });
    assert(Seq::<Seq<char>>::empty() + rest.filter(is_argument()) =~= rest.filter(is_argument()));
}

/// The program and the arguments to start for an application.
pub fn launch_argv(app: &AppEntry) -> (r: Vec<String>)
    ensures
        text::views(r@) == launch_argv_of(app@),
{
    let mut argv: Vec<String> = exec_argv(app.command.as_str());
    if app.terminal {
        let ghost inner = argv@;
        let mut wrapped: Vec<String> = vec!["foot".to_owned(), "-e".to_owned()];
        wrapped.append(&mut argv);
        assert(text::views(wrapped@) =~= seq!["foot"@, "-e"@] + text::views(inner));
        wrapped
    } else {
        argv
    }
}

/// A program to start, with its arguments.
#[derive(Clone, Debug, PartialEq, Eq)]
pub struct Command {
    pub program: String,
    pub args: Vec<String>,
}

/// What to start for a list of a program and its arguments: nothing if the list is empty.
pub fn command(argv: Vec<String>) -> (r: Option<Command>)
    ensures
        r is None <==> argv@.len() == 0,
        r matches Some(c) ==> c.program@ == argv@[0]@ && text::views(c.args@) == text::views(
            argv@,
        ).skip(1),
{
    let mut rest: Vec<String> = argv;
    if rest.len() == 0 {
        return None;
    }
    let program: String = rest.remove(0);
    assert(text::views(rest@) =~= text::views(argv@).skip(1));
    Some(Command { program, args: rest })
}

/// Two command lines with white space between them have the arguments of the one and then those of
/// the other.
pub proof fn law_joined_lines(x: Seq<char>, c: char, y: Seq<char>)
    requires
        text::is_white_space(c),
    ensures
        argv_of(x + seq![c] + y) == argv_of(x) + argv_of(y),
{
    lemma_words_of_joined(x, c, y);
    Seq::filter_distributes_over_add(text::words(x), text::words(y), is_argument());
}

proof fn lemma_words_of_joined(x: Seq<char>, c: char, y: Seq<char>)
    requires
        text::is_white_space(c),
    ensures
        text::words(x + seq![c] + y) == text::words(x) + text::words(y),
    decreases x.len(),
{
    let s = x + seq![c] + y;
    if x.len() == 0 {
        assert(s.drop_first() =~= y);
        assert(text::words(x) + text::words(y) =~= text::words(y));
    } else if text::is_white_space(x[0]) {
        lemma_words_of_joined(x.drop_first(), c, y);
        assert(s.drop_first() =~= x.drop_first() + seq![c] + y);
    } else {
        let n = text::word_len(x) as int;
        text::lemma_word_len(x);
        lemma_word_len_of_joined(x, c, y);
        lemma_words_of_joined(x.skip(n), c, y);
        assert(s.take(n) =~= x.take(n));
        assert(s.skip(n) =~= x.skip(n) + seq![c] + y);
        assert(text::words(s) =~= text::words(x) + text::words(y));
    }
}

proof fn lemma_word_len_of_joined(x: Seq<char>, c: char, y: Seq<char>)
    requires
        text::is_white_space(c),
    ensures
        text::word_len(x + seq![c] + y) == text::word_len(x),
    decreases x.len(),
{
    let s = x + seq![c] + y;
    if x.len() > 0 && !text::is_white_space(x[0]) {
        lemma_word_len_of_joined(x.drop_first(), c, y);
        assert(s.drop_first() =~= x.drop_first() + seq![c] + y);
    }
}

/// Whether `word` stands for itself in a command line: it has a character, none of its characters
/// is white space, and it is no field code.
pub open spec fn is_plain(word: Seq<char>) -> bool {
    &&& word.len() > 0
    &&& forall|i: int| 0 <= i < word.len() ==> !text::is_white_space(#[trigger] word[i])
    &&& !is_field_code(word)
}

/// The words of a list in a line, with a space between them.
pub open spec fn line_of(list: Seq<Seq<char>>) -> Seq<char>
    decreases list.len(),
{
    if list.len() == 0 {
        seq![]
    } else if list.len() == 1 {
        list[0]
    } else {
        list[0] + seq![' '] + line_of(list.drop_first())
    }
}

/// Without quotes, white space is enough to tell arguments apart: a program and arguments that hold
/// none and are no field codes come back from the line that they are written in.
pub proof fn law_plain_arguments_come_back(list: Seq<Seq<char>>)
    requires
        forall|i: int| 0 <= i < list.len() ==> is_plain(#[trigger] list[i]),
    ensures
        argv_of(line_of(list)) == list,
    decreases list.len(),
{
    reveal_with_fuel(Seq::filter, 2);
    if list.len() == 0 {
        assert(argv_of(line_of(list)) =~= list);
    } else if list.len() == 1 {
        lemma_one_word(list[0]);
        assert(argv_of(line_of(list)) =~= list);
    } else {
        let rest = list.drop_first();
        assert forall|i: int| 0 <= i < rest.len() implies is_plain(#[trigger] rest[i]) by {
            assert(rest[i] == list[i + 1]);
        }
        law_plain_arguments_come_back(rest);
        law_joined_lines(list[0], ' ', line_of(rest));
        lemma_one_word(list[0]);
        assert(argv_of(line_of(list)) =~= list);
    }
}

proof fn lemma_one_word(word: Seq<char>)
    requires
        is_plain(word),
    ensures
        argv_of(word) == seq![word],
{
    text::lemma_word_len(word);
    let n = text::word_len(word) as int;
    if n < word.len() {
        assert(text::is_white_space(word[n]));
    }
    assert(word.take(n) =~= word);
    assert(text::words(word.skip(n)) =~= seq![]);
    assert(text::words(word) =~= seq![word] + text::words(word.skip(n)));
    lemma_first_word(word, text::words(word.skip(n)));
    reveal(Seq::filter);
    assert(argv_of(word) =~= seq![word]);
}

/// No argument is empty, holds white space or is a field code.
pub proof fn law_arguments_are_plain(line: Seq<char>, i: int)
    requires
        0 <= i < argv_of(line).len(),
    ensures
        is_plain(argv_of(line)[i]),
{
    let all = text::words(line);
    all.lemma_filter_pred(is_argument(), i);
    all.lemma_filter_contains_rev(is_argument(), argv_of(line)[i]);
    let j = choose|j: int| 0 <= j < all.len() && all[j] == argv_of(line)[i];
    lemma_words_have_no_white_space(line, j);
}

proof fn lemma_words_have_no_white_space(line: Seq<char>, j: int)
    requires
        0 <= j < text::words(line).len(),
    ensures
        text::words(line)[j].len() > 0,
        forall|i: int|
            0 <= i < text::words(line)[j].len() ==> !text::is_white_space(
                #[trigger] text::words(line)[j][i],
            ),
    decreases line.len(),
{
    if line.len() > 0 {
        if text::is_white_space(line[0]) {
            lemma_words_have_no_white_space(line.drop_first(), j);
        } else {
            text::lemma_word_len(line);
            if j > 0 {
                lemma_words_have_no_white_space(line.skip(text::word_len(line) as int), j - 1);
            }
        }
    }
}

/// A line without a word has no arguments.
pub proof fn law_blank_line(line: Seq<char>)
    requires
        forall|i: int| 0 <= i < line.len() ==> text::is_white_space(#[trigger] line[i]),
    ensures
        argv_of(line) == Seq::<Seq<char>>::empty(),
    decreases line.len(),
{
    reveal(Seq::filter);
    if line.len() > 0 {
        let rest = line.drop_first();
        assert forall|i: int| 0 <= i < rest.len() implies text::is_white_space(
            #[trigger] rest[i],
        ) by {
            assert(rest[i] == line[i + 1]);
        }
        law_blank_line(rest);
    }
}

/// A line of one word has that word for its argument, unless the word is two bytes long and begins
/// with a percent sign: then it has none. Above all a word that begins with any other character is
/// kept, such as the path of a program.
pub proof fn law_one_word(word: Seq<char>)
    requires
        word.len() > 0,
        forall|i: int| 0 <= i < word.len() ==> !text::is_white_space(#[trigger] word[i]),
    ensures
        word[0] != '%' ==> argv_of(word) == seq![word],
        encode_utf8(word).len() != 2 ==> argv_of(word) == seq![word],
        word[0] == '%' && encode_utf8(word).len() == 2 ==> argv_of(word) == Seq::<
            Seq<char>,
        >::empty(),
{
    lemma_byte_len(word);
    if is_field_code(word) {
        text::lemma_word_len(word);
        let n = text::word_len(word) as int;
        assert(word.take(n) =~= word);
        assert(text::words(word.skip(n)) =~= seq![]);
        assert(text::words(word) =~= seq![word] + text::words(word.skip(n)));
        lemma_first_word(word, text::words(word.skip(n)));
        reveal(Seq::filter);
        assert(argv_of(word) =~= seq![]);
    } else {
        lemma_one_word(word);
    }
}

/// A string of two bytes that starts with an ASCII character has one more.
proof fn lemma_byte_len(s: Seq<char>)
    ensures
        encode_utf8(s).len() >= s.len(),
        s.len() > 0 && (s[0] as u32) < 0x80 ==> (encode_utf8(s).len() == 2 <==> s.len() == 2 && (
        s[1] as u32) < 0x80),
    decreases s.len(),
{
    reveal_with_fuel(encode_utf8, 3);
    if s.len() > 0 {
        let rest = s.drop_first();
        lemma_byte_len(rest);
        assert(encode_utf8(s) == encode_scalar(s[0] as u32) + encode_utf8(rest));
        if rest.len() > 0 {
            lemma_byte_len(rest.drop_first());
            assert(rest[0] == s[1]);
            assert(encode_utf8(rest) == encode_scalar(rest[0] as u32) + encode_utf8(
                rest.drop_first(),
            ));
        }
    }
}

/// What one word adds to a line does not depend on where it stands in it: a word in the middle of a
/// line is kept between what stands before it and what follows, unless it is two bytes long and
/// begins with a percent sign.
pub proof fn law_word_within_line(x: Seq<char>, word: Seq<char>, y: Seq<char>)
    requires
        word.len() > 0,
        forall|i: int| 0 <= i < word.len() ==> !text::is_white_space(#[trigger] word[i]),
    ensures
        word[0] != '%' || encode_utf8(word).len() != 2 ==> argv_of(
            x + seq![' '] + (word + seq![' '] + y),
        ) == argv_of(x) + seq![word] + argv_of(y),
        word[0] == '%' && encode_utf8(word).len() == 2 ==> argv_of(
            x + seq![' '] + (word + seq![' '] + y),
        ) == argv_of(x) + argv_of(y),
{
    law_one_word(word);
    law_joined_lines(word, ' ', y);
    law_joined_lines(x, ' ', word + seq![' '] + y);
    assert(argv_of(x) + (seq![word] + argv_of(y)) =~= argv_of(x) + seq![word] + argv_of(y));
    assert(argv_of(x) + (Seq::<Seq<char>>::empty() + argv_of(y)) =~= argv_of(x) + argv_of(y));
}

/// An application that runs in a terminal is started as `foot -e` with the program and the
/// arguments of its command line behind it. Any other is started with these alone.
pub proof fn law_started_in_terminal(app: App)
    ensures
        app.terminal ==> {
            &&& launch_argv_of(app).len() == 2 + argv_of(app.command).len()
            &&& launch_argv_of(app)[0] == "foot"@
            &&& launch_argv_of(app)[1] == "-e"@
            &&& launch_argv_of(app).skip(2) == argv_of(app.command)
        },
        !app.terminal ==> launch_argv_of(app) == argv_of(app.command),
{
    if app.terminal {
        assert(launch_argv_of(app).skip(2) =~= argv_of(app.command));
    }
}

} // verus!

//! Laws of texts: what is cut off, where texts are cut, and how they compare.
use vstd::prelude::*;

use crate::lists;
use crate::name_map;
use crate::order;
use crate::text;

verus! {

/// The text of an optional string is there exactly where the string is.
pub proof fn optional_text_is_that_of_the_string(value: Option<String>, other: String)
    ensures
        value is None ==> text::text_option(value) is None,
        value is Some ==> text::text_option(value) == Some(value->0@),
        text::text_option(Some(other)) == Some(other@),
{
}

/// The texts of strings are their texts, in their order.
pub proof fn texts_are_those_of_the_strings(strings: Seq<String>)
    ensures
        text::texts(strings).len() == strings.len(),
        forall|i: int|
            0 <= i < strings.len() ==> #[trigger] text::texts(strings)[i] == strings[i]@,
{
}

proof fn lemma_trim_start(s: Seq<char>) -> (n: int)
    ensures
        0 <= n <= s.len(),
        text::trim_start(s) == s.skip(n),
        forall|i: int| 0 <= i < n ==> text::white_space(#[trigger] s[i]),
        n < s.len() ==> !text::white_space(s[n]),
    decreases s.len(),
{
    if s.len() > 0 && text::white_space(s.first()) {
        let rest = s.drop_first();
        let m = lemma_trim_start(rest);
        assert(rest.skip(m) == s.skip(m + 1));
        assert forall|i: int| 0 <= i < m + 1 implies text::white_space(#[trigger] s[i]) by {
            if i > 0 {
                assert(s[i] == rest[i - 1]);
            }
        }
        m + 1
    } else {
        assert(s.skip(0) == s);
        0
    }
}

proof fn lemma_trim_end(s: Seq<char>) -> (n: int)
    ensures
        0 <= n <= s.len(),
        text::trim_end(s) == s.take(n),
        forall|i: int| n <= i < s.len() ==> text::white_space(#[trigger] s[i]),
        n > 0 ==> !text::white_space(s[n - 1]),
    decreases s.len(),
{
    if s.len() > 0 && text::white_space(s.last()) {
        let init = s.drop_last();
        let m = lemma_trim_end(init);
        assert(init.take(m) == s.take(m));
        assert forall|i: int| m <= i < s.len() implies text::white_space(#[trigger] s[i]) by {
            if i < init.len() {
                assert(s[i] == init[i]);
            }
        }
        assert(m > 0 ==> init[m - 1] == s[m - 1]);
        m
    } else {
        assert(s.take(s.len() as int) == s);
        s.len() as int
    }
}

/// A trimmed text is what the text has between the white space at its ends, and
/// neither starts nor ends with white space.
pub proof fn trimmed_text_is_the_middle(s: Seq<char>) -> (r: (int, int))
    ensures
        0 <= r.0 <= r.1 <= s.len(),
        text::trim(s) == s.subrange(r.0, r.1),
        forall|i: int| 0 <= i < r.0 ==> text::white_space(#[trigger] s[i]),
        forall|i: int| r.1 <= i < s.len() ==> text::white_space(#[trigger] s[i]),
        r.0 < r.1 ==> !text::white_space(s[r.0]) && !text::white_space(s[r.1 - 1]),
{
    let a = lemma_trim_start(s);
    let t = s.skip(a);
    let n = lemma_trim_end(t);
    assert(t.take(n) == s.subrange(a, a + n));
    assert forall|i: int| a + n <= i < s.len() implies text::white_space(#[trigger] s[i]) by {
        assert(s[i] == t[i - a]);
    }
    if n > 0 {
        assert(t[n - 1] == s[a + n - 1]);
    }
    (a, a + n)
}

/// What is left of a text without the characters it ends with is where these
/// start, and no more of them are before it.
pub proof fn trimmed_end_is_where_the_characters_start(s: Seq<char>, c: char) -> (n: int)
    ensures
        0 <= n <= s.len(),
        text::trim_end_char(s, c) == s.take(n),
        forall|i: int| n <= i < s.len() ==> #[trigger] s[i] == c,
        n > 0 ==> s[n - 1] != c,
    decreases s.len(),
{
    if s.len() > 0 && s.last() == c {
        let init = s.drop_last();
        let m = trimmed_end_is_where_the_characters_start(init, c);
        assert(init.take(m) == s.take(m));
        assert forall|i: int| m <= i < s.len() implies #[trigger] s[i] == c by {
            if i < init.len() {
                assert(s[i] == init[i]);
            }
        }
        assert(m > 0 ==> init[m - 1] == s[m - 1]);
        m
    } else {
        assert(s.take(s.len() as int) == s);
        s.len() as int
    }
}

/// One more repetition of a suffix changes nothing of what is left without it,
/// and a text that does not end with the suffix stays.
pub proof fn repetitions_of_a_suffix_go(s: Seq<char>, suffix: Seq<char>)
    requires
        suffix.len() > 0,
    ensures
        text::trim_end_text(s + suffix, suffix) == text::trim_end_text(s, suffix),
        (forall|a: Seq<char>| #[trigger] (a + suffix) != s) ==> text::trim_end_text(s, suffix) == s,
{
    let t = s + suffix;
    assert(t.skip(t.len() - suffix.len()) == suffix);
    assert(t.take(t.len() - suffix.len()) == s);
    if text::ends_with(s, suffix) {
        let a = s.take(s.len() - suffix.len());
        assert(a + suffix == s);
    }
}

/// What follows a prefix is what was put behind it, and a text that has a rest
/// is the prefix and the rest.
pub proof fn prefix_and_rest_are_the_text(s: Seq<char>, prefix: Seq<char>)
    ensures
        text::strip_prefix(prefix + s, prefix) == Some(s),
        text::strip_prefix(s, prefix) matches Some(rest) ==> s == prefix + rest,
{
    let t = prefix + s;
    assert(t.take(prefix.len() as int) == prefix);
    assert(t.skip(prefix.len() as int) == s);
    if text::starts_with(s, prefix) {
        let rest = s.skip(prefix.len() as int);
        assert(s.take(prefix.len() as int) + rest == s);
    }
}

/// A text without a mark is one part; a mark ends the part before it.
pub proof fn marks_separate_parts(a: Seq<char>, mark: char, b: Seq<char>, marks: Seq<char>)
    requires
        forall|i: int| 0 <= i < a.len() ==> !marks.contains(#[trigger] a[i]),
        marks.contains(mark),
    ensures
        text::split(a, marks) == seq![a],
        text::split(a.push(mark) + b, marks) == seq![a] + text::split(b, marks),
{
    let s = a.push(mark) + b;
    let n = a.len() as int;
    text::lemma_span_is(a, marks, n);
    assert forall|i: int| 0 <= i < n implies !marks.contains(#[trigger] s[i]) by {
        assert(s[i] == a[i]);
    }
    assert(s[n] == mark);
    text::lemma_span_is(s, marks, n);
    assert(s.take(n) == a);
    assert(s.skip(n + 1) == b);
}

/// A text is cut once at its first mark, and not at all without one.
pub proof fn first_mark_cuts_once(a: Seq<char>, mark: char, b: Seq<char>)
    requires
        !a.contains(mark),
    ensures
        text::split_once(a, mark) is None,
        text::split_once(a.push(mark) + b, mark) == Some((a, b)),
{
    let marks = seq![mark];
    assert(marks[0] == mark);
    let s = a.push(mark) + b;
    let n = a.len() as int;
    assert forall|i: int| 0 <= i < n implies !marks.contains(#[trigger] a[i]) by {
        assert(a[i] != mark);
    }
    text::lemma_span_is(a, marks, n);
    assert forall|i: int| 0 <= i < n implies !marks.contains(#[trigger] s[i]) by {
        assert(s[i] == a[i]);
    }
    assert(s[n] == mark);
    text::lemma_span_is(s, marks, n);
    assert(s.take(n) == a);
    assert(s.skip(n + 1) == b);
}

/// The parts of two lists are trimmed part by part, and a part is dropped where
/// nothing is left of it.
pub proof fn parts_are_trimmed_one_by_one(a: Seq<Seq<char>>, b: Seq<Seq<char>>, part: Seq<char>)
    ensures
        text::trimmed_parts(a + b) == text::trimmed_parts(a) + text::trimmed_parts(b),
        text::trim(part).len() == 0 ==> text::trimmed_parts(seq![part]).len() == 0,
        text::trim(part).len() > 0 ==> text::trimmed_parts(seq![part]) == seq![text::trim(part)],
    decreases b.len(),
{
    let none = Seq::<Seq<char>>::empty();
    assert(seq![part].drop_last() == none);
    assert(text::trimmed_parts(none) == none);
    assert(text::trimmed_parts(seq![part]) == if text::trim(part).len() == 0 {
        none
    } else {
        none.push(text::trim(part))
    });
    if b.len() == 0 {
        assert(a + b == a);
        assert(text::trimmed_parts(a) + none == text::trimmed_parts(a));
    } else {
        parts_are_trimmed_one_by_one(a, b.drop_last(), part);
        assert((a + b).drop_last() == a + b.drop_last());
        assert((a + b).last() == b.last());
        let x = text::trimmed_parts(a);
        let y = text::trimmed_parts(b.drop_last());
        assert(x + y.push(text::trim(b.last())) == (x + y).push(text::trim(b.last())));
    }
}

proof fn lemma_split_at_any_mark(x: Seq<char>, mark: char, y: Seq<char>, marks: Seq<char>)
    requires
        marks.contains(mark),
    ensures
        text::split(x.push(mark) + y, marks) == text::split(x, marks) + text::split(y, marks),
    decreases x.len(),
{
    text::lemma_span(x, marks);
    let n = text::span(x, marks);
    if n < x.len() {
        let a = x.take(n);
        let rest = x.skip(n + 1);
        assert forall|i: int| 0 <= i < a.len() implies !marks.contains(#[trigger] a[i]) by {
            assert(a[i] == x[i]);
        }
        lemma_split_at_any_mark(rest, mark, y, marks);
        assert(x == a.push(x[n]) + rest);
        assert(x.push(mark) + y == a.push(x[n]) + (rest.push(mark) + y));
        marks_separate_parts(a, x[n], rest, marks);
        marks_separate_parts(a, x[n], rest.push(mark) + y, marks);
        assert(seq![a] + (text::split(rest, marks) + text::split(y, marks)) == seq![a]
            + text::split(rest, marks) + text::split(y, marks));
    } else {
        marks_separate_parts(x, mark, y, marks);
    }
}

/// The entries of a list are those before a mark and those after it, wherever
/// the mark is.
pub proof fn lists_are_read_piece_by_piece(
    a: Seq<char>,
    mark: char,
    b: Seq<char>,
    marks: Seq<char>,
)
    requires
        marks.contains(mark),
    ensures
        text::list_entries(a.push(mark) + b, marks) == text::list_entries(a, marks)
            + text::list_entries(b, marks),
{
    lemma_split_at_any_mark(a, mark, b, marks);
    parts_are_trimmed_one_by_one(text::split(a, marks), text::split(b, marks), a);
}

/// A list without a mark has one entry, the trimmed text, or none where that is
/// empty.
pub proof fn list_without_a_mark(a: Seq<char>, marks: Seq<char>)
    requires
        forall|i: int| 0 <= i < a.len() ==> !marks.contains(#[trigger] a[i]),
    ensures
        text::trim(a).len() == 0 ==> text::list_entries(a, marks).len() == 0,
        text::trim(a).len() > 0 ==> text::list_entries(a, marks) == seq![text::trim(a)],
{
    text::lemma_span_is(a, marks, a.len() as int);
    parts_are_trimmed_one_by_one(seq![a], seq![a], a);
}

/// Lower case changes the letters from `A` to `Z` alone, by the distance of the
/// cases, and keeps every place.
pub proof fn lower_case_changes_capitals_alone(s: Seq<char>, i: int)
    requires
        0 <= i < s.len(),
    ensures
        text::lower(s).len() == s.len(),
        65 <= s[i] as int <= 90 ==> text::lower(s)[i] as int == s[i] as int + 32,
        !(65 <= s[i] as int <= 90) ==> text::lower(s)[i] == s[i],
{
}

proof fn lemma_words_of_both(a: Seq<char>, space: char, b: Seq<char>)
    requires
        text::white_space(space),
    ensures
        text::words(a.push(space) + b) == text::words(a) + text::words(b),
        b.len() > 0 && !text::white_space(b.last()) ==> text::words(b).len() > 0,
    decreases b.len(),
{
    let s = a.push(space) + b;
    if b.len() == 0 {
        assert(s == a.push(space));
        assert(s.drop_last() == a);
        assert(text::words(a) + text::words(b) == text::words(a));
    } else {
        let init = b.drop_last();
        let c = b.last();
        lemma_words_of_both(a, space, init);
        assert(s.drop_last() == a.push(space) + init);
        assert(s.last() == c);
        let x = text::words(a);
        let y = text::words(init);
        if !text::white_space(c) {
            if b.len() >= 2 {
                assert(s[s.len() - 2] == b[b.len() - 2]);
                assert(init.last() == b[b.len() - 2]);
                if !text::white_space(b[b.len() - 2]) {
                    assert((x + y).drop_last() == x + y.drop_last());
                    assert((x + y).last() == y.last());
                    let grown = y.last().push(c);
                    assert((x + y.drop_last()).push(grown) == x + y.drop_last().push(grown));
                } else {
                    assert((x + y).push(seq![c]) == x + y.push(seq![c]));
                }
            } else {
                assert(s[s.len() - 2] == space);
                assert((x + y).push(seq![c]) == x + y.push(seq![c]));
            }
        }
    }
}

proof fn lemma_join_both(x: Seq<Seq<char>>, y: Seq<Seq<char>>, between: Seq<char>)
    ensures
        x.len() == 0 ==> text::join(x + y, between) == text::join(y, between),
        y.len() == 0 ==> text::join(x + y, between) == text::join(x, between),
        x.len() > 0 && y.len() > 0 ==> text::join(x + y, between) == text::join(x, between)
            + between + text::join(y, between),
    decreases y.len(),
{
    if x.len() == 0 {
        assert(x + y == y);
    } else if y.len() == 0 {
        assert(x + y == x);
    } else {
        lemma_join_both(x, y.drop_last(), between);
        assert((x + y).drop_last() == x + y.drop_last());
        assert((x + y).last() == y.last());
        if y.len() == 1 {
            assert(x + y.drop_last() == x);
        } else {
            let a = text::join(x, between);
            let b = text::join(y.drop_last(), between);
            assert(a + between + b + between + y.last() == a + between + (b + between + y.last()));
        }
    }
}

proof fn lemma_join_filled(x: Seq<Seq<char>>, between: Seq<char>)
    requires
        x.len() > 0,
        forall|i: int| 0 <= i < x.len() ==> (#[trigger] x[i]).len() > 0,
    ensures
        text::join(x, between).len() > 0,
{
    assert(x[x.len() - 1].len() > 0);
}

/// The fold of a word is the word in lower case.
pub proof fn fold_of_a_word(word: Seq<char>)
    requires
        forall|i: int| 0 <= i < word.len() ==> !text::white_space(#[trigger] word[i]),
    ensures
        lists::fold(word) == text::lower(word),
{
    lemma_one_word(word);
    if word.len() == 0 {
        assert(text::join(text::words(word), seq![' ']) == word);
    }
}

proof fn lemma_one_word(word: Seq<char>)
    requires
        forall|i: int| 0 <= i < word.len() ==> !text::white_space(#[trigger] word[i]),
    ensures
        word.len() > 0 ==> text::words(word) == seq![word],
        word.len() == 0 ==> text::words(word).len() == 0,
    decreases word.len(),
{
    if word.len() > 0 {
        let init = word.drop_last();
        assert(forall|i: int| 0 <= i < init.len() ==> #[trigger] init[i] == word[i]);
        lemma_one_word(init);
        assert(word[word.len() - 1] == word.last());
        if word.len() >= 2 {
            assert(!text::white_space(word[word.len() - 2]));
            assert(init.push(word.last()) == word);
            assert(seq![init].drop_last().push(word) == seq![word]);
        } else {
            assert(seq![word.last()] == word);
            assert(text::words(init) == Seq::<Seq<char>>::empty());
            assert(text::words(init).push(word) == seq![word]);
        }
    }
}

/// The fold of two texts with white space between them is both folds, with one
/// space between them where neither is empty.
pub proof fn fold_of_two_texts(a: Seq<char>, space: char, b: Seq<char>)
    requires
        text::white_space(space),
    ensures
        lists::fold(a.push(space) + b) == if lists::fold(a).len() == 0 {
            lists::fold(b)
        } else if lists::fold(b).len() == 0 {
            lists::fold(a)
        } else {
            lists::fold(a).push(' ') + lists::fold(b)
        },
{
    lemma_words_of_both(a, space, b);
    let x = text::words(a);
    let y = text::words(b);
    let gap = seq![' '];
    lemma_join_both(x, y, gap);
    text::lemma_words_not_empty(a);
    text::lemma_words_not_empty(b);
    if x.len() > 0 {
        lemma_join_filled(x, gap);
    }
    if y.len() > 0 {
        lemma_join_filled(y, gap);
    }
    let ja = text::join(x, gap);
    let jb = text::join(y, gap);
    if x.len() > 0 && y.len() > 0 {
        assert(text::lower(ja + gap + jb) == text::lower(ja).push(' ') + text::lower(jb));
    }
}

/// A line ends at a line feed, and a carriage return before that belongs to the
/// end; the last line needs no end.
pub proof fn line_feeds_end_lines(a: Seq<char>, b: Seq<char>)
    requires
        !a.contains('\n'),
    ensures
        text::lines(Seq::<char>::empty()).len() == 0,
        a.len() > 0 ==> text::lines(a) == seq![a],
        a.len() == 0 || a.last() != '\r' ==> text::lines(a.push('\n') + b) == seq![a]
            + text::lines(b),
        text::lines(a.push('\r').push('\n') + b) == seq![a] + text::lines(b),
{
    let marks = seq!['\n'];
    assert(marks[0] == '\n');
    let n = a.len() as int;
    assert forall|i: int| 0 <= i < n implies !marks.contains(#[trigger] a[i]) by {
        assert(a[i] != '\n');
    }
    text::lemma_span_is(a, marks, n);
    let s = a.push('\n') + b;
    assert forall|i: int| 0 <= i < n implies !marks.contains(#[trigger] s[i]) by {
        assert(s[i] == a[i]);
    }
    assert(s[n] == '\n');
    text::lemma_span_is(s, marks, n);
    assert(s.take(n) == a);
    assert(s.skip(n + 1) == b);
    let t = a.push('\r').push('\n') + b;
    assert forall|i: int| 0 <= i < n + 1 implies !marks.contains(#[trigger] t[i]) by {
        if i < n {
            assert(t[i] == a[i]);
        }
    }
    assert(t[n + 1] == '\n');
    text::lemma_span_is(t, marks, n + 1);
    assert(t.take(n + 1) == a.push('\r'));
    assert(t.skip(n + 2) == b);
    assert(a.push('\r').drop_last() == a);
}

/// A text comes before another if and only if, at the first place where they
/// differ, it has ended or has the smaller character.
pub proof fn first_difference_orders(common: Seq<char>, a: Seq<char>, b: Seq<char>)
    requires
        a.len() > 0 && b.len() > 0 ==> a[0] != b[0],
    ensures
        order::before(common + a, common + b) <==> b.len() > 0 && (a.len() == 0 || (a[0] as int)
            < (b[0] as int)),
    decreases common.len(),
{
    if common.len() == 0 {
        assert(common + a == a);
        assert(common + b == b);
    } else {
        let rest = common.drop_first();
        first_difference_orders(rest, a, b);
        assert((common + a).drop_first() == rest + a);
        assert((common + b).drop_first() == rest + b);
    }
}

/// Names are in order where each comes before all that follow it.
pub proof fn ordered_names_ascend<T>(entries: Seq<(Seq<char>, T)>)
    ensures
        name_map::ascending(entries) <==> forall|i: int, j: int|
            0 <= i < j < entries.len() ==> order::before(
                (#[trigger] entries[i]).0,
                (#[trigger] entries[j]).0,
            ),
{
}

} // verus!

//! Texts as sequences of characters: trimming, splitting and comparing.
use vstd::prelude::*;

verus! {

/// The texts held by a sequence of strings.
pub open spec fn texts(strings: Seq<String>) -> Seq<Seq<char>> {
    Seq::new(strings.len(), |i: int| strings[i]@)
}

/// The text held by an optional string.
pub open spec fn text_option(string: Option<String>) -> Option<Seq<char>> {
    match string {
        Some(s) => Some(s@),
        None => None,
    }
}

/// The characters with the Unicode property `White_Space`.
pub open spec fn white_space(c: char) -> bool {
    let n = c as u32;
    ||| 0x09 <= n <= 0x0d
    ||| n == 0x20
    ||| n == 0x85
    ||| n == 0xa0
    ||| n == 0x1680
    ||| 0x2000 <= n <= 0x200a
    ||| n == 0x2028
    ||| n == 0x2029
    ||| n == 0x202f
    ||| n == 0x205f
    ||| n == 0x3000
}

/// `s` without the white space it starts with.
pub open spec fn trim_start(s: Seq<char>) -> Seq<char>
    decreases s.len(),
{
    if s.len() > 0 && white_space(s.first()) {
        trim_start(s.drop_first())
    } else {
        s
    }
}

/// `s` without the white space it ends with.
pub open spec fn trim_end(s: Seq<char>) -> Seq<char>
    decreases s.len(),
{
    if s.len() > 0 && white_space(s.last()) {
        trim_end(s.drop_last())
    } else {
        s
    }
}

/// `s` without the white space at either end.
pub open spec fn trim(s: Seq<char>) -> Seq<char> {
    trim_end(trim_start(s))
}

/// `s` without the occurrences of `c` it ends with.
pub open spec fn trim_end_char(s: Seq<char>, c: char) -> Seq<char>
    decreases s.len(),
{
    if s.len() > 0 && s.last() == c {
        trim_end_char(s.drop_last(), c)
    } else {
        s
    }
}

pub open spec fn starts_with(s: Seq<char>, prefix: Seq<char>) -> bool {
    prefix.len() <= s.len() && s.take(prefix.len() as int) == prefix
}

pub open spec fn ends_with(s: Seq<char>, suffix: Seq<char>) -> bool {
    suffix.len() <= s.len() && s.skip(s.len() - suffix.len()) == suffix
}

/// What follows `prefix` in `s`, where `s` starts with it.
pub open spec fn strip_prefix(s: Seq<char>, prefix: Seq<char>) -> Option<Seq<char>> {
    if starts_with(s, prefix) {
        Some(s.skip(prefix.len() as int))
    } else {
        None
    }
}

/// `s` without the repetitions of `suffix` it ends with.
pub open spec fn trim_end_text(s: Seq<char>, suffix: Seq<char>) -> Seq<char>
    decreases s.len(),
{
    if suffix.len() > 0 && ends_with(s, suffix) {
        trim_end_text(s.take(s.len() - suffix.len()), suffix)
    } else {
        s
    }
}

/// The number of characters of `s` before the first one that is in `marks`.
pub open spec fn span(s: Seq<char>, marks: Seq<char>) -> int
    decreases s.len(),
{
    if s.len() == 0 || marks.contains(s.first()) {
        0
    } else {
        1 + span(s.drop_first(), marks)
    }
}

/// The parts of `s` between the characters that are in `marks`.
pub open spec fn split(s: Seq<char>, marks: Seq<char>) -> Seq<Seq<char>>
    decreases s.len(),
{
    let n = span(s, marks);
    if 0 <= n < s.len() {
        seq![s.take(n)] + split(s.skip(n + 1), marks)
    } else {
        seq![s]
    }
}

/// `s` cut at the first `mark`: what comes before it, and what comes after.
pub open spec fn split_once(s: Seq<char>, mark: char) -> Option<(Seq<char>, Seq<char>)> {
    let n = span(s, seq![mark]);
    if 0 <= n < s.len() {
        Some((s.take(n), s.skip(n + 1)))
    } else {
        None
    }
}

/// The parts, each trimmed, without those that are then empty.
pub open spec fn trimmed_parts(parts: Seq<Seq<char>>) -> Seq<Seq<char>>
    decreases parts.len(),
{
    if parts.len() == 0 {
        Seq::empty()
    } else {
        let rest = trimmed_parts(parts.drop_last());
        let part = trim(parts.last());
        if part.len() == 0 {
            rest
        } else {
            rest.push(part)
        }
    }
}

/// The entries of a list whose entries are set off by `marks`.
pub open spec fn list_entries(s: Seq<char>, marks: Seq<char>) -> Seq<Seq<char>> {
    trimmed_parts(split(s, marks))
}

/// The ASCII lower case of a character.
pub open spec fn lower_char(c: char) -> char {
    if 'A' <= c <= 'Z' {
        (c as u8 + 32) as u8 as char
    } else {
        c
    }
}

/// `s` with its ASCII letters in lower case.
pub open spec fn lower(s: Seq<char>) -> Seq<char> {
    Seq::new(s.len(), |i: int| lower_char(s[i]))
}

/// The words of `s`: its longest runs of characters that are not white space.
pub open spec fn words(s: Seq<char>) -> Seq<Seq<char>>
    decreases s.len(),
{
    if s.len() == 0 {
        Seq::empty()
    } else {
        let before = words(s.drop_last());
        let c = s.last();
        if white_space(c) {
            before
        } else if s.len() >= 2 && !white_space(s[s.len() - 2]) {
            before.drop_last().push(before.last().push(c))
        } else {
            before.push(seq![c])
        }
    }
}

/// The parts one after the other, with `between` set between them.
pub open spec fn join(parts: Seq<Seq<char>>, between: Seq<char>) -> Seq<char>
    decreases parts.len(),
{
    if parts.len() == 0 {
        Seq::empty()
    } else if parts.len() == 1 {
        parts[0]
    } else {
        join(parts.drop_last(), between) + between + parts.last()
    }
}

/// The lines of `s`. A line ends at a line feed, with a carriage return
/// directly before it taken as a part of the line end; the last line needs no
/// line end.
pub open spec fn lines(s: Seq<char>) -> Seq<Seq<char>>
    decreases s.len(),
{
    let n = span(s, seq!['\n']);
    if s.len() == 0 {
        Seq::empty()
    } else if 0 <= n < s.len() {
        seq![without_return(s.take(n))] + lines(s.skip(n + 1))
    } else {
        seq![s]
    }
}

/// `line` without the carriage return it ends with.
pub open spec fn without_return(line: Seq<char>) -> Seq<char> {
    if line.len() > 0 && line.last() == '\r' {
        line.drop_last()
    } else {
        line
    }
}

/// Before the place that `span` gives there is no mark, and at it there is one.
pub proof fn lemma_span(s: Seq<char>, marks: Seq<char>)
    ensures
        0 <= span(s, marks) <= s.len(),
        forall|j: int| 0 <= j < span(s, marks) ==> !marks.contains(#[trigger] s[j]),
        span(s, marks) < s.len() ==> marks.contains(s[span(s, marks)]),
    decreases s.len(),
{
    if s.len() > 0 && !marks.contains(s.first()) {
        let rest = s.drop_first();
        lemma_span(rest, marks);
        assert forall|j: int| 0 <= j < span(s, marks) implies !marks.contains(
            #[trigger] s[j],
        ) by {
            if j > 0 {
                assert(s[j] == rest[j - 1]);
            }
        }
    }
}

/// The place before which there is no mark, and at which there is one, is the
/// one that `span` gives.
pub proof fn lemma_span_is(s: Seq<char>, marks: Seq<char>, n: int)
    requires
        0 <= n <= s.len(),
        forall|j: int| 0 <= j < n ==> !marks.contains(#[trigger] s[j]),
        n < s.len() ==> marks.contains(s[n]),
    ensures
        span(s, marks) == n,
{
    lemma_span(s, marks);
    let m = span(s, marks);
    if m < n {
        assert(!marks.contains(s[m]));
    }
}

proof fn lemma_trim_start_skip(s: Seq<char>, n: int)
    requires
        0 <= n <= s.len(),
        forall|j: int| 0 <= j < n ==> white_space(#[trigger] s[j]),
    ensures
        trim_start(s) == trim_start(s.skip(n)),
    decreases n,
{
    if n == 0 {
        assert(s.skip(0) == s);
    } else {
        assert(white_space(s[0]));
        let rest = s.drop_first();
        assert forall|j: int| 0 <= j < n - 1 implies white_space(#[trigger] rest[j]) by {
            assert(rest[j] == s[j + 1]);
        }
        lemma_trim_start_skip(rest, n - 1);
        assert(rest.skip(n - 1) == s.skip(n));
    }
}

/// Whether a character has the Unicode property `White_Space`.
pub fn is_white_space(c: char) -> (r: bool)
    ensures
        r == white_space(c),
{
    let n: u32 = c as u32;
    (0x09 <= n && n <= 0x0d) || n == 0x20 || n == 0x85 || n == 0xa0 || n == 0x1680 || (0x2000 <= n
        && n <= 0x200a) || n == 0x2028 || n == 0x2029 || n == 0x202f || n == 0x205f || n == 0x3000
}

/// The characters of a text, as a vector that can be indexed.
pub fn chars_of(text: &str) -> (r: Vec<char>)
    ensures
        r@ == text@,
{
    let mut r: Vec<char> = Vec::new();
    for c in it: text.chars()
        invariant
            it.seq() == text@,
            r@ == text@.take(it.index() as int),
    {
        r.push(c);
    }
    assert(text@.take(text@.len() as int) == text@);
    r
}

/// The text made of `chars[from..to]`.
pub fn text_between(chars: &[char], from: usize, to: usize) -> (r: String)
    requires
        from <= to <= chars@.len(),
    ensures
        r@ == chars@.subrange(from as int, to as int),
{
    let mut r = String::new();
    let mut i: usize = from;
    while i < to
        invariant
            from <= i <= to <= chars@.len(),
            r@ == chars@.subrange(from as int, i as int),
        decreases to - i,
    {
        r.push(chars[i]);
        i += 1;
    }
    r
}

/// Whether two texts are the same.
pub fn same_text(a: &str, b: &str) -> (r: bool)
    ensures
        r == (a@ == b@),
{
    proof {
        vstd::utf8::encode_utf8_decode_utf8(a@);
        vstd::utf8::encode_utf8_decode_utf8(b@);
    }
    let x = a.as_bytes();
    let y = b.as_bytes();
    if x.len() != y.len() {
        return false;
    }
    let mut i: usize = 0;
    while i < x.len()
        invariant
            i <= x@.len(),
            x@.len() == y@.len(),
            x@ == vstd::utf8::encode_utf8(a@),
            y@ == vstd::utf8::encode_utf8(b@),
            forall|j: int| 0 <= j < i ==> x@[j] == y@[j],
        decreases x@.len() - i,
    {
        if x[i] != y[i] {
            return false;
        }
        i += 1;
    }
    assert(x@ == y@);
    true
}

/// Whether `c` is one of `marks`.
pub fn is_one_of(c: char, marks: &[char]) -> (r: bool)
    ensures
        r == marks@.contains(c),
{
    let mut i: usize = 0;
    while i < marks.len()
        invariant
            i <= marks@.len(),
            forall|j: int| 0 <= j < i ==> marks@[j] != c,
        decreases marks@.len() - i,
    {
        if marks[i] == c {
            assert(marks@[i as int] == c);
            return true;
        }
        i += 1;
    }
    false
}

/// `str::trim`.
pub fn trimmed(text: &str) -> (r: String)
    ensures
        r@ == trim(text@),
{
    let chars = chars_of(text);
    let mut from: usize = 0;
    while from < chars.len() && is_white_space(chars[from])
        invariant
            from <= chars@.len(),
            forall|j: int| 0 <= j < from ==> white_space(#[trigger] chars@[j]),
        decreases chars@.len() - from,
    {
        from += 1;
    }
    proof {
        lemma_trim_start_skip(chars@, from as int);
        let rest = chars@.skip(from as int);
        assert(rest.len() > 0 ==> rest.first() == chars@[from as int]);
        assert(trim_start(chars@) == rest);
        assert(chars@.subrange(from as int, chars@.len() as int) == rest);
    }
    let mut to: usize = chars.len();
    while from < to && is_white_space(chars[to - 1])
        invariant
            from <= to <= chars@.len(),
            trim(chars@) == trim_end(chars@.subrange(from as int, to as int)),
        decreases to,
    {
        proof {
            let s = chars@.subrange(from as int, to as int);
            assert(s.last() == chars@[to - 1]);
            assert(s.drop_last() == chars@.subrange(from as int, to - 1));
        }
        to -= 1;
    }
    proof {
        let s = chars@.subrange(from as int, to as int);
        assert(s.len() > 0 ==> s.last() == chars@[to - 1]);
    }
    text_between(&chars, from, to)
}

/// `str::trim_end_matches` with a character.
pub fn trimmed_end_char(text: &str, c: char) -> (r: String)
    ensures
        r@ == trim_end_char(text@, c),
{
    let chars = chars_of(text);
    let mut to: usize = chars.len();
    assert(chars@.take(to as int) == chars@);
    while 0 < to && chars[to - 1] == c
        invariant
            to <= chars@.len(),
            trim_end_char(chars@, c) == trim_end_char(chars@.take(to as int), c),
        decreases to,
    {
        assert(chars@.take(to as int).drop_last() == chars@.take(to - 1));
        to -= 1;
    }
    assert(chars@.subrange(0, to as int) == chars@.take(to as int));
    text_between(&chars, 0, to)
}

/// Whether `chars` holds `piece` from the position `at` on.
fn holds_at(chars: &[char], at: usize, piece: &[char]) -> (r: bool)
    requires
        at <= chars@.len(),
    ensures
        r == (piece@.len() <= chars@.len() - at && chars@.subrange(at as int, at + piece@.len())
            == piece@),
{
    let len: usize = chars.len();
    if piece.len() > len - at {
        return false;
    }
    let mut i: usize = 0;
    while i < piece.len()
        invariant
            i <= piece@.len(),
            at + piece@.len() <= chars@.len(),
            len == chars@.len(),
            forall|j: int| 0 <= j < i ==> chars@[at + j] == #[trigger] piece@[j],
        decreases piece@.len() - i,
    {
        if chars[at + i] != piece[i] {
            assert(chars@.subrange(at as int, at + piece@.len())[i as int] != piece@[i as int]);
            return false;
        }
        i += 1;
    }
    assert(chars@.subrange(at as int, at + piece@.len()) == piece@);
    true
}

/// `str::strip_prefix`.
pub fn stripped_prefix(text: &str, prefix: &str) -> (r: Option<String>)
    ensures
        text_option(r) == strip_prefix(text@, prefix@),
{
    let chars = chars_of(text);
    let piece = chars_of(prefix);
    if holds_at(&chars, 0, &piece) {
        assert(chars@.subrange(0, piece@.len() as int) == chars@.take(piece@.len() as int));
        assert(chars@.subrange(piece@.len() as int, chars@.len() as int) == chars@.skip(
            piece@.len() as int,
        ));
        Some(text_between(&chars, piece.len(), chars.len()))
    } else {
        proof {
            if piece@.len() <= chars@.len() {
                assert(chars@.subrange(0, piece@.len() as int) == chars@.take(piece@.len() as int));
            }
        }
        None
    }
}

/// `str::trim_end_matches` with a text that is not empty.
pub fn trimmed_end_text(text: &str, suffix: &str) -> (r: String)
    ensures
        r@ == trim_end_text(text@, suffix@),
{
    let chars = chars_of(text);
    let piece = chars_of(suffix);
    let mut to: usize = chars.len();
    assert(chars@.take(to as int) == chars@);
    assert(chars@.subrange(0, to as int) == chars@);
    while 0 < piece.len() && piece.len() <= to && holds_at(&chars, to - piece.len(), &piece)
        invariant
            to <= chars@.len(),
            piece@ == suffix@,
            trim_end_text(chars@, suffix@) == trim_end_text(chars@.take(to as int), suffix@),
        decreases to,
    {
        proof {
            let s = chars@.take(to as int);
            assert(chars@.subrange(to - piece@.len(), to as int) == s.skip(to - piece@.len()));
            assert(s.take(to - piece@.len()) == chars@.take(to - piece@.len()));
        }
        to -= piece.len();
    }
    proof {
        let s = chars@.take(to as int);
        if 0 < piece@.len() <= to {
            assert(chars@.subrange(to - piece@.len(), to as int) == s.skip(to - piece@.len()));
        }
        assert(chars@.subrange(0, to as int) == s);
    }
    text_between(&chars, 0, to)
}

/// The position of the first character at or after `from` that is one of
/// `marks`, or the length of `chars`.
fn next_mark(chars: &[char], from: usize, marks: &[char]) -> (r: usize)
    requires
        from <= chars@.len(),
    ensures
        from <= r <= chars@.len(),
        r == from + span(chars@.skip(from as int), marks@),
{
    let mut i: usize = from;
    while i < chars.len() && !is_one_of(chars[i], marks)
        invariant
            from <= i <= chars@.len(),
            forall|j: int| from <= j < i ==> !marks@.contains(#[trigger] chars@[j]),
        decreases chars@.len() - i,
    {
        i += 1;
    }
    proof {
        let s = chars@.skip(from as int);
        assert forall|j: int| 0 <= j < i - from implies !marks@.contains(#[trigger] s[j]) by {
            assert(s[j] == chars@[from + j]);
        }
        assert(i < chars@.len() ==> s[i - from] == chars@[i as int]);
        lemma_span_is(s, marks@, i - from);
    }
    i
}

/// `str::split` with a set of characters.
pub fn split_text(text: &str, marks: &[char]) -> (r: Vec<String>)
    ensures
        texts(r@) == split(text@, marks@),
{
    let chars = chars_of(text);
    let mut r: Vec<String> = Vec::new();
    let mut from: usize = 0;
    assert(chars@.skip(0) == chars@);
    assert(texts(r@) + split(chars@, marks@) == split(chars@, marks@));
    loop
        invariant
            from <= chars@.len(),
            chars@ == text@,
            split(text@, marks@) == texts(r@) + split(chars@.skip(from as int), marks@),
        decreases chars@.len() - from,
    {
        let at = next_mark(&chars, from, marks);
        let part = text_between(&chars, from, at);
        let ghost s = chars@.skip(from as int);
        let ghost done = texts(r@);
        r.push(part);
        assert(texts(r@) == done.push(part@));
        assert(s.take(at - from) == part@);
        if at == chars.len() {
            assert(s.take(at - from) == s);
            assert(done + seq![s] == done.push(s));
            return r;
        }
        proof {
            assert(s.skip(at - from + 1) == chars@.skip(at + 1));
            let rest = split(chars@.skip(at + 1), marks@);
            assert(done + (seq![part@] + rest) == done.push(part@) + rest);
        }
        from = at + 1;
    }
}

/// `str::split_once` with a character.
pub fn split_text_once(text: &str, mark: char) -> (r: Option<(String, String)>)
    ensures
        match r {
            Some(cut) => split_once(text@, mark) == Some((cut.0@, cut.1@)),
            None => split_once(text@, mark) is None,
        },
{
    let chars = chars_of(text);
    let marks: [char; 1] = [mark];
    assert(marks@ == seq![mark]);
    assert(chars@.skip(0) == chars@);
    let at = next_mark(&chars, 0, &marks);
    if at < chars.len() {
        let before = text_between(&chars, 0, at);
        let after = text_between(&chars, at + 1, chars.len());
        assert(before@ == chars@.take(at as int));
        assert(after@ == chars@.skip(at + 1));
        Some((before, after))
    } else {
        None
    }
}

/// The parts, each trimmed, without those that are then empty.
pub fn trimmed_entries(parts: &Vec<String>) -> (r: Vec<String>)
    ensures
        texts(r@) == trimmed_parts(texts(parts@)),
{
    let ghost all = texts(parts@);
    let mut r: Vec<String> = Vec::new();
    let mut i: usize = 0;
    assert(texts(r@) == trimmed_parts(all.take(0)));
    while i < parts.len()
        invariant
            i <= parts@.len(),
            all == texts(parts@),
            texts(r@) == trimmed_parts(all.take(i as int)),
        decreases parts@.len() - i,
    {
        let part = trimmed(&parts[i]);
        let ghost done = texts(r@);
        assert(all.take(i + 1).drop_last() == all.take(i as int));
        assert(all.take(i + 1).last() == parts@[i as int]@);
        if !part.as_str().is_empty() {
            r.push(part);
            assert(texts(r@) == done.push(part@));
        }
        i += 1;
    }
    assert(all.take(i as int) == all);
    r
}

/// The entries of a list whose entries are set off by `marks`: trimmed, and
/// without empty ones.
pub fn entries_of_list(text: &str, marks: &[char]) -> (r: Vec<String>)
    ensures
        texts(r@) == list_entries(text@, marks@),
{
    let parts = split_text(text, marks);
    trimmed_entries(&parts)
}

/// The ASCII lower case of a character.
pub fn lower_of(c: char) -> (r: char)
    ensures
        r == lower_char(c),
{
    if 'A' <= c && c <= 'Z' {
        (c as u8 + 32) as char
    } else {
        c
    }
}

/// `str::to_ascii_lowercase`.
pub fn lowered(text: &str) -> (r: String)
    ensures
        r@ == lower(text@),
{
    let mut r = String::new();
    for c in it: text.chars()
        invariant
            it.seq() == text@,
            r@ == lower(text@.take(it.index() as int)),
    {
        r.push(lower_of(c));
    }
    assert(text@.take(text@.len() as int) == text@);
    r
}

/// No word is empty, and there is one where not all is white space.
pub proof fn lemma_words_not_empty(s: Seq<char>)
    ensures
        forall|i: int| 0 <= i < words(s).len() ==> (#[trigger] words(s)[i]).len() > 0,
        words(s).len() == 0 <==> forall|i: int| 0 <= i < s.len() ==> white_space(#[trigger] s[i]),
    decreases s.len(),
{
    if s.len() > 0 {
        let before = s.drop_last();
        lemma_words_not_empty(before);
        assert(forall|i: int| 0 <= i < before.len() ==> before[i] == s[i]);
        assert(s[s.len() - 1] == s.last());
        if !white_space(s.last()) && s.len() >= 2 && !white_space(s[s.len() - 2]) {
            assert(before[before.len() - 1] == s[s.len() - 2]);
        }
    }
}

proof fn lemma_lower_push(s: Seq<char>, c: char)
    ensures
        lower(s.push(c)) == lower(s).push(lower_char(c)),
{
}

/// The words of a text in ASCII lower case, with one space between them.
pub fn folded(text: &str) -> (r: String)
    ensures
        r@ == lower(join(words(text@), seq![' '])),
{
    let mut r = String::new();
    let mut in_word: bool = false;
    for c in it: text.chars()
        invariant
            it.seq() == text@,
            r@ == lower(join(words(text@.take(it.index() as int)), seq![' '])),
            in_word == (it.index() > 0 && !white_space(text@[it.index() - 1])),
    {
        let ghost n = it.index() as int;
        let ghost s = text@.take(n + 1);
        let ghost before = words(text@.take(n));
        let ghost joined = join(before, seq![' ']);
        proof {
            assert(s.drop_last() == text@.take(n));
            assert(s.last() == c);
            lemma_words_not_empty(text@.take(n));
        }
        if is_white_space(c) {
            in_word = false;
        } else {
            if in_word {
                proof {
                    let old_last = before.last();
                    let now = words(s);
                    assert(s[n - 1] == text@[n - 1]);
                    assert(text@.take(n)[n - 1] == text@[n - 1]);
                    assert(before.len() > 0);
                    assert(now == before.drop_last().push(old_last.push(c)));
                    if before.len() == 1 {
                        assert(join(now, seq![' ']) == joined.push(c));
                    } else {
                        assert(now.drop_last() == before.drop_last());
                        assert(join(now, seq![' ']) == joined.push(c));
                    }
                    lemma_lower_push(joined, c);
                }
            } else {
                proof {
                    let now = words(s);
                    assert(n > 0 ==> s[n - 1] == text@[n - 1]);
                    assert(now == before.push(seq![c]));
                    assert(now.drop_last() == before);
                    if before.len() == 0 {
                        assert(join(now, seq![' ']) == joined.push(c));
                    } else {
                        assert(join(now, seq![' ']) == joined.push(' ').push(c));
                        lemma_lower_push(joined.push(' '), c);
                        lemma_lower_push(joined, ' ');
                        assert(joined.len() > 0) by {
                            if before.len() == 1 {
                                assert(before[0].len() > 0);
                            }
                        }
                    }
                    lemma_lower_push(joined, c);
                }
                if !r.as_str().is_empty() {
                    r.push(' ');
                }
            }
            r.push(lower_of(c));
            in_word = true;
        }
    }
    assert(text@.take(text@.len() as int) == text@);
    r
}

/// `str::lines`.
pub fn lines_of(text: &str) -> (r: Vec<String>)
    ensures
        texts(r@) == lines(text@),
{
    let chars = chars_of(text);
    let marks: [char; 1] = ['\n'];
    assert(marks@ == seq!['\n']);
    let mut r: Vec<String> = Vec::new();
    let mut from: usize = 0;
    assert(chars@.skip(0) == chars@);
    assert(texts(r@) + lines(chars@) == lines(chars@));
    while from < chars.len()
        invariant
            from <= chars@.len(),
            chars@ == text@,
            marks@ == seq!['\n'],
            lines(text@) == texts(r@) + lines(chars@.skip(from as int)),
        decreases chars@.len() - from,
    {
        let at = next_mark(&chars, from, &marks);
        let ghost s = chars@.skip(from as int);
        let ghost done = texts(r@);
        if at == chars.len() {
            let line = text_between(&chars, from, at);
            r.push(line);
            assert(line@ == s);
            assert(texts(r@) == done.push(s));
            assert(done + seq![s] == done.push(s));
            return r;
        }
        let to = if at > from && chars[at - 1] == '\r' {
            at - 1
        } else {
            at
        };
        let line = text_between(&chars, from, to);
        r.push(line);
        proof {
            let whole = s.take(at - from);
            assert(at > from ==> whole.last() == chars@[at - 1]);
            assert(line@ == without_return(whole));
            assert(texts(r@) == done.push(line@));
            assert(s.skip(at - from + 1) == chars@.skip(at + 1));
            let rest = lines(chars@.skip(at + 1));
            assert(done + (seq![line@] + rest) == done.push(line@) + rest);
        }
        from = at + 1;
    }
    assert(texts(r@) + lines(Seq::empty()) == texts(r@));
    assert(chars@.skip(from as int) == Seq::<char>::empty());
    r
}

} // verus!

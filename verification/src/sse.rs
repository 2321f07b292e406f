//! Server-sent events: reading those of an upstream out of the chunks in which
//! they arrive, and writing those for the client.
use vstd::prelude::*;
use vstd::string::StringExecFns;

use crate::boundary;
use crate::boundary::decode_lossy;
use crate::headers;
use crate::text;
use crate::text::{chars_of, lines_of, same_text, stripped_prefix, text_between, trimmed};

verus! {

/// What the stream of an upstream holds.
#[derive(Debug, Clone)]
pub enum StreamItem {
    /// The data of an event.
    Data(String),
    /// The mark that the upstream has said all.
    Done,
    /// The end of a stream that broke off; holds what is said of it.
    Failed(String),
}

/// The value of a [`StreamItem`].
pub enum ItemView {
    Data(Seq<char>),
    Done,
    Failed(Seq<char>),
}

impl View for StreamItem {
    type V = ItemView;

    open spec fn view(&self) -> ItemView {
        match self {
            StreamItem::Data(data) => ItemView::Data(data@),
            StreamItem::Done => ItemView::Done,
            StreamItem::Failed(message) => ItemView::Failed(message@),
        }
    }
}

/// The values of a sequence of items.
pub open spec fn items(s: Seq<StreamItem>) -> Seq<ItemView> {
    Seq::new(s.len(), |i: int| s[i]@)
}

/// The number of characters before the first empty line, that is before two
/// line feeds in a row; all of them where there is none.
pub open spec fn gap(s: Seq<char>) -> int
    decreases s.len(),
{
    if s.len() < 2 {
        s.len() as int
    } else if s[0] == '\n' && s[1] == '\n' {
        0
    } else {
        1 + gap(s.drop_first())
    }
}

/// The frames of a text: what comes before each empty line.
pub open spec fn frames(s: Seq<char>) -> Seq<Seq<char>>
    decreases s.len(),
{
    let n = gap(s);
    if 0 <= n && n + 2 <= s.len() {
        seq![s.take(n)] + frames(s.skip(n + 2))
    } else {
        Seq::empty()
    }
}

/// What comes after the last frame of a text.
pub open spec fn unfinished(s: Seq<char>) -> Seq<char>
    decreases s.len(),
{
    let n = gap(s);
    if 0 <= n && n + 2 <= s.len() {
        unfinished(s.skip(n + 2))
    } else {
        s
    }
}

/// What a line of a frame holds.
pub open spec fn line_item(line: Seq<char>) -> Seq<ItemView> {
    match text::strip_prefix(line, "data: "@) {
        None => Seq::empty(),
        Some(data) => if text::trim(data) == "[DONE]"@ {
            seq![ItemView::Done]
        } else {
            seq![ItemView::Data(data)]
        },
    }
}

/// What the lines hold, in their order.
pub open spec fn line_items(lines: Seq<Seq<char>>) -> Seq<ItemView>
    decreases lines.len(),
{
    if lines.len() == 0 {
        Seq::empty()
    } else {
        line_item(lines.first()) + line_items(lines.drop_first())
    }
}

/// What the frames hold, in their order.
pub open spec fn frame_items(found: Seq<Seq<char>>) -> Seq<ItemView>
    decreases found.len(),
{
    if found.len() == 0 {
        Seq::empty()
    } else {
        line_items(text::lines(found.first())) + frame_items(found.drop_first())
    }
}

/// What the finished frames of a text hold.
pub open spec fn decoded(s: Seq<char>) -> Seq<ItemView> {
    frame_items(frames(s))
}

/// An event as it is written.
pub open spec fn event_frame(event_type: Seq<char>, data: Seq<char>) -> Seq<char> {
    "event: "@ + event_type + "\ndata: "@ + data + "\n\n"@
}

proof fn lemma_gap(s: Seq<char>)
    ensures
        0 <= gap(s) <= s.len(),
        gap(s) + 2 <= s.len() ==> s[gap(s)] == '\n' && s[gap(s) + 1] == '\n',
        gap(s) + 2 > s.len() ==> gap(s) == s.len(),
        forall|j: int|
            0 <= j < gap(s) && j + 1 < s.len() ==> !(#[trigger] s[j] == '\n' && s[j + 1] == '\n'),
    decreases s.len(),
{
    if s.len() >= 2 && !(s[0] == '\n' && s[1] == '\n') {
        let rest = s.drop_first();
        lemma_gap(rest);
        assert(forall|j: int| 0 <= j < rest.len() ==> #[trigger] rest[j] == s[j + 1]);
        assert forall|j: int| 0 <= j < gap(s) && j + 1 < s.len() implies !(
        #[trigger] s[j] == '\n' && s[j + 1] == '\n') by {
            if j > 0 {
                assert(rest[j - 1] == s[j]);
                assert(rest[j] == s[j + 1]);
            }
        }
    }
}

/// The place before which there is no empty line, and at which there is one, is
/// the one that `gap` gives.
pub proof fn lemma_gap_is(s: Seq<char>, n: int)
    requires
        0 <= n <= s.len(),
        forall|j: int|
            0 <= j < n && j + 1 < s.len() ==> !(#[trigger] s[j] == '\n' && s[j + 1] == '\n'),
        n == s.len() || n + 2 <= s.len() && s[n] == '\n' && s[n + 1] == '\n',
    ensures
        gap(s) == n,
{
    lemma_gap(s);
    let m = gap(s);
    if m < n {
        assert(s[m] == '\n' && s[m + 1] == '\n');
    } else if n < m {
        assert(s[n] == '\n' && s[n + 1] == '\n');
    }
}

proof fn lemma_gap_after_more(s: Seq<char>, t: Seq<char>)
    requires
        gap(s) + 2 <= s.len(),
    ensures
        gap(s + t) == gap(s),
{
    lemma_gap(s);
    let n = gap(s);
    assert forall|j: int| 0 <= j < n && j + 1 < (s + t).len() implies !(
    #[trigger] (s + t)[j] == '\n' && (s + t)[j + 1] == '\n') by {
        assert((s + t)[j] == s[j]);
        assert((s + t)[j + 1] == s[j + 1]);
    }
    assert((s + t)[n] == s[n]);
    assert((s + t)[n + 1] == s[n + 1]);
    lemma_gap_is(s + t, n);
}

/// How a text is cut into chunks makes no difference: what is read from two
/// chunks, one after the other, is what is read from both at once.
pub proof fn chunks_make_no_difference(s: Seq<char>, t: Seq<char>)
    ensures
        decoded(s + t) == decoded(s) + decoded(unfinished(s) + t),
        unfinished(s + t) == unfinished(unfinished(s) + t),
    decreases s.len(),
{
    lemma_gap(s);
    let n = gap(s);
    if n + 2 <= s.len() {
        lemma_gap_after_more(s, t);
        let rest = s.skip(n + 2);
        chunks_make_no_difference(rest, t);
        assert((s + t).take(n) == s.take(n));
        assert((s + t).skip(n + 2) == rest + t);
        let frame = s.take(n);
        assert((seq![frame] + frames(rest)).drop_first() == frames(rest));
        assert((seq![frame] + frames(rest + t)).drop_first() == frames(rest + t));
        let first = line_items(text::lines(frame));
        assert(decoded(s) == first + decoded(rest));
        assert(decoded(s + t) == first + decoded(rest + t));
        assert(first + (decoded(rest) + decoded(unfinished(rest) + t)) == (first + decoded(rest))
            + decoded(unfinished(rest) + t));
    } else {
        assert(frames(s) == Seq::<Seq<char>>::empty());
        assert(decoded(s) + decoded(s + t) == decoded(s + t));
    }
}

/// What is unfinished holds no finished frame.
pub proof fn unfinished_holds_no_frame(s: Seq<char>)
    ensures
        frames(unfinished(s)).len() == 0,
        unfinished(unfinished(s)) == unfinished(s),
    decreases s.len(),
{
    lemma_gap(s);
    let n = gap(s);
    if n + 2 <= s.len() {
        unfinished_holds_no_frame(s.skip(n + 2));
    }
}

proof fn lemma_one_line(line: Seq<char>)
    requires
        line.len() > 0,
        !line.contains('\n'),
    ensures
        text::lines(line) == seq![line],
{
    let marks = seq!['\n'];
    assert forall|j: int| 0 <= j < line.len() implies !marks.contains(#[trigger] line[j]) by {
        assert(line[j] != '\n');
    }
    text::lemma_span_is(line, marks, line.len() as int);
}

proof fn lemma_two_lines(head: Seq<char>, line: Seq<char>)
    requires
        !head.contains('\n'),
        line.len() > 0,
        !line.contains('\n'),
    ensures
        text::lines(head + seq!['\n'] + line) == seq![text::without_return(head), line],
{
    let s = head + seq!['\n'] + line;
    let marks = seq!['\n'];
    let n = head.len() as int;
    assert(marks[0] == '\n');
    assert forall|j: int| 0 <= j < n implies !marks.contains(#[trigger] s[j]) by {
        assert(head[j] == s[j]);
    }
    assert(s[n] == '\n');
    text::lemma_span_is(s, marks, n);
    lemma_one_line(line);
    assert(s.take(n) == head);
    assert(s.skip(n + 1) == line);
    assert(seq![text::without_return(head)] + seq![line] == seq![
        text::without_return(head),
        line,
    ]);
}

/// An event that is written is read back: its data comes out, whatever its
/// type, where neither holds a line feed and the data is not the mark of the
/// end.
pub proof fn written_event_is_read_back(event_type: Seq<char>, data: Seq<char>)
    requires
        !event_type.contains('\n'),
        !data.contains('\n'),
        text::trim(data) != "[DONE]"@,
    ensures
        decoded(event_frame(event_type, data)) == seq![ItemView::Data(data)],
        unfinished(event_frame(event_type, data)) == Seq::<char>::empty(),
{
    reveal_strlit("event: ");
    reveal_strlit("\ndata: ");
    reveal_strlit("data: ");
    reveal_strlit("\n\n");
    let s = event_frame(event_type, data);
    let head = "event: "@ + event_type;
    let line = "data: "@ + data;
    let f = head + seq!['\n'] + line;
    assert(s == f + seq!['\n', '\n']);
    assert(!head.contains('\n')) by {
        assert forall|j: int| 0 <= j < head.len() implies #[trigger] head[j] != '\n' by {
            if j >= 7 {
                assert(event_type[j - 7] == head[j]);
            }
        }
    }
    assert(!line.contains('\n')) by {
        assert forall|j: int| 0 <= j < line.len() implies #[trigger] line[j] != '\n' by {
            if j >= 6 {
                assert(data[j - 6] == line[j]);
            }
        }
    }
    let n = f.len() as int;
    assert forall|j: int| 0 <= j < n && j + 1 < s.len() implies !(#[trigger] s[j] == '\n'
        && s[j + 1] == '\n') by {
        if j < head.len() {
            assert(s[j] == head[j]);
        } else if j == head.len() {
            assert(s[j + 1] == line[0]);
        } else {
            assert(s[j] == line[j - head.len() - 1]);
        }
    }
    assert(s[n] == '\n' && s[n + 1] == '\n');
    lemma_gap_is(s, n);
    assert(s.take(n) == f);
    let none = Seq::<char>::empty();
    assert(s.skip(n + 2) == none);
    assert(gap(none) == 0);
    assert(unfinished(none) == none);
    assert(unfinished(s) == unfinished(none));
    assert(frames(none) == Seq::<Seq<char>>::empty());
    assert(frames(s) == seq![f] + frames(none));
    assert(frames(s) == seq![f]);
    lemma_two_lines(head, line);
    let first = text::without_return(head);
    let both = seq![first, line];
    assert(first[0] == 'e');
    assert(!text::starts_with(first, "data: "@)) by {
        if text::starts_with(first, "data: "@) {
            assert(first.take(6)[0] == 'd');
        }
    }
    assert(line.take(6) == "data: "@);
    assert(line.skip(6) == data);
    assert(both.drop_first() == seq![line]);
    assert(seq![line].drop_first() == Seq::<Seq<char>>::empty());
    assert(line_items(Seq::<Seq<char>>::empty()) == Seq::<ItemView>::empty());
    assert(line_items(seq![line]) == line_item(line) + line_items(Seq::<Seq<char>>::empty()));
    assert(line_items(seq![line]) == seq![ItemView::Data(data)]);
    assert(line_items(both) == line_item(first) + line_items(seq![line]));
    assert(line_items(both) == seq![ItemView::Data(data)]);
    assert(seq![f].drop_first() == Seq::<Seq<char>>::empty());
    assert(frame_items(seq![f]) == line_items(both) + frame_items(Seq::<Seq<char>>::empty()));
    assert(frame_items(Seq::<Seq<char>>::empty()) == Seq::<ItemView>::empty());
    assert(frame_items(seq![f]) == seq![ItemView::Data(data)]);
}

proof fn lemma_encode_both(a: Seq<char>, b: Seq<char>)
    ensures
        vstd::utf8::encode_utf8(a + b) == vstd::utf8::encode_utf8(a) + vstd::utf8::encode_utf8(b),
    decreases a.len(),
{
    if a.len() == 0 {
        assert(a + b == b);
        assert(vstd::utf8::encode_utf8(a) == Seq::<u8>::empty());
    } else {
        lemma_encode_both(a.drop_first(), b);
        assert((a + b).drop_first() == a.drop_first() + b);
    }
}

/// How bytes are cut into chunks makes no difference either, as long as no cut
/// goes through the bytes of one character: the text of two chunks of UTF-8 is
/// the text of both together.
pub proof fn byte_chunks_make_no_difference(a: Seq<u8>, b: Seq<u8>)
    requires
        vstd::utf8::valid_utf8(a),
        vstd::utf8::valid_utf8(b),
    ensures
        vstd::utf8::valid_utf8(a + b),
        vstd::utf8::decode_utf8(a + b) == vstd::utf8::decode_utf8(a) + vstd::utf8::decode_utf8(b),
{
    let x = vstd::utf8::decode_utf8(a);
    let y = vstd::utf8::decode_utf8(b);
    vstd::utf8::decode_utf8_encode_utf8(a);
    vstd::utf8::decode_utf8_encode_utf8(b);
    lemma_encode_both(x, y);
    vstd::utf8::encode_utf8_valid_utf8(x + y);
    vstd::utf8::encode_utf8_decode_utf8(x + y);
}

/// Reads the events of an upstream.
#[derive(Debug, Clone)]
pub struct EventReader {
    /// The text after the last frame.
    buffer: Vec<char>,
    /// Whether the stream broke off.
    ended: bool,
}

/// The value of an [`EventReader`].
pub struct ReaderView {
    pub buffer: Seq<char>,
    pub ended: bool,
}

impl View for EventReader {
    type V = ReaderView;

    closed spec fn view(&self) -> ReaderView {
        ReaderView { buffer: self.buffer@, ended: self.ended }
    }
}

/// The reader after a chunk of text: what is unfinished stays in it. A reader
/// whose stream broke off reads no more.
pub open spec fn reader_after(reader: ReaderView, chunk: Seq<char>) -> ReaderView {
    if reader.ended {
        reader
    } else {
        ReaderView { buffer: unfinished(reader.buffer + chunk), ended: false }
    }
}

/// What is read out of a chunk of text.
pub open spec fn read_from(reader: ReaderView, chunk: Seq<char>) -> Seq<ItemView> {
    if reader.ended {
        Seq::empty()
    } else {
        decoded(reader.buffer + chunk)
    }
}

/// A reader reads from two chunks what it reads from both at once.
pub proof fn reading_in_chunks(reader: ReaderView, a: Seq<char>, b: Seq<char>)
    ensures
        read_from(reader, a + b) == read_from(reader, a) + read_from(reader_after(reader, a), b),
        reader_after(reader, a + b) == reader_after(reader_after(reader, a), b),
{
    chunks_make_no_difference(reader.buffer + a, b);
    assert(reader.buffer + (a + b) == reader.buffer + a + b);
}

/// Nothing is read from a stream after it broke off.
pub proof fn nothing_after_the_break(reader: ReaderView, chunk: Seq<char>)
    requires
        reader.ended,
    ensures
        read_from(reader, chunk).len() == 0,
        reader_after(reader, chunk) == reader,
{
}

/// Appends what the lines of a frame hold.
fn read_frame(frame: &str, found: &mut Vec<StreamItem>)
    ensures
        items(final(found)@) == items(old(found)@) + line_items(text::lines(frame@)),
{
    let lines = lines_of(frame);
    let ghost all = text::texts(lines@);
    let ghost start = items(found@);
    let mut i: usize = 0;
    assert(all.skip(0) == all);
    while i < lines.len()
        invariant
            i <= lines@.len(),
            all == text::texts(lines@),
            items(found@) + line_items(all.skip(i as int)) == start + line_items(all),
        decreases lines@.len() - i,
    {
        let ghost done = items(found@);
        let ghost rest = line_items(all.skip(i + 1));
        assert(all.skip(i as int).first() == lines@[i as int]@);
        assert(all.skip(i as int).drop_first() == all.skip(i + 1));
        if let Some(data) = stripped_prefix(&lines[i], "data: ") {
            let mark = trimmed(&data);
            let item = if same_text(&mark, "[DONE]") {
                StreamItem::Done
            } else {
                StreamItem::Data(data)
            };
            let ghost added = item@;
            found.push(item);
            assert(items(found@) == done.push(added));
            assert(done.push(added) + rest == done + (seq![added] + rest));
        } else {
            assert(done + rest == done + (Seq::<ItemView>::empty() + rest));
        }
        i += 1;
    }
    assert(all.skip(i as int) == Seq::<Seq<char>>::empty());
    assert(items(found@) + Seq::<ItemView>::empty() == items(found@));
}

/// The place of the next empty line, from `from` on.
fn next_gap(chars: &Vec<char>, from: usize) -> (r: usize)
    requires
        from <= chars@.len(),
    ensures
        from <= r <= chars@.len(),
        gap(chars@.skip(from as int)) == r - from,
{
    let len: usize = chars.len();
    let ghost s = chars@.skip(from as int);
    let mut i: usize = from;
    while i < len && !(len - i >= 2 && chars[i] == '\n' && chars[i + 1] == '\n')
        invariant
            from <= i <= len,
            len == chars@.len(),
            s == chars@.skip(from as int),
            forall|j: int|
                0 <= j < i - from && j + 1 < s.len() ==> !(#[trigger] s[j] == '\n' && s[j + 1]
                    == '\n'),
        decreases len - i,
    {
        assert(s[i - from] == chars@[i as int]);
        assert(i + 1 < len ==> s[i - from + 1] == chars@[i + 1]);
        i += 1;
    }
    proof {
        if i < len {
            assert(s[i - from] == chars@[i as int]);
            assert(s[i - from + 1] == chars@[i + 1]);
        }
        lemma_gap_is(s, i - from);
    }
    i
}

impl EventReader {
    /// A reader at the start of a stream.
    pub fn new() -> (r: Self)
        ensures
            r@ == (ReaderView { buffer: Seq::empty(), ended: false }),
    {
        let r = EventReader { buffer: Vec::new(), ended: false };
        assert(r@.buffer == Seq::<char>::empty());
        r
    }

    /// Reads a chunk of text.
    pub fn push_text(&mut self, chunk: &str) -> (r: Vec<StreamItem>)
        ensures
            items(r@) == read_from(old(self)@, chunk@),
            final(self)@ == reader_after(old(self)@, chunk@),
    {
        let mut found: Vec<StreamItem> = Vec::new();
        assert(items(found@) == Seq::<ItemView>::empty());
        if self.ended {
            return found;
        }
        let mut buffer: Vec<char> = Vec::new();
        std::mem::swap(&mut buffer, &mut self.buffer);
        let mut chars = chars_of(chunk);
        buffer.append(&mut chars);
        let ghost all = buffer@;
        assert(all == old(self)@.buffer + chunk@);
        let mut from: usize = 0;
        assert(all.skip(0) == all);
        assert(items(found@) + decoded(all) == decoded(all));
        let mut at: usize = next_gap(&buffer, 0);
        while at < buffer.len()
            invariant
                buffer@ == all,
                from <= at <= all.len(),
                gap(all.skip(from as int)) == at - from,
                items(found@) + decoded(all.skip(from as int)) == decoded(all),
                unfinished(all.skip(from as int)) == unfinished(all),
            decreases all.len() - from,
        {
            let ghost s = all.skip(from as int);
            let ghost done = items(found@);
            proof {
                lemma_gap(s);
            }
            let frame = text_between(&buffer, from, at);
            let ghost n = at - from;
            assert(frame@ == s.take(n));
            read_frame(&frame, &mut found);
            proof {
                let rest = s.skip(n + 2);
                assert(rest == all.skip(at + 2));
                assert((seq![s.take(n)] + frames(rest)).drop_first() == frames(rest));
                let first = line_items(text::lines(s.take(n)));
                assert(decoded(s) == first + decoded(rest));
                assert(done + first + decoded(rest) == done + (first + decoded(rest)));
            }
            from = at + 2;
            at = next_gap(&buffer, from);
        }
        proof {
            let s = all.skip(from as int);
            assert(frames(s) == Seq::<Seq<char>>::empty());
            assert(items(found@) + decoded(s) == items(found@));
        }
        let mut rest: Vec<char> = Vec::new();
        while from < buffer.len()
            invariant
                from <= all.len(),
                buffer@ == all,
                rest@ + all.skip(from as int) == unfinished(all),
            decreases all.len() - from,
        {
            rest.push(buffer[from]);
            assert(rest@ + all.skip(from + 1) == rest@.drop_last() + all.skip(from as int));
            from += 1;
        }
        assert(rest@ + all.skip(from as int) == rest@);
        self.buffer = rest;
        found
    }

    /// Reads a chunk of bytes.
    pub fn push_bytes(&mut self, chunk: &[u8]) -> (r: Vec<StreamItem>)
        ensures
            items(r@) == read_from(old(self)@, boundary::lossy_text(chunk@)),
            final(self)@ == reader_after(old(self)@, boundary::lossy_text(chunk@)),
            vstd::utf8::valid_utf8(chunk@) ==> items(r@) == read_from(
                old(self)@,
                vstd::utf8::decode_utf8(chunk@),
            ) && final(self)@ == reader_after(old(self)@, vstd::utf8::decode_utf8(chunk@)),
    {
        let decoded_chunk = decode_lossy(chunk);
        self.push_text(&decoded_chunk)
    }

    /// Ends a stream that broke off.
    pub fn fail(&mut self, error: &str) -> (r: Vec<StreamItem>)
        ensures
            items(r@) == if old(self)@.ended {
                Seq::empty()
            } else {
                seq![ItemView::Failed("Stream error: "@ + error@)]
            },
            final(self)@ == (ReaderView { buffer: old(self)@.buffer, ended: true }),
    {
        let mut found: Vec<StreamItem> = Vec::new();
        assert(items(found@) == Seq::<ItemView>::empty());
        if !self.ended {
            found.push(StreamItem::Failed("Stream error: ".to_owned().concat(error)));
            assert(items(found@) == seq![ItemView::Failed("Stream error: "@ + error@)]);
        }
        self.ended = true;
        found
    }

    /// Whether the stream broke off.
    pub fn has_ended(&self) -> (r: bool)
        ensures
            r == self@.ended,
    {
        self.ended
    }
}

/// The headers of a response that is a stream of events.
pub open spec fn stream_headers() -> Seq<(Seq<char>, Seq<char>)> {
    seq![
        ("Content-Type"@, "text/event-stream"@),
        ("Cache-Control"@, "no-cache"@),
        ("Connection"@, "keep-alive"@),
    ]
}

/// The headers of a response that is a stream of events.
pub fn stream_response_headers() -> (r: Vec<(String, String)>)
    ensures
        headers::header_pairs(r@) == stream_headers(),
{
    let mut r: Vec<(String, String)> = Vec::new();
    r.push(("Content-Type".to_owned(), "text/event-stream".to_owned()));
    r.push(("Cache-Control".to_owned(), "no-cache".to_owned()));
    r.push(("Connection".to_owned(), "keep-alive".to_owned()));
    assert(headers::header_pairs(r@) == stream_headers());
    r
}

/// An event as it is written for the client.
pub fn serialize_event(event_type: &str, data: &str) -> (r: String)
    ensures
        r@ == event_frame(event_type@, data@),
{
    "event: ".to_owned().concat(event_type).concat("\ndata: ").concat(data).concat("\n\n")
}

} // verus!

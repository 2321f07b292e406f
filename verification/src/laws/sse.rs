//! Laws of server-sent events.
use vstd::prelude::*;

use crate::laws::text as texts;
use crate::progress;
use crate::progress::{Delta, Progress};
use crate::sse;
use crate::sse::{ItemView, ReaderView, StreamItem};
use crate::text;

verus! {

/// Whether a text holds an empty line, that is two line feeds in a row.
pub open spec fn holds_empty_line(s: Seq<char>) -> bool {
    exists|i: int| 0 <= i && i + 1 < s.len() && #[trigger] s[i] == '\n' && s[i + 1] == '\n'
}

/// A text without an empty line has no finished frame: nothing is read from it,
/// and all of it is kept.
pub proof fn unfinished_text_is_kept(s: Seq<char>)
    requires
        !holds_empty_line(s),
    ensures
        sse::decoded(s).len() == 0,
        sse::unfinished(s) == s,
{
    assert forall|j: int| 0 <= j < s.len() && j + 1 < s.len() implies !(#[trigger] s[j] == '\n'
        && s[j + 1] == '\n') by {}
    sse::lemma_gap_is(s, s.len() as int);
}

proof fn lemma_one_frame(frame: Seq<char>)
    requires
        !holds_empty_line(frame.push('\n')),
    ensures
        sse::decoded(frame.push('\n').push('\n')) == sse::line_items(text::lines(frame)),
        sse::unfinished(frame.push('\n').push('\n')) == Seq::<char>::empty(),
{
    let s = frame.push('\n').push('\n');
    let n = frame.len() as int;
    let t = frame.push('\n');
    assert forall|j: int| 0 <= j < n && j + 1 < s.len() implies !(#[trigger] s[j] == '\n' && s[j
        + 1] == '\n') by {
        assert(t[j] == s[j]);
        assert(t[j + 1] == s[j + 1]);
    }
    sse::lemma_gap_is(s, n);
    assert(s.take(n) == frame);
    let none = Seq::<char>::empty();
    assert(s.skip(n + 2) == none);
    assert(sse::frames(none) == Seq::<Seq<char>>::empty());
    assert(sse::unfinished(none) == none);
    assert(sse::unfinished(s) == sse::unfinished(none));
    assert(sse::frames(s) == seq![frame] + sse::frames(none));
    let rest = Seq::<Seq<char>>::empty();
    assert(sse::frames(s) == seq![frame]);
    assert(seq![frame].drop_first() == rest);
    assert(sse::frame_items(rest) == Seq::<ItemView>::empty());
    assert(sse::frame_items(seq![frame]) == sse::line_items(text::lines(frame))
        + sse::frame_items(rest));
    assert(sse::line_items(text::lines(frame)) + Seq::<ItemView>::empty() == sse::line_items(
        text::lines(frame),
    ));
}

proof fn lemma_one_item(line: Seq<char>)
    ensures
        sse::line_items(seq![line]) == sse::line_item(line),
{
    let none = Seq::<Seq<char>>::empty();
    assert(seq![line].drop_first() == none);
    assert(sse::line_items(none) == Seq::<ItemView>::empty());
    assert(sse::line_items(seq![line]) == sse::line_item(line) + sse::line_items(none));
    assert(sse::line_item(line) + Seq::<ItemView>::empty() == sse::line_item(line));
}

/// A frame of one line holds the data after `data: `, the end mark where that
/// is all the data says, and nothing where the line does not start so.
pub proof fn frames_of_one_line(data: Seq<char>, line: Seq<char>)
    requires
        !data.contains('\n'),
        !line.contains('\n'),
    ensures
        text::trim(data) != seq!['[', 'D', 'O', 'N', 'E', ']'] ==> sse::decoded(
            ("data: "@ + data).push('\n').push('\n'),
        ) == seq![ItemView::Data(data)],
        text::trim(data) == seq!['[', 'D', 'O', 'N', 'E', ']'] ==> sse::decoded(
            ("data: "@ + data).push('\n').push('\n'),
        ) == seq![ItemView::Done],
        (forall|d: Seq<char>| #[trigger] ("data: "@ + d) != line) ==> sse::decoded(
            line.push('\n').push('\n'),
        ).len() == 0,
{
    reveal_strlit("data: ");
    reveal_strlit("[DONE]");
    assert("[DONE]"@ == seq!['[', 'D', 'O', 'N', 'E', ']']);
    let full = "data: "@ + data;
    assert forall|i: int| 0 <= i < full.len() implies #[trigger] full[i] != '\n' by {
        if i >= 6 {
            assert(data[i - 6] == full[i]);
        }
    }
    lemma_line(full);
    texts::line_feeds_end_lines(full, full);
    lemma_one_item(full);
    texts::prefix_and_rest_are_the_text(data, "data: "@);
    if forall|d: Seq<char>| #[trigger] ("data: "@ + d) != line {
        lemma_line(line);
        texts::line_feeds_end_lines(line, line);
        texts::prefix_and_rest_are_the_text(line, "data: "@);
        if text::strip_prefix(line, "data: "@) is Some {
            let rest = text::strip_prefix(line, "data: "@)->0;
            assert("data: "@ + rest == line);
        }
        lemma_one_item(line);
        if line.len() == 0 {
            assert(line == Seq::<char>::empty());
            assert(text::lines(line) == Seq::<Seq<char>>::empty());
        }
    }
}

proof fn lemma_line(line: Seq<char>)
    requires
        !line.contains('\n'),
    ensures
        sse::decoded(line.push('\n').push('\n')) == sse::line_items(text::lines(line)),
{
    let t = line.push('\n');
    assert forall|i: int| 0 <= i && i + 1 < t.len() && #[trigger] t[i] == '\n' implies t[i + 1]
        != '\n' by {
        assert(t[i] == line[i]);
        assert(line.contains(line[i]));
    }
    lemma_one_frame(line);
}

/// A frame holds what its lines hold by themselves, in their order, whether they
/// end with a line feed or with a carriage return before it.
pub proof fn frames_of_several_lines(line: Seq<char>, rest: Seq<char>)
    requires
        !line.contains('\n'),
        rest.len() > 0,
        rest[0] != '\n',
        !holds_empty_line(rest.push('\n')),
    ensures
        line.len() == 0 || line.last() != '\r' ==> sse::decoded(
            (line.push('\n') + rest).push('\n').push('\n'),
        ) == sse::decoded(line.push('\n').push('\n')) + sse::decoded(
            rest.push('\n').push('\n'),
        ),
        sse::decoded((line.push('\r').push('\n') + rest).push('\n').push('\n')) == sse::decoded(
            line.push('\n').push('\n'),
        ) + sse::decoded(rest.push('\n').push('\n')),
{
    lemma_line(line);
    lemma_one_frame(rest);
    texts::line_feeds_end_lines(line, rest);
    lemma_one_item(line);
    if line.len() == 0 {
        reveal_strlit("data: ");
        assert(line == Seq::<char>::empty());
        assert(text::lines(line) == Seq::<Seq<char>>::empty());
        assert(sse::line_items(text::lines(line)) == Seq::<ItemView>::empty());
        assert(sse::line_item(line) == Seq::<ItemView>::empty());
    }
    let both = seq![line] + text::lines(rest);
    assert(both.drop_first() == text::lines(rest));
    assert(both.first() == line);
    assert(sse::line_items(both) == sse::line_item(line) + sse::line_items(text::lines(rest)));
    lemma_no_empty_line(line, rest);
    lemma_no_empty_line(line.push('\r'), rest);
    lemma_one_frame(line.push('\n') + rest);
    lemma_one_frame(line.push('\r').push('\n') + rest);
}

proof fn lemma_no_empty_line(line: Seq<char>, rest: Seq<char>)
    requires
        !line.contains('\n'),
        rest.len() > 0,
        rest[0] != '\n',
        !holds_empty_line(rest.push('\n')),
    ensures
        !holds_empty_line((line.push('\n') + rest).push('\n')),
{
    let t = (line.push('\n') + rest).push('\n');
    let r = rest.push('\n');
    let n = line.len() as int;
    assert forall|i: int| 0 <= i && i + 1 < t.len() && #[trigger] t[i] == '\n' implies t[i + 1]
        != '\n' by {
        if i < n {
            assert(t[i] == line[i]);
            assert(line.contains(line[i]));
        } else if i == n {
            assert(t[i + 1] == rest[0]);
        } else {
            assert(t[i] == r[i - n - 1]);
            assert(t[i + 1] == r[i - n]);
        }
    }
}

/// What follows a finished frame is read by itself.
pub proof fn frames_follow_each_other(frame: Seq<char>, more: Seq<char>)
    requires
        !holds_empty_line(frame.push('\n')),
    ensures
        sse::decoded(frame.push('\n').push('\n') + more) == sse::decoded(
            frame.push('\n').push('\n'),
        ) + sse::decoded(more),
        sse::unfinished(frame.push('\n').push('\n') + more) == sse::unfinished(more),
{
    lemma_one_frame(frame);
    sse::chunks_make_no_difference(frame.push('\n').push('\n'), more);
    assert(Seq::<char>::empty() + more == more);
}

/// An event is written as its type on one line and its data on the next, and
/// ends with an empty line.
pub proof fn events_are_written_in_two_lines(event_type: Seq<char>, data: Seq<char>)
    ensures
        sse::event_frame(event_type, data) == (("event: "@ + event_type).push('\n') + "data: "@
            + data).push('\n').push('\n'),
{
    reveal_strlit("\ndata: ");
    reveal_strlit("data: ");
    reveal_strlit("\n\n");
    assert(("event: "@ + event_type).push('\n') + "data: "@ == "event: "@ + event_type
        + "\ndata: "@);
}

/// A reader reads what is left over from before and the chunk, and keeps what is
/// unfinished of that; one whose stream broke off reads and keeps nothing new.
pub proof fn readers_keep_what_is_unfinished(reader: ReaderView, chunk: Seq<char>)
    ensures
        !reader.ended ==> sse::read_from(reader, chunk) == sse::decoded(reader.buffer + chunk)
            && sse::reader_after(reader, chunk).buffer == sse::unfinished(reader.buffer + chunk)
            && !sse::reader_after(reader, chunk).ended,
        reader.ended ==> sse::read_from(reader, chunk).len() == 0 && sse::reader_after(
            reader,
            chunk,
        ) == reader,
{
}

/// A response that is a stream is announced as one that is not to be kept.
pub proof fn streams_are_announced()
    ensures
        sse::stream_headers().len() == 3,
        sse::stream_headers()[0] == ("Content-Type"@, "text/event-stream"@),
        sse::stream_headers()[1] == ("Cache-Control"@, "no-cache"@),
        sse::stream_headers()[2] == ("Connection"@, "keep-alive"@),
{
}

/// The values of items say what they hold.
pub proof fn values_of_items(items: Seq<StreamItem>, content: String)
    ensures
        sse::items(items).len() == items.len(),
        forall|i: int| 0 <= i < items.len() ==> #[trigger] sse::items(items)[i] == items[i]@,
        StreamItem::Data(content)@ == ItemView::Data(content@),
        StreamItem::Done@ == ItemView::Done,
        StreamItem::Failed(content)@ == ItemView::Failed(content@),
{
}

/// A chunk holds content if and only if one of its choices has text, reasoning
/// or a tool call.
pub proof fn content_is_text_reasoning_or_tool_call(deltas: Seq<Delta>)
    ensures
        progress::holds_content(deltas) <==> exists|i: int|
            0 <= i < deltas.len() && {
                ||| (#[trigger] deltas[i]).content is Some && deltas[i].content->0@.len() > 0
                ||| deltas[i].reasoning is Some && deltas[i].reasoning->0@.len() > 0
                ||| deltas[i].tool_calls is Some && deltas[i].tool_calls->0 > 0
            },
{
    if progress::holds_content(deltas) {
        let i = choose|i: int| 0 <= i < deltas.len() && progress::adds_something(
            #[trigger] deltas[i],
        );
        assert(deltas[i].content is Some || deltas[i].content is None);
    }
    if exists|i: int|
        0 <= i < deltas.len() && {
            ||| (#[trigger] deltas[i]).content is Some && deltas[i].content->0@.len() > 0
            ||| deltas[i].reasoning is Some && deltas[i].reasoning->0@.len() > 0
            ||| deltas[i].tool_calls is Some && deltas[i].tool_calls->0 > 0
        } {
        let i = choose|i: int|
            0 <= i < deltas.len() && {
                ||| (#[trigger] deltas[i]).content is Some && deltas[i].content->0@.len() > 0
                ||| deltas[i].reasoning is Some && deltas[i].reasoning->0@.len() > 0
                ||| deltas[i].tool_calls is Some && deltas[i].tool_calls->0 > 0
            };
        assert(progress::adds_something(deltas[i]));
    }
}

/// Progress is never taken back, and comes with content and with usage alone.
pub proof fn progress_goes_forward(before: Progress, deltas: Seq<Delta>, has_usage: bool)
    ensures
        progress::progress_after(before, deltas, has_usage).started == (before.started
            || progress::holds_content(deltas)),
        progress::progress_after(before, deltas, has_usage).counted == (before.counted
            || has_usage),
{
}

} // verus!

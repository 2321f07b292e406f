//! How far the response of an upstream has come.
use vstd::prelude::*;

verus! {

/// What one choice of a chunk adds to a response.
#[derive(Debug, Clone)]
pub struct Delta {
    pub content: Option<String>,
    pub reasoning: Option<String>,
    /// The number of tool calls.
    pub tool_calls: Option<usize>,
}

/// Whether a text is there and not empty.
pub open spec fn filled(value: Option<String>) -> bool {
    value matches Some(content) && content@.len() > 0
}

/// Whether a choice adds something: content, reasoning or a tool call.
pub open spec fn adds_something(delta: Delta) -> bool {
    filled(delta.content) || filled(delta.reasoning) || (delta.tool_calls matches Some(n) && n > 0)
}

/// Whether one of the choices of a chunk adds something.
pub open spec fn holds_content(deltas: Seq<Delta>) -> bool {
    exists|i: int| 0 <= i < deltas.len() && adds_something(#[trigger] deltas[i])
}

/// What was seen of a response.
#[derive(Debug, Clone, Copy, PartialEq, Eq, Structural)]
pub struct Progress {
    /// Whether a chunk with content was seen.
    pub started: bool,
    /// Whether the tokens that were used were seen.
    pub counted: bool,
}

/// What was seen after one more chunk.
pub open spec fn progress_after(before: Progress, deltas: Seq<Delta>, has_usage: bool) -> Progress {
    Progress {
        started: before.started || holds_content(deltas),
        counted: before.counted || has_usage,
    }
}

/// What was seen after chunks.
pub open spec fn progress_after_all(chunks: Seq<(Seq<Delta>, bool)>) -> Progress
    decreases chunks.len(),
{
    if chunks.len() == 0 {
        Progress { started: false, counted: false }
    } else {
        progress_after(
            progress_after_all(chunks.drop_last()),
            chunks.last().0,
            chunks.last().1,
        )
    }
}

/// The response has started if and only if one of the chunks held content, and
/// its tokens are counted if and only if one of them said how many were used.
pub proof fn progress_remembers_every_chunk(chunks: Seq<(Seq<Delta>, bool)>)
    ensures
        progress_after_all(chunks).started <==> exists|i: int|
            0 <= i < chunks.len() && holds_content((#[trigger] chunks[i]).0),
        progress_after_all(chunks).counted <==> exists|i: int|
            0 <= i < chunks.len() && (#[trigger] chunks[i]).1,
    decreases chunks.len(),
{
    if chunks.len() > 0 {
        let init = chunks.drop_last();
        let n = init.len() as int;
        progress_remembers_every_chunk(init);
        assert(forall|i: int| 0 <= i < n ==> #[trigger] init[i] == chunks[i]);
        assert(chunks[n] == chunks.last());
        if progress_after_all(init).started {
            let i = choose|i: int| 0 <= i < n && holds_content((#[trigger] init[i]).0);
            assert(holds_content(chunks[i].0));
        }
        if exists|i: int| 0 <= i < chunks.len() && holds_content((#[trigger] chunks[i]).0) {
            let i = choose|i: int|
                0 <= i < chunks.len() && holds_content((#[trigger] chunks[i]).0);
            if i < n {
                assert(holds_content(init[i].0));
            }
        }
        if progress_after_all(init).counted {
            let i = choose|i: int| 0 <= i < n && (#[trigger] init[i]).1;
            assert(chunks[i].1);
        }
        if exists|i: int| 0 <= i < chunks.len() && (#[trigger] chunks[i]).1 {
            let i = choose|i: int| 0 <= i < chunks.len() && (#[trigger] chunks[i]).1;
            if i < n {
                assert(init[i].1);
            }
        }
    }
}

fn is_filled(value: &Option<String>) -> (r: bool)
    ensures
        r == filled(*value),
{
    match value {
        Some(content) => !content.as_str().is_empty(),
        None => false,
    }
}

/// Whether one of the choices of a chunk adds something.
pub fn has_content(deltas: &Vec<Delta>) -> (r: bool)
    ensures
        r == holds_content(deltas@),
{
    let mut i: usize = 0;
    while i < deltas.len()
        invariant
            i <= deltas@.len(),
            forall|j: int| 0 <= j < i ==> !adds_something(#[trigger] deltas@[j]),
        decreases deltas@.len() - i,
    {
        let calls = match deltas[i].tool_calls {
            Some(n) => n > 0,
            None => false,
        };
        if is_filled(&deltas[i].content) || is_filled(&deltas[i].reasoning) || calls {
            assert(adds_something(deltas@[i as int]));
            return true;
        }
        i += 1;
    }
    false
}

impl Progress {
    /// Nothing was seen yet.
    pub fn new() -> (r: Self)
        ensures
            r == progress_after_all(Seq::empty()),
    {
        Progress { started: false, counted: false }
    }

    /// Takes in one more chunk. Says whether it is the first with content.
    pub fn chunk(&mut self, deltas: &Vec<Delta>, has_usage: bool) -> (r: bool)
        ensures
            r == (!old(self).started && holds_content(deltas@)),
            *final(self) == progress_after(*old(self), deltas@, has_usage),
    {
        let content = has_content(deltas);
        let first = content && !self.started;
        if content {
            self.started = true;
        }
        if has_usage {
            self.counted = true;
        }
        first
    }
}

} // verus!

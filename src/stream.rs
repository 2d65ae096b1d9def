//! Laws of a highlight event stream: how far its `Source` events reach, and
//! how many highlights are open after each prefix.
use vstd::prelude::*;

use crate::HighlightEvent;

verus! {

/// The byte up to which `Source` events have reported the document.
pub open spec fn frontier(events: Seq<HighlightEvent>) -> int
    decreases events.len(),
{
    if events.len() == 0 {
        0
    } else {
        match events.last() {
            HighlightEvent::Source { start, end } => end as int,
            _ => frontier(events.drop_last()),
        }
    }
}

/// Every `Source` event is non-empty and starts where the previous ones
/// ended, the first at byte 0: together they report `0..frontier(events)`,
/// each byte once and in order.
pub open spec fn sources_contiguous(events: Seq<HighlightEvent>) -> bool
    decreases events.len(),
{
    if events.len() == 0 {
        true
    } else {
        sources_contiguous(events.drop_last()) && match events.last() {
            HighlightEvent::Source { start, end } => start == frontier(events.drop_last()) && start
                < end,
            _ => true,
        }
    }
}

/// Highlights opened minus highlights closed.
pub open spec fn open_count(events: Seq<HighlightEvent>) -> int
    decreases events.len(),
{
    if events.len() == 0 {
        0
    } else {
        open_count(events.drop_last()) + match events.last() {
            HighlightEvent::HighlightStart(_) => 1int,
            HighlightEvent::HighlightEnd => -1int,
            _ => 0int,
        }
    }
}

/// No prefix closes more highlights than it opened.
pub open spec fn never_overclosed(events: Seq<HighlightEvent>) -> bool
    decreases events.len(),
{
    if events.len() == 0 {
        true
    } else {
        never_overclosed(events.drop_last()) && open_count(events) >= 0
    }
}

/// The byte offsets reported by the `Source` events, in the order reported.
pub open spec fn reported_bytes(events: Seq<HighlightEvent>) -> Seq<int>
    decreases events.len(),
{
    if events.len() == 0 {
        Seq::empty()
    } else {
        reported_bytes(events.drop_last()) + match events.last() {
            HighlightEvent::Source { start, end } => Seq::new(
                (end - start) as nat,
                |k: int| start + k,
            ),
            _ => Seq::empty(),
        }
    }
}

/// Contiguous sources report every byte below the frontier exactly once,
/// in order.
pub proof fn lemma_reported_bytes(events: Seq<HighlightEvent>)
    requires
        sources_contiguous(events),
        frontier(events) >= 0,
    ensures
        reported_bytes(events) == Seq::new(frontier(events) as nat, |k: int| k),
    decreases events.len(),
{
    if events.len() > 0 {
        lemma_frontier_nonneg(events.drop_last());
        lemma_reported_bytes(events.drop_last());
        assert(reported_bytes(events) =~= Seq::new(frontier(events) as nat, |k: int| k));
    } else {
        assert(reported_bytes(events) =~= Seq::new(frontier(events) as nat, |k: int| k));
    }
}

pub proof fn lemma_frontier_nonneg(events: Seq<HighlightEvent>)
    ensures
        frontier(events) >= 0,
    decreases events.len(),
{
    if events.len() > 0 {
        lemma_frontier_nonneg(events.drop_last());
    }
}

/// The prefix of `events` before position `i`.
pub open spec fn prefix(events: Seq<HighlightEvent>, i: int) -> Seq<HighlightEvent> {
    events.subrange(0, i)
}

pub proof fn lemma_never_overclosed_prefixes(events: Seq<HighlightEvent>, i: int)
    requires
        never_overclosed(events),
        0 <= i <= events.len(),
    ensures
        open_count(prefix(events, i)) >= 0,
    decreases events.len(),
{
    if i == events.len() {
        assert(prefix(events, i) =~= events);
    } else {
        assert(prefix(events.drop_last(), i) =~= prefix(events, i));
        lemma_never_overclosed_prefixes(events.drop_last(), i);
    }
}

pub proof fn lemma_frontier_monotone(events: Seq<HighlightEvent>, i: int)
    requires
        sources_contiguous(events),
        0 <= i <= events.len(),
    ensures
        frontier(prefix(events, i)) <= frontier(events),
        sources_contiguous(prefix(events, i)),
    decreases events.len(),
{
    if i == events.len() {
        assert(prefix(events, i) =~= events);
    } else {
        assert(prefix(events.drop_last(), i) =~= prefix(events, i));
        lemma_frontier_monotone(events.drop_last(), i);
    }
}

/// Offsets only grow along a stream whose sources are contiguous: a
/// `Source` event starts at or after the end of every earlier one.
pub proof fn lemma_offsets_monotone(events: Seq<HighlightEvent>, i: int, j: int)
    requires
        sources_contiguous(events),
        0 <= i < j < events.len(),
        events[i] is Source,
        events[j] is Source,
    ensures
        events[i]->Source_end <= events[j]->Source_start,
        events[i]->Source_start < events[i]->Source_end,
{
    lemma_frontier_monotone(events, i + 1);
    lemma_frontier_monotone(events, j + 1);
    lemma_frontier_monotone(events, j);
    lemma_frontier_monotone(prefix(events, j), i + 1);
    let pi = prefix(events, i + 1);
    let pj = prefix(events, j + 1);
    assert(pi.last() == events[i]);
    assert(pj.last() == events[j]);
    assert(pj.drop_last() =~= prefix(events, j));
    assert(prefix(prefix(events, j), i + 1) =~= pi);
}

} // verus!

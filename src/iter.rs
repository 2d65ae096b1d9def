//! The streaming merge of highlight boundaries from all layers of a document
//! into one event stream, in byte order.
//!
//! Each layer stands here as plain values: its depth, its ranges, the stack of
//! byte offsets at which its open highlights end, its local scopes, its
//! captures and where the next one starts. Parsing and running queries is the
//! caller's part; the events come only from the methods here.
use vstd::prelude::*;

use crate::captures::LayerCaptures;
use crate::config::HighlightConfiguration;
use crate::locals::{resolve_spec, ScopeStack};
use crate::ranges::Range;
use crate::stream::{
    frontier, lemma_frontier_nonneg, lemma_never_overclosed_prefixes, lemma_offsets_monotone,
    lemma_reported_bytes, never_overclosed, open_count, prefix, reported_bytes, sources_contiguous,
};
use crate::{Highlight, HighlightEvent};

verus! {

/// Iterations between two looks at the cancellation flag.
pub const CANCELLATION_CHECK_INTERVAL: usize = 100;

/// Counts iterations and says when the cancellation flag is due for a look.
pub struct CancellationPoll {
    pub count: usize,
}

impl CancellationPoll {
    pub fn new() -> (r: Self)
        ensures
            r.count == 0,
    {
        CancellationPoll { count: 0 }
    }

    /// One more iteration; true on the first and then on every
    /// `CANCELLATION_CHECK_INTERVAL`-th after it.
    pub fn tick(&mut self) -> (r: bool)
        requires
            old(self).count < CANCELLATION_CHECK_INTERVAL,
        ensures
            r == (old(self).count == 0),
            final(self).count == if old(self).count + 1 >= CANCELLATION_CHECK_INTERVAL {
                0
            } else {
                old(self).count + 1
            },
            final(self).count < CANCELLATION_CHECK_INTERVAL,
    {
        let due = self.count == 0;
        self.count = self.count + 1;
        if self.count >= CANCELLATION_CHECK_INTERVAL {
            self.count = 0;
        }
        due
    }
}

/// Where a layer's next boundary lies: at equal offsets ends come before
/// starts, and deeper layers before shallower ones.
#[derive(Copy, Clone, Debug, PartialEq, Eq, Structural)]
pub struct SortKey {
    pub offset: usize,
    pub is_start: bool,
    pub depth: usize,
}

pub open spec fn key_lt(a: SortKey, b: SortKey) -> bool {
    ||| a.offset < b.offset
    ||| a.offset == b.offset && !a.is_start && b.is_start
    ||| a.offset == b.offset && a.is_start == b.is_start && a.depth > b.depth
}

pub fn key_less(a: SortKey, b: SortKey) -> (r: bool)
    ensures
        r == key_lt(a, b),
{
    if a.offset != b.offset {
        a.offset < b.offset
    } else if a.is_start != b.is_start {
        !a.is_start
    } else {
        a.depth > b.depth
    }
}

/// The earlier of the next capture's start and the innermost open
/// highlight's end; an end wins a tie.
pub open spec fn sort_key_spec(next_start: Option<usize>, next_end: Option<usize>, depth: usize) -> Option<SortKey> {
    match (next_start, next_end) {
        (Some(s), Some(e)) => if s < e {
            Some(SortKey { offset: s, is_start: true, depth })
        } else {
            Some(SortKey { offset: e, is_start: false, depth })
        },
        (Some(s), None) => Some(SortKey { offset: s, is_start: true, depth }),
        (None, Some(e)) => Some(SortKey { offset: e, is_start: false, depth }),
        (None, None) => None,
    }
}

pub fn sort_key(next_start: Option<usize>, next_end: Option<usize>, depth: usize) -> (r: Option<SortKey>)
    ensures
        r == sort_key_spec(next_start, next_end, depth),
{
    match (next_start, next_end) {
        (Some(start), Some(end)) => {
            if start < end {
                Some(SortKey { offset: start, is_start: true, depth })
            } else {
                Some(SortKey { offset: end, is_start: false, depth })
            }
        },
        (Some(i), None) => Some(SortKey { offset: i, is_start: true, depth }),
        (None, Some(j)) => Some(SortKey { offset: j, is_start: false, depth }),
        (None, None) => None,
    }
}

/// The per-layer state of the merge.
pub struct LayerState {
    /// The caller's name for the layer.
    pub id: usize,
    pub depth: usize,
    pub ranges: Vec<Range>,
    pub highlight_end_stack: Vec<usize>,
    pub scopes: ScopeStack,
    /// Where the layer's next capture starts, if it has one.
    pub next_start: Option<usize>,
    pub captures: LayerCaptures,
}

pub open spec fn stack_top(stack: Seq<usize>) -> Option<usize> {
    if stack.len() > 0 {
        Some(stack.last())
    } else {
        None
    }
}

impl LayerState {
    /// A layer with no open highlight and only the document scope.
    pub fn new(id: usize, depth: usize, ranges: Vec<Range>, captures: LayerCaptures) -> (r: Self)
        requires
            captures.wf(),
        ensures
            r.id == id,
            r.depth == depth,
            r.ranges@ == ranges@,
            r.highlight_end_stack@.len() == 0,
            r.scopes.wf(),
            r.captures.wf(),
            r.captures.same_captures(&captures),
            r.next_start == if r.captures.pos < r.captures.captures@.len() {
                Some(r.captures.captures@[r.captures.pos as int].start)
            } else {
                None
            },
    {
        let mut captures = captures;
        let next_start = captures.peek_start();
        LayerState {
            id,
            depth,
            ranges,
            highlight_end_stack: Vec::new(),
            scopes: ScopeStack::new(),
            next_start,
            captures,
        }
    }

    pub open spec fn key(&self) -> Option<SortKey> {
        sort_key_spec(self.next_start, stack_top(self.highlight_end_stack@), self.depth)
    }

    pub fn sort_key(&self) -> (r: Option<SortKey>)
        ensures
            r == self.key(),
    {
        let n = self.highlight_end_stack.len();
        let top = if n > 0 {
            Some(self.highlight_end_stack[n - 1])
        } else {
            None
        };
        sort_key(self.next_start, top, self.depth)
    }
}

/// The index of the last layer, from index `j` on, whose key is below `k0`
/// with all layers between: the layers the first one moves behind end there.
pub open spec fn run_end(s: Seq<LayerState>, k0: SortKey, j: int) -> int
    decreases s.len() - j,
{
    if 0 < j < s.len() && s[j].key() is Some && key_lt(s[j].key().unwrap(), k0) {
        run_end(s, k0, j + 1)
    } else {
        j - 1
    }
}

/// The layers after the first has moved to its place: leading layers
/// without a boundary are dropped, then the first moves behind exactly the
/// layers right after it whose key is below its own; the rest keep their
/// order.
pub open spec fn reordered(s: Seq<LayerState>) -> Seq<LayerState>
    decreases s.len(),
{
    if s.len() == 0 {
        s
    } else {
        match s[0].key() {
            None => reordered(s.drop_first()),
            Some(k0) => s.remove(0).insert(run_end(s, k0, 1), s[0]),
        }
    }
}

/// `x` put before the first layer from index `i` on whose key is above its
/// own `kx`, dropping on the way the layers that have no boundary; at the end
/// where there is none.
pub open spec fn inserted(s: Seq<LayerState>, x: LayerState, kx: SortKey, i: int) -> Seq<LayerState>
    decreases s.len() - i,
{
    if i < 0 || i >= s.len() {
        s.push(x)
    } else {
        match s[i].key() {
            Some(ki) => if key_lt(kx, ki) {
                s.insert(i, x)
            } else {
                inserted(s, x, kx, i + 1)
            },
            None => inserted(s.remove(i), x, kx, i),
        }
    }
}

/// The number of open highlights over all layers.
pub open spec fn total_open(layers: Seq<LayerState>) -> int
    decreases layers.len(),
{
    if layers.len() == 0 {
        0
    } else {
        total_open(layers.drop_last()) + layers.last().highlight_end_stack@.len()
    }
}

pub proof fn lemma_total_open_nonneg(layers: Seq<LayerState>)
    ensures
        total_open(layers) >= 0,
    decreases layers.len(),
{
    if layers.len() > 0 {
        lemma_total_open_nonneg(layers.drop_last());
    }
}

pub proof fn lemma_total_open_remove(layers: Seq<LayerState>, i: int)
    requires
        0 <= i < layers.len(),
    ensures
        total_open(layers.remove(i)) == total_open(layers) - layers[i].highlight_end_stack@.len(),
    decreases layers.len(),
{
    if i < layers.len() - 1 {
        assert(layers.remove(i).drop_last() =~= layers.drop_last().remove(i));
        lemma_total_open_remove(layers.drop_last(), i);
    } else {
        assert(layers.remove(i) =~= layers.drop_last());
    }
}

pub proof fn lemma_total_open_insert(layers: Seq<LayerState>, i: int, x: LayerState)
    requires
        0 <= i <= layers.len(),
    ensures
        total_open(layers.insert(i, x)) == total_open(layers) + x.highlight_end_stack@.len(),
    decreases layers.len(),
{
    if i < layers.len() {
        assert(layers.insert(i, x).drop_last() =~= layers.drop_last().insert(i, x));
        lemma_total_open_insert(layers.drop_last(), i, x);
    } else {
        assert(layers.insert(i, x).drop_last() =~= layers);
    }
}

/// A layer of the merge is sound: its scopes are well formed and its open
/// highlights end within the document.
pub open spec fn layer_ok(l: LayerState, source_len: usize) -> bool {
    &&& l.scopes.wf()
    &&& l.captures.wf()
    &&& forall|j: int| 0 <= j < l.highlight_end_stack@.len() ==> l.highlight_end_stack@[j] <= source_len
}

/// The change in open highlights that a buffered event will bring.
pub open spec fn pending_open(e: Option<HighlightEvent>) -> int {
    match e {
        Some(HighlightEvent::HighlightStart(_)) => 1,
        Some(HighlightEvent::HighlightEnd) => -1,
        _ => 0,
    }
}

pub open spec fn log_event(log: Seq<HighlightEvent>, e: Option<HighlightEvent>) -> Seq<HighlightEvent> {
    match e {
        Some(ev) => log.push(ev),
        None => log,
    }
}

/// The state of the merge over all layers of one document.
pub struct HighlightIterState {
    pub source_len: usize,
    /// Where the next `Source` event starts.
    pub byte_offset: usize,
    /// The active layers, the one with the earliest boundary first.
    pub layers: Vec<LayerState>,
    pub next_event: Option<HighlightEvent>,
    /// Start, end and depth of the latest highlight opened.
    pub last_highlight_range: Option<(usize, usize, usize)>,
    /// The events handed out so far.
    pub emitted: Ghost<Seq<HighlightEvent>>,
}

impl HighlightIterState {
    pub open spec fn wf(&self) -> bool {
        &&& forall|i: int| 0 <= i < self.layers@.len() ==> layer_ok(#[trigger] self.layers@[i], self.source_len)
        &&& self.byte_offset <= self.source_len
        &&& sources_contiguous(self.emitted@)
        &&& frontier(self.emitted@) == self.byte_offset
        &&& never_overclosed(self.emitted@)
        &&& open_count(self.emitted@) + pending_open(self.next_event) == total_open(self.layers@)
        &&& !(self.next_event matches Some(HighlightEvent::Source { .. }))
    }

    /// No layer is left and nothing is buffered: the stream is over once
    /// `finish` has reported the rest of the document.
    pub open spec fn exhausted(&self) -> bool {
        self.layers@.len() == 0 && self.next_event is None
    }

    /// The merge over `layers`, none of which has an open highlight.
    pub fn new(source_len: usize, layers: Vec<LayerState>) -> (r: Self)
        requires
            forall|i: int|
                0 <= i < layers@.len() ==> (#[trigger] layers@[i]).scopes.wf()
                    && layers@[i].captures.wf() && layers@[i].highlight_end_stack@.len() == 0,
        ensures
            r.wf(),
            r.source_len == source_len,
            r.byte_offset == 0,
            r.emitted@ == Seq::<HighlightEvent>::empty(),
            r.next_event is None,
            r.layers@ == reordered(layers@),
    {
        let mut r = HighlightIterState {
            source_len,
            byte_offset: 0,
            layers,
            next_event: None,
            last_highlight_range: None,
            emitted: Ghost(Seq::empty()),
        };
        proof {
            lemma_total_open_zero(r.layers@);
        }
        r.sort_layers();
        r
    }

    /// Hands out the buffered event, if any.
    pub fn take_next_event(&mut self) -> (r: Option<HighlightEvent>)
        requires
            old(self).wf(),
        ensures
            final(self).wf(),
            r == old(self).next_event,
            final(self).next_event is None,
            final(self).emitted@ == log_event(old(self).emitted@, r),
            final(self).layers@ == old(self).layers@,
            final(self).byte_offset == old(self).byte_offset,
            final(self).source_len == old(self).source_len,
            final(self).last_highlight_range == old(self).last_highlight_range,
    {
        let r = self.next_event;
        self.next_event = None;
        proof {
            self.emitted@ = log_event(self.emitted@, r);
            if r is Some {
                assert(self.emitted@.drop_last() =~= old(self).emitted@);
            }
            lemma_total_open_nonneg(self.layers@);
        }
        r
    }

    /// With no layer left, reports the rest of the document, if any.
    pub fn finish(&mut self) -> (r: Option<HighlightEvent>)
        requires
            old(self).wf(),
            old(self).layers@.len() == 0,
            old(self).next_event is None,
        ensures
            final(self).wf(),
            final(self).exhausted(),
            final(self).byte_offset == final(self).source_len,
            final(self).source_len == old(self).source_len,
            r == if old(self).byte_offset < old(self).source_len {
                Some(HighlightEvent::Source { start: old(self).byte_offset, end: old(self).source_len })
            } else {
                None
            },
            final(self).emitted@ == log_event(old(self).emitted@, r),
    {
        if self.byte_offset < self.source_len {
            let r = HighlightEvent::Source { start: self.byte_offset, end: self.source_len };
            self.byte_offset = self.source_len;
            proof {
                self.emitted@ = self.emitted@.push(r);
                assert(self.emitted@.drop_last() =~= old(self).emitted@);
            }
            Some(r)
        } else {
            None
        }
    }

    /// Reports the document up to `offset`, then `event`; where the document
    /// is already reported that far, `event` comes at once.
    fn emit_event(&mut self, offset: usize, event: Option<HighlightEvent>) -> (r: Option<HighlightEvent>)
        requires
            old(self).next_event is None,
            offset <= old(self).source_len,
            old(self).byte_offset <= old(self).source_len,
            sources_contiguous(old(self).emitted@),
            frontier(old(self).emitted@) == old(self).byte_offset,
            never_overclosed(old(self).emitted@),
            forall|i: int|
                0 <= i < old(self).layers@.len() ==> layer_ok(#[trigger] old(self).layers@[i], old(self).source_len),
            open_count(old(self).emitted@) + pending_open(event) == total_open(old(self).layers@),
            !(event matches Some(HighlightEvent::Source { .. })),
        ensures
            final(self).wf(),
            final(self).source_len == old(self).source_len,
            final(self).last_highlight_range == old(self).last_highlight_range,
            r == if old(self).byte_offset < offset {
                Some(HighlightEvent::Source { start: old(self).byte_offset, end: offset })
            } else {
                event
            },
            final(self).next_event == if old(self).byte_offset < offset {
                event
            } else {
                None
            },
            final(self).byte_offset == if old(self).byte_offset < offset {
                offset
            } else {
                old(self).byte_offset
            },
            final(self).emitted@ == log_event(old(self).emitted@, r),
            old(self).layers@.len() > 0 && old(self).layers@[0].key() is None ==> final(self).layers@.len()
                < old(self).layers@.len(),
    {
        let result;
        if self.byte_offset < offset {
            let e = HighlightEvent::Source { start: self.byte_offset, end: offset };
            result = Some(e);
            self.byte_offset = offset;
            self.next_event = event;
            proof {
                self.emitted@ = self.emitted@.push(e);
                assert(self.emitted@.drop_last() =~= old(self).emitted@);
                lemma_total_open_nonneg(self.layers@);
            }
        } else {
            result = event;
            proof {
                self.emitted@ = log_event(self.emitted@, event);
                if event is Some {
                    assert(self.emitted@.drop_last() =~= old(self).emitted@);
                }
                lemma_total_open_nonneg(self.layers@);
            }
        }
        self.sort_layers();
        result
    }

    /// Moves the first layer to its place by its key; drops leading layers
    /// that have no boundary left.
    pub fn sort_layers(&mut self)
        requires
            old(self).wf(),
        ensures
            final(self).wf(),
            final(self).emitted@ == old(self).emitted@,
            final(self).byte_offset == old(self).byte_offset,
            final(self).source_len == old(self).source_len,
            final(self).next_event == old(self).next_event,
            final(self).last_highlight_range == old(self).last_highlight_range,
            final(self).layers@.len() > 0 ==> final(self).layers@[0].key() is Some,
            final(self).layers@.len() <= old(self).layers@.len(),
            old(self).layers@.len() > 0 && old(self).layers@[0].key() is None ==> final(self).layers@.len()
                < old(self).layers@.len(),
            final(self).layers@ == reordered(old(self).layers@),
    {
        while self.layers.len() > 0
            invariant_except_break
                reordered(self.layers@) == reordered(old(self).layers@),
            invariant
                self.wf(),
                self.emitted@ == old(self).emitted@,
                self.byte_offset == old(self).byte_offset,
                self.source_len == old(self).source_len,
                self.next_event == old(self).next_event,
                self.last_highlight_range == old(self).last_highlight_range,
                self.layers@.len() <= old(self).layers@.len(),
                old(self).layers@.len() > 0 && old(self).layers@[0].key() is None ==> self.layers@.len()
                    < old(self).layers@.len() || self.layers@ == old(self).layers@,
            ensures
                self.layers@.len() > 0 ==> self.layers@[0].key() is Some,
                self.layers@ == reordered(old(self).layers@),
            decreases self.layers@.len(),
        {
            if let Some(key) = self.layers[0].sort_key() {
                let mut i: usize = 0;
                let ghost s0 = self.layers@;
                assert(self.layers@[0].key() == Some(key));
                while i < self.layers.len() - 1
                    invariant
                        self.layers@.len() > 0,
                        i < self.layers@.len(),
                        self.layers@ == s0,
                        i > 0 ==> self.layers@[1].key() is Some,
                        run_end(s0, key, 1) == run_end(s0, key, i + 1),
                    ensures
                        run_end(s0, key, 1) == i,
                        i < self.layers@.len(),
                        i > 0 ==> self.layers@[1].key() is Some,
                    decreases self.layers@.len() - i,
                {
                    if let Some(next_key) = self.layers[i + 1].sort_key() {
                        if key_less(next_key, key) {
                            i = i + 1;
                            continue;
                        }
                    }
                    break;
                }
                if i == 0 {
                    assert(s0.remove(0).insert(0, s0[0]) =~= s0);
                }
                if i > 0 {
                    let ghost before = self.layers@;
                    let first = self.layers.remove(0);
                    proof {
                        lemma_total_open_remove(before, 0);
                    }
                    let ghost removed = self.layers@;
                    self.layers.insert(i, first);
                    proof {
                        lemma_total_open_insert(removed, i as int, first);
                        assert forall|j: int| 0 <= j < self.layers@.len() implies layer_ok(
                            #[trigger] self.layers@[j],
                            self.source_len,
                        ) by {
                            if j < i {
                                assert(self.layers@[j] == before[j + 1]);
                            } else if j > i {
                                assert(self.layers@[j] == before[j]);
                            } else {
                                assert(self.layers@[j] == before[0]);
                            }
                        }
                        assert(self.layers@[0] == before[1]);
                        assert(self.layers@[0].key() is Some);
                        assert(self.layers@ =~= s0.remove(0).insert(i as int, s0[0]));
                    }
                }
                assert(self.layers@ == reordered(s0));
                break;
            }
            let ghost before = self.layers@;
            self.layers.remove(0);
            proof {
                assert(before.remove(0) =~= before.drop_first());
                lemma_total_open_remove(before, 0);
                assert forall|j: int| 0 <= j < self.layers@.len() implies layer_ok(
                    #[trigger] self.layers@[j],
                    self.source_len,
                ) by {
                    assert(self.layers@[j] == before[j + 1]);
                }
            }
        }
    }
}

impl HighlightIterState {
    /// The first layer's innermost highlight ends before (or where) its next
    /// capture starts, or it has no capture left: that end comes next.
    pub open spec fn end_due_spec(&self) -> bool {
        &&& self.layers@.len() > 0
        &&& self.layers@[0].highlight_end_stack@.len() > 0
        &&& match self.layers@[0].next_start {
            Some(s) => self.layers@[0].highlight_end_stack@.last() <= s,
            None => true,
        }
    }

    pub fn end_due(&self) -> (r: bool)
        ensures
            r == self.end_due_spec(),
    {
        if self.layers.len() == 0 {
            return false;
        }
        let layer = &self.layers[0];
        let n = layer.highlight_end_stack.len();
        if n == 0 {
            return false;
        }
        match layer.next_start {
            Some(s) => layer.highlight_end_stack[n - 1] <= s,
            None => true,
        }
    }

    /// Closes the first layer's innermost highlight: the document up to its
    /// end is reported, then `HighlightEnd`.
    pub fn close_highlight(&mut self) -> (r: Option<HighlightEvent>)
        requires
            old(self).wf(),
            old(self).next_event is None,
            old(self).layers@.len() > 0,
            old(self).layers@[0].highlight_end_stack@.len() > 0,
        ensures
            final(self).wf(),
            final(self).source_len == old(self).source_len,
            ({
                let end = old(self).layers@[0].highlight_end_stack@.last();
                if old(self).byte_offset < end {
                    r == Some(HighlightEvent::Source { start: old(self).byte_offset, end })
                        && final(self).next_event == Some(HighlightEvent::HighlightEnd)
                        && final(self).byte_offset == end
                } else {
                    r == Some(HighlightEvent::HighlightEnd) && final(self).next_event is None
                        && final(self).byte_offset == old(self).byte_offset
                }
            }),
            final(self).emitted@ == log_event(old(self).emitted@, r),
    {
        let ghost before = self.layers@;
        let mut layer = self.layers.remove(0);
        let end = layer.highlight_end_stack.pop().unwrap();
        assert(layer_ok(before[0], self.source_len));
        assert(end == before[0].highlight_end_stack@.last());
        self.layers.insert(0, layer);
        proof {
            lemma_replace_first(before, layer, self.source_len);
        }
        self.emit_event(end, Some(HighlightEvent::HighlightEnd))
    }

    /// The first layer has nothing left: the document up to its end is
    /// reported, and the layer leaves.
    pub fn finish_layer(&mut self) -> (r: Option<HighlightEvent>)
        requires
            old(self).wf(),
            old(self).next_event is None,
            old(self).layers@.len() > 0,
            old(self).layers@[0].highlight_end_stack@.len() == 0,
            old(self).layers@[0].next_start is None,
        ensures
            final(self).wf(),
            final(self).source_len == old(self).source_len,
            final(self).byte_offset == old(self).source_len,
            r == if old(self).byte_offset < old(self).source_len {
                Some(HighlightEvent::Source { start: old(self).byte_offset, end: old(self).source_len })
            } else {
                None
            },
            final(self).emitted@ == log_event(old(self).emitted@, r),
            final(self).layers@.len() < old(self).layers@.len(),
            final(self).next_event is None,
    {
        let len = self.source_len;
        self.emit_event(len, None)
    }

    /// A highlight over `start..end` that a deeper layer has just opened
    /// over the same bytes: the shallower one gives way.
    pub open spec fn is_duplicate_spec(&self, start: usize, end: usize) -> bool {
        &&& self.layers@.len() > 0
        &&& match self.last_highlight_range {
            Some((s, e, d)) => s == start && e == end && self.layers@[0].depth < d,
            None => false,
        }
    }

    pub fn is_duplicate(&self, start: usize, end: usize) -> (r: bool)
        ensures
            r == self.is_duplicate_spec(start, end),
    {
        if self.layers.len() == 0 {
            return false;
        }
        match self.last_highlight_range {
            Some((s, e, d)) => s == start && e == end && self.layers[0].depth < d,
            None => false,
        }
    }

    /// Opens highlight `h` over `start..end` in the first layer: the document
    /// up to `start` is reported, then `HighlightStart(h)`; the highlight
    /// ends at `end`.
    pub fn open_highlight(&mut self, start: usize, end: usize, h: Highlight) -> (r: Option<HighlightEvent>)
        requires
            old(self).wf(),
            old(self).next_event is None,
            old(self).layers@.len() > 0,
            start <= end <= old(self).source_len,
        ensures
            final(self).wf(),
            final(self).source_len == old(self).source_len,
            final(self).last_highlight_range == Some((start, end, old(self).layers@[0].depth)),
            if old(self).byte_offset < start {
                r == Some(HighlightEvent::Source { start: old(self).byte_offset, end: start })
                    && final(self).next_event == Some(HighlightEvent::HighlightStart(h))
                    && final(self).byte_offset == start
            } else {
                r == Some(HighlightEvent::HighlightStart(h)) && final(self).next_event is None
                    && final(self).byte_offset == old(self).byte_offset
            },
            final(self).emitted@ == log_event(old(self).emitted@, r),
    {
        let ghost before = self.layers@;
        let mut layer = self.layers.remove(0);
        self.last_highlight_range = Some((start, end, layer.depth));
        layer.highlight_end_stack.push(end);
        assert(layer_ok(before[0], self.source_len));
        assert(layer_ok(layer, self.source_len));
        self.layers.insert(0, layer);
        proof {
            lemma_replace_first(before, layer, self.source_len);
        }
        self.emit_event(start, Some(HighlightEvent::HighlightStart(h)))
    }

    /// Records where the first layer's next capture starts.
    pub fn set_next_start(&mut self, next_start: Option<usize>)
        requires
            old(self).wf(),
            old(self).layers@.len() > 0,
        ensures
            final(self).wf(),
            final(self).layers@.len() == old(self).layers@.len(),
            final(self).layers@[0].next_start == next_start,
            final(self).layers@[0].highlight_end_stack@ == old(self).layers@[0].highlight_end_stack@,
            final(self).next_event == old(self).next_event,
            final(self).source_len == old(self).source_len,
            final(self).emitted@ == old(self).emitted@,
    {
        let ghost before = self.layers@;
        let mut layer = self.layers.remove(0);
        layer.next_start = next_start;
        assert(layer_ok(before[0], self.source_len));
        self.layers.insert(0, layer);
        proof {
            lemma_replace_first(before, layer, self.source_len);
        }
    }

    /// Adds a layer with no open highlight, before the first later layer
    /// whose key is greater; layers past the first that have no boundary
    /// left on the way are dropped. A layer with no boundary is not added.
    pub fn insert_layer(&mut self, layer: LayerState)
        requires
            old(self).wf(),
            layer.scopes.wf(),
            layer.captures.wf(),
            layer.highlight_end_stack@.len() == 0,
        ensures
            final(self).wf(),
            final(self).next_event == old(self).next_event,
            final(self).source_len == old(self).source_len,
            final(self).emitted@ == old(self).emitted@,
            final(self).byte_offset == old(self).byte_offset,
            final(self).layers@ == match layer.key() {
                Some(kx) => inserted(old(self).layers@, layer, kx, 1),
                None => old(self).layers@,
            },
    {
        if let Some(key) = layer.sort_key() {
            let mut i: usize = 1;
            while i < self.layers.len()
                invariant
                    self.wf(),
                    self.next_event == old(self).next_event,
                    self.source_len == old(self).source_len,
                    self.emitted@ == old(self).emitted@,
                    self.byte_offset == old(self).byte_offset,
                    layer.scopes.wf(),
                    layer.captures.wf(),
                    layer.highlight_end_stack@.len() == 0,
                    i >= 1,
                    layer.key() == Some(key),
                    inserted(self.layers@, layer, key, i as int) == inserted(old(self).layers@, layer, key, 1),
                decreases self.layers@.len() - i,
            {
                if let Some(key_i) = self.layers[i].sort_key() {
                    if key_less(key, key_i) {
                        let ghost before = self.layers@;
                        self.layers.insert(i, layer);
                        proof {
                            lemma_total_open_insert(before, i as int, layer);
                            assert forall|j: int| 0 <= j < self.layers@.len() implies layer_ok(
                                #[trigger] self.layers@[j],
                                self.source_len,
                            ) by {
                                if j < i {
                                    assert(self.layers@[j] == before[j]);
                                } else if j > i {
                                    assert(self.layers@[j] == before[j - 1]);
                                }
                            }
                        }
                        return;
                    }
                    i = i + 1;
                } else {
                    let ghost before = self.layers@;
                    assert(inserted(before, layer, key, i as int) == inserted(before.remove(i as int), layer, key, i as int));
                    assert(before[i as int].key() is None);
                    assert(before[i as int].highlight_end_stack@.len() == 0);
                    self.layers.remove(i);
                    proof {
                        lemma_total_open_remove(before, i as int);
                        assert forall|j: int| 0 <= j < self.layers@.len() implies layer_ok(
                            #[trigger] self.layers@[j],
                            self.source_len,
                        ) by {
                            if j < i {
                                assert(self.layers@[j] == before[j]);
                            } else {
                                assert(self.layers@[j] == before[j + 1]);
                            }
                        }
                    }
                }
            }
            let ghost before = self.layers@;
            self.layers.push(layer);
            proof {
                assert(self.layers@ =~= before.insert(before.len() as int, layer));
                lemma_total_open_insert(before, before.len() as int, layer);
                assert forall|j: int| 0 <= j < self.layers@.len() implies layer_ok(
                    #[trigger] self.layers@[j],
                    self.source_len,
                ) by {
                    if j < before.len() {
                        assert(self.layers@[j] == before[j]);
                    }
                }
            }
        }
    }

    /// Removes from the first layer the scopes that end before `pos`.
    pub fn prune_scopes(&mut self, pos: usize)
        requires
            old(self).wf(),
            old(self).layers@.len() > 0,
        ensures
            final(self).last_highlight_range == old(self).last_highlight_range,
            final(self).layers@[0].captures == old(self).layers@[0].captures,
            final(self).layers@[0].depth == old(self).layers@[0].depth,
            final(self).layers@[0].ranges@ == old(self).layers@[0].ranges@,
            final(self).wf(),
            final(self).layers@.len() == old(self).layers@.len(),
            final(self).layers@[0].next_start == old(self).layers@[0].next_start,
            final(self).layers@[0].highlight_end_stack@ == old(self).layers@[0].highlight_end_stack@,
            final(self).next_event == old(self).next_event,
            final(self).source_len == old(self).source_len,
            final(self).emitted@ == old(self).emitted@,
    {
        let ghost before = self.layers@;
        let mut layer = self.layers.remove(0);
        assert(layer_ok(before[0], self.source_len));
        layer.scopes.prune(pos);
        self.layers.insert(0, layer);
        proof {
            lemma_replace_first(before, layer, self.source_len);
        }
    }

    /// Opens a local scope over `start..end` in the first layer.
    pub fn push_scope(&mut self, start: usize, end: usize, inherits: bool)
        requires
            old(self).wf(),
            old(self).layers@.len() > 0,
        ensures
            final(self).last_highlight_range == old(self).last_highlight_range,
            final(self).layers@[0].captures == old(self).layers@[0].captures,
            final(self).layers@[0].depth == old(self).layers@[0].depth,
            final(self).layers@[0].ranges@ == old(self).layers@[0].ranges@,
            final(self).wf(),
            final(self).layers@[0].scopes.scopes@.len() == old(self).layers@[0].scopes.scopes@.len() + 1,
            final(self).layers@[0].scopes.scopes@.drop_last() == old(self).layers@[0].scopes.scopes@,
            final(self).layers@[0].scopes.scopes@.last().start == start,
            final(self).layers@[0].scopes.scopes@.last().end == end,
            final(self).layers@[0].scopes.scopes@.last().inherits == inherits,
            final(self).layers@.len() == old(self).layers@.len(),
            final(self).layers@[0].next_start == old(self).layers@[0].next_start,
            final(self).layers@[0].highlight_end_stack@ == old(self).layers@[0].highlight_end_stack@,
            final(self).next_event == old(self).next_event,
            final(self).source_len == old(self).source_len,
            final(self).emitted@ == old(self).emitted@,
    {
        let ghost before = self.layers@;
        let mut layer = self.layers.remove(0);
        assert(layer_ok(before[0], self.source_len));
        layer.scopes.push_scope(start, end, inherits);
        self.layers.insert(0, layer);
        proof {
            lemma_replace_first(before, layer, self.source_len);
        }
    }

    /// Records in the first layer a definition named by `source[start..end]`,
    /// where those bytes are valid UTF-8; returns where it was put.
    pub fn define(
        &mut self,
        source: &[u8],
        start: usize,
        end: usize,
        value_start: usize,
        value_end: usize,
    ) -> (r: Option<(usize, usize)>)
        requires
            old(self).wf(),
            old(self).layers@.len() > 0,
            start <= end <= source@.len(),
        ensures
            final(self).last_highlight_range == old(self).last_highlight_range,
            final(self).layers@[0].captures == old(self).layers@[0].captures,
            final(self).layers@[0].depth == old(self).layers@[0].depth,
            final(self).layers@[0].ranges@ == old(self).layers@[0].ranges@,
            final(self).wf(),
            final(self).layers@.len() == old(self).layers@.len(),
            final(self).layers@[0].next_start == old(self).layers@[0].next_start,
            final(self).layers@[0].highlight_end_stack@ == old(self).layers@[0].highlight_end_stack@,
            final(self).next_event == old(self).next_event,
            final(self).source_len == old(self).source_len,
            final(self).emitted@ == old(self).emitted@,
            r is Some <==> vstd::utf8::valid_utf8(source@.subrange(start as int, end as int)),
            r is None ==> final(self).layers@[0].scopes.scopes@ == old(self).layers@[0].scopes.scopes@,
            r matches Some((s, d)) ==> {
                let sc = final(self).layers@[0].scopes.scopes@;
                let osc = old(self).layers@[0].scopes.scopes@;
                &&& sc.len() == osc.len()
                &&& s == sc.len() - 1
                &&& d == osc[s as int].local_defs@.len()
                &&& sc.drop_last() == osc.drop_last()
                &&& sc[s as int].inherits == osc[s as int].inherits
                &&& sc[s as int].start == osc[s as int].start
                &&& sc[s as int].end == osc[s as int].end
                &&& sc[s as int].local_defs@.drop_last() == osc[s as int].local_defs@
                &&& sc[s as int].local_defs@.len() == d + 1
                &&& sc[s as int].local_defs@[d as int].name@ == source@.subrange(start as int, end as int)
                &&& sc[s as int].local_defs@[d as int].value_start == value_start
                &&& sc[s as int].local_defs@[d as int].value_end == value_end
                &&& sc[s as int].local_defs@[d as int].highlight is None
            },
            match r {
                Some((s, d)) => s < final(self).layers@[0].scopes.scopes@.len()
                    && d < final(self).layers@[0].scopes.scopes@[s as int].local_defs@.len(),
                None => true,
            },
    {
        let ghost before = self.layers@;
        let mut layer = self.layers.remove(0);
        assert(layer_ok(before[0], self.source_len));
        let r = layer.scopes.add_definition(source, start, end, value_start, value_end);
        self.layers.insert(0, layer);
        proof {
            lemma_replace_first(before, layer, self.source_len);
            assert(self.layers@[0] == layer);
        }
        r
    }

    /// Gives definition `d` of scope `s` of the first layer its highlight.
    pub fn set_definition_highlight(&mut self, s: usize, d: usize, highlight: Option<Highlight>)
        requires
            old(self).wf(),
            old(self).layers@.len() > 0,
            s < old(self).layers@[0].scopes.scopes@.len(),
            d < old(self).layers@[0].scopes.scopes@[s as int].local_defs@.len(),
        ensures
            final(self).last_highlight_range == old(self).last_highlight_range,
            final(self).layers@[0].captures == old(self).layers@[0].captures,
            final(self).layers@[0].depth == old(self).layers@[0].depth,
            final(self).layers@[0].ranges@ == old(self).layers@[0].ranges@,
            final(self).wf(),
            final(self).layers@.len() == old(self).layers@.len(),
            final(self).layers@[0].next_start == old(self).layers@[0].next_start,
            final(self).layers@[0].highlight_end_stack@ == old(self).layers@[0].highlight_end_stack@,
            final(self).next_event == old(self).next_event,
            final(self).source_len == old(self).source_len,
            final(self).emitted@ == old(self).emitted@,
            final(self).layers@[0].scopes.scopes@[s as int].local_defs@[d as int].highlight == highlight,
    {
        let ghost before = self.layers@;
        let mut layer = self.layers.remove(0);
        assert(layer_ok(before[0], self.source_len));
        layer.scopes.set_definition_highlight(s, d, highlight);
        self.layers.insert(0, layer);
        proof {
            lemma_replace_first(before, layer, self.source_len);
        }
    }
}

impl HighlightIterState {
    /// Resolves, in the first layer, a reference to `source[start..end]`.
    pub fn resolve_reference(&self, source: &[u8], start: usize, end: usize) -> (r: Option<Option<Highlight>>)
        requires
            self.wf(),
            self.layers@.len() > 0,
            start <= end <= source@.len(),
        ensures
            r == if vstd::utf8::valid_utf8(source@.subrange(start as int, end as int)) {
                crate::locals::resolve_spec(
                    self.layers@[0].scopes.scopes@,
                    source@.subrange(start as int, end as int),
                    start as int,
                )
            } else {
                None
            },
    {
        assert(layer_ok(self.layers@[0], self.source_len));
        self.layers[0].scopes.resolve_reference(source, start, end)
    }
}

/// The section of the combined query that a capture's pattern belongs to.
#[derive(Copy, Clone, Debug, PartialEq, Eq, Structural)]
pub enum CaptureKind {
    Injection,
    Local,
    Highlight,
}

pub fn capture_kind(config: &HighlightConfiguration, pattern_index: usize) -> (r: CaptureKind)
    ensures
        r == if pattern_index < config.locals_pattern_index {
            CaptureKind::Injection
        } else if pattern_index < config.highlights_pattern_index {
            CaptureKind::Local
        } else {
            CaptureKind::Highlight
        },
{
    if pattern_index < config.locals_pattern_index {
        CaptureKind::Injection
    } else if pattern_index < config.highlights_pattern_index {
        CaptureKind::Local
    } else {
        CaptureKind::Highlight
    }
}

/// The highlight that capture `capture_index` maps to.
pub fn capture_highlight(config: &HighlightConfiguration, capture_index: u32) -> (r: Option<Highlight>)
    requires
        config.wf(),
        capture_index < config.info.capture_names@.len(),
    ensures
        r == config.highlight_indices@[capture_index as int],
{
    config.highlight_indices[capture_index as usize]
}

/// Whether a later highlight pattern on the same node replaces the current
/// one: always, except that on a local variable a pattern disabled for
/// local variables is passed over.
pub fn takes_over(config: &HighlightConfiguration, is_local_variable: bool, following_pattern: usize) -> (r: bool)
    requires
        config.wf(),
        following_pattern < config.info.patterns@.len(),
    ensures
        r == !(is_local_variable && config.non_local_variable_patterns@[following_pattern as int]),
{
    !(is_local_variable && config.non_local_variable_patterns[following_pattern])
}

/// What the local captures on the node at hand have established: the
/// highlight of the definition a reference resolved to, and where a
/// definition made on the node was recorded.
#[derive(Copy, Clone, Debug)]
pub struct NodeLocals {
    pub reference_highlight: Option<Highlight>,
    pub definition: Option<(usize, usize)>,
}

pub fn capture_is(index: Option<u32>, capture_index: u32) -> (r: bool)
    ensures
        r == (index == Some(capture_index)),
{
    match index {
        Some(i) => i == capture_index,
        None => false,
    }
}

impl HighlightIterState {
    /// `node` points at a definition of the first layer, if at any.
    pub open spec fn node_ok(&self, node: NodeLocals) -> bool {
        match node.definition {
            Some((s, d)) => self.layers@.len() > 0 && s < self.layers@[0].scopes.scopes@.len() && d
                < self.layers@[0].scopes.scopes@[s as int].local_defs@.len(),
            None => true,
        }
    }

    /// Applies a capture of the locals section to the first layer: a scope
    /// capture opens a scope over the node, a definition capture records the
    /// node's text as a definition, and a reference capture on a node that is
    /// not a definition resolves its text.
    pub fn apply_local_capture(
        &mut self,
        config: &HighlightConfiguration,
        source: &[u8],
        capture_index: u32,
        start: usize,
        end: usize,
        inherits: bool,
        value_range: (usize, usize),
        node: &mut NodeLocals,
    )
        requires
            old(self).wf(),
            old(self).layers@.len() > 0,
            old(self).node_ok(*old(node)),
            start <= end <= source@.len(),
        ensures
            final(self).last_highlight_range == old(self).last_highlight_range,
            final(self).wf(),
            final(self).node_ok(*final(node)),
            final(self).layers@.len() == old(self).layers@.len(),
            final(self).layers@[0].next_start == old(self).layers@[0].next_start,
            final(self).layers@[0].highlight_end_stack@ == old(self).layers@[0].highlight_end_stack@,
            final(self).next_event == old(self).next_event,
            final(self).source_len == old(self).source_len,
            final(self).emitted@ == old(self).emitted@,
            final(self).layers@[0].captures == old(self).layers@[0].captures,
            final(self).layers@[0].depth == old(self).layers@[0].depth,
            config.local_scope_capture_index == Some(capture_index) ==> final(node).definition is None
                && final(node).reference_highlight == old(node).reference_highlight
                && final(self).layers@[0].scopes.scopes@.len() == old(self).layers@[0].scopes.scopes@.len() + 1
                && final(self).layers@[0].scopes.scopes@.drop_last() == old(self).layers@[0].scopes.scopes@
                && final(self).layers@[0].scopes.scopes@.last().start == start
                && final(self).layers@[0].scopes.scopes@.last().end == end
                && final(self).layers@[0].scopes.scopes@.last().inherits == inherits,
            config.local_scope_capture_index != Some(capture_index) && config.local_def_capture_index
                == Some(capture_index) ==> match final(node).definition {
                Some((s, d)) => {
                    let def = final(self).layers@[0].scopes.scopes@[s as int].local_defs@[d as int];
                    &&& def.name@ == source@.subrange(start as int, end as int)
                    &&& def.value_start == value_range.0
                    &&& def.value_end == value_range.1
                    &&& def.highlight is None
                },
                None => final(self).layers@[0].scopes.scopes@ == old(self).layers@[0].scopes.scopes@,
            },
            config.local_scope_capture_index != Some(capture_index) && config.local_def_capture_index
                == Some(capture_index) ==> final(node).reference_highlight is None && (final(node).definition
                is Some <==> vstd::utf8::valid_utf8(source@.subrange(start as int, end as int))),
            config.local_scope_capture_index != Some(capture_index) && config.local_def_capture_index
                != Some(capture_index) && config.local_ref_capture_index == Some(capture_index)
                && old(node).definition is None ==> final(self).layers@ == old(self).layers@
                && final(node).definition is None && final(node).reference_highlight == {
                let name = source@.subrange(start as int, end as int);
                if vstd::utf8::valid_utf8(name) {
                    match resolve_spec(old(self).layers@[0].scopes.scopes@, name, start as int) {
                        Some(h) => h,
                        None => old(node).reference_highlight,
                    }
                } else {
                    old(node).reference_highlight
                }
            },
    {
        if capture_is(config.local_scope_capture_index, capture_index) {
            node.definition = None;
            self.push_scope(start, end, inherits);
        } else if capture_is(config.local_def_capture_index, capture_index) {
            node.reference_highlight = None;
            node.definition = self.define(source, start, end, value_range.0, value_range.1);
        } else if capture_is(config.local_ref_capture_index, capture_index) && node.definition.is_none() {
            if let Some(h) = self.resolve_reference(source, start, end) {
                node.reference_highlight = h;
            }
        }
    }

    /// Gives the definition made on the node, if any, the node's highlight,
    /// so that later references to it take that highlight.
    pub fn bind_definition(&mut self, node: &NodeLocals, highlight: Option<Highlight>)
        requires
            old(self).wf(),
            old(self).node_ok(*node),
        ensures
            final(self).last_highlight_range == old(self).last_highlight_range,
            final(self).wf(),
            final(self).layers@.len() == old(self).layers@.len(),
            final(self).next_event == old(self).next_event,
            final(self).source_len == old(self).source_len,
            final(self).emitted@ == old(self).emitted@,
            final(self).layers@.len() > 0 ==> final(self).layers@[0].captures == old(self).layers@[0].captures
                && final(self).layers@[0].highlight_end_stack@ == old(self).layers@[0].highlight_end_stack@
                && final(self).layers@[0].depth == old(self).layers@[0].depth,
            match node.definition {
                Some((s, d)) => final(self).layers@[0].scopes.scopes@[s as int].local_defs@[d as int].highlight
                    == highlight,
                None => final(self).layers@ == old(self).layers@,
            },
    {
        if let Some((s, d)) = node.definition {
            self.set_definition_highlight(s, d, highlight);
        }
    }
}

impl HighlightIterState {
    /// Moves the first layer past its dropped captures and records where its
    /// next capture starts.
    pub fn sync_next_start(&mut self)
        requires
            old(self).wf(),
            old(self).layers@.len() > 0,
        ensures
            final(self).last_highlight_range == old(self).last_highlight_range,
            final(self).wf(),
            final(self).layers@.len() == old(self).layers@.len(),
            final(self).layers@[0].captures.same_captures(&old(self).layers@[0].captures),
            final(self).layers@[0].captures.removed@ == old(self).layers@[0].captures.removed@,
            old(self).layers@[0].captures.pos <= final(self).layers@[0].captures.pos,
            final(self).layers@[0].next_start == if final(self).layers@[0].captures.pos
                < final(self).layers@[0].captures.captures@.len() {
                Some(
                    final(self).layers@[0].captures.captures@[final(self).layers@[0].captures.pos as int].start,
                )
            } else {
                None
            },
            final(self).layers@[0].highlight_end_stack@ == old(self).layers@[0].highlight_end_stack@,
            final(self).layers@[0].scopes == old(self).layers@[0].scopes,
            final(self).layers@[0].depth == old(self).layers@[0].depth,
            final(self).next_event == old(self).next_event,
            final(self).source_len == old(self).source_len,
            final(self).emitted@ == old(self).emitted@,
    {
        let ghost before = self.layers@;
        let mut layer = self.layers.remove(0);
        assert(layer_ok(before[0], self.source_len));
        layer.next_start = layer.captures.peek_start();
        self.layers.insert(0, layer);
        proof {
            lemma_replace_first(before, layer, self.source_len);
        }
    }

    /// Takes the first layer's next capture: its position among the
    /// layer's captures.
    pub fn take_capture(&mut self) -> (r: Option<usize>)
        requires
            old(self).wf(),
            old(self).layers@.len() > 0,
        ensures
            final(self).last_highlight_range == old(self).last_highlight_range,
            final(self).wf(),
            final(self).layers@.len() == old(self).layers@.len(),
            final(self).layers@[0].captures.same_captures(&old(self).layers@[0].captures),
            old(self).layers@[0].captures.pos <= final(self).layers@[0].captures.pos,
            final(self).layers@[0].captures.removed@ == old(self).layers@[0].captures.removed@,
            match r {
                Some(i) => {
                    let lc = final(self).layers@[0].captures;
                    &&& i < lc.captures@.len()
                    &&& lc.pos == i + 1
                    &&& !lc.removed@.contains(lc.captures@[i as int].match_id)
                },
                None => final(self).layers@[0].captures.pos == final(self).layers@[0].captures.captures@.len(),
            },
            final(self).layers@[0].highlight_end_stack@ == old(self).layers@[0].highlight_end_stack@,
            final(self).layers@[0].scopes == old(self).layers@[0].scopes,
            final(self).layers@[0].depth == old(self).layers@[0].depth,
            final(self).next_event == old(self).next_event,
            final(self).source_len == old(self).source_len,
            final(self).emitted@ == old(self).emitted@,
    {
        let ghost before = self.layers@;
        let mut layer = self.layers.remove(0);
        assert(layer_ok(before[0], self.source_len));
        let r = layer.captures.take();
        self.layers.insert(0, layer);
        proof {
            lemma_replace_first(before, layer, self.source_len);
        }
        r
    }

    /// Takes the first layer's next capture if it is on the same node as
    /// capture `i`.
    pub fn next_capture_on_node(&mut self, i: usize) -> (r: Option<usize>)
        requires
            old(self).wf(),
            old(self).layers@.len() > 0,
            i < old(self).layers@[0].captures.captures@.len(),
        ensures
            final(self).last_highlight_range == old(self).last_highlight_range,
            final(self).wf(),
            final(self).layers@.len() == old(self).layers@.len(),
            final(self).layers@[0].captures.same_captures(&old(self).layers@[0].captures),
            old(self).layers@[0].captures.pos <= final(self).layers@[0].captures.pos,
            final(self).layers@[0].captures.removed@ == old(self).layers@[0].captures.removed@,
            match r {
                Some(j) => {
                    let lc = final(self).layers@[0].captures;
                    &&& j < lc.captures@.len()
                    &&& lc.pos == j + 1
                    &&& old(self).layers@[0].captures.pos < lc.pos
                    &&& !lc.removed@.contains(lc.captures@[j as int].match_id)
                    &&& lc.captures@[j as int].node_id == lc.captures@[i as int].node_id
                    &&& lc.captures@[j as int].start == lc.captures@[i as int].start
                    &&& lc.captures@[j as int].end == lc.captures@[i as int].end
                },
                None => true,
            },
            final(self).layers@[0].highlight_end_stack@ == old(self).layers@[0].highlight_end_stack@,
            final(self).layers@[0].scopes == old(self).layers@[0].scopes,
            final(self).layers@[0].depth == old(self).layers@[0].depth,
            final(self).next_event == old(self).next_event,
            final(self).source_len == old(self).source_len,
            final(self).emitted@ == old(self).emitted@,
    {
        let ghost before = self.layers@;
        let mut layer = self.layers.remove(0);
        assert(layer_ok(before[0], self.source_len));
        let r = layer.captures.next_on_node(i);
        self.layers.insert(0, layer);
        proof {
            lemma_replace_first(before, layer, self.source_len);
        }
        r
    }

    /// Drops the remaining captures of match `match_id` in the first layer.
    pub fn remove_match(&mut self, match_id: u32)
        requires
            old(self).wf(),
            old(self).layers@.len() > 0,
        ensures
            final(self).last_highlight_range == old(self).last_highlight_range,
            final(self).wf(),
            final(self).layers@.len() == old(self).layers@.len(),
            final(self).layers@[0].captures.same_captures(&old(self).layers@[0].captures),
            final(self).layers@[0].captures.pos == old(self).layers@[0].captures.pos,
            final(self).layers@[0].captures.removed@.contains(match_id),
            final(self).layers@[0].highlight_end_stack@ == old(self).layers@[0].highlight_end_stack@,
            final(self).layers@[0].scopes == old(self).layers@[0].scopes,
            final(self).layers@[0].depth == old(self).layers@[0].depth,
            final(self).next_event == old(self).next_event,
            final(self).source_len == old(self).source_len,
            final(self).emitted@ == old(self).emitted@,
    {
        let ghost before = self.layers@;
        let mut layer = self.layers.remove(0);
        assert(layer_ok(before[0], self.source_len));
        layer.captures.remove_match(match_id);
        self.layers.insert(0, layer);
        proof {
            lemma_replace_first(before, layer, self.source_len);
        }
    }
}

/// Once the merge is over, every highlight opened has been closed, and at
/// no point were more closed than opened.
pub proof fn lemma_brackets_balanced(state: HighlightIterState)
    requires
        state.wf(),
        state.exhausted(),
    ensures
        open_count(state.emitted@) == 0,
        forall|i: int| 0 <= i <= state.emitted@.len() ==> open_count(#[trigger] prefix(state.emitted@, i)) >= 0,
{
    assert forall|i: int| 0 <= i <= state.emitted@.len() implies open_count(
        #[trigger] prefix(state.emitted@, i),
    ) >= 0 by {
        lemma_never_overclosed_prefixes(state.emitted@, i);
    }
}

/// The `Source` events handed out report the bytes `0..byte_offset`, each
/// once and in order; once `finish` has run, that is the whole document.
pub proof fn lemma_source_coverage(state: HighlightIterState)
    requires
        state.wf(),
    ensures
        reported_bytes(state.emitted@) == Seq::new(state.byte_offset as nat, |k: int| k),
{
    lemma_frontier_nonneg(state.emitted@);
    lemma_reported_bytes(state.emitted@);
}

/// Byte offsets never go back: a `Source` event starts at or after the end
/// of every earlier one.
pub proof fn lemma_offsets_non_decreasing(state: HighlightIterState, i: int, j: int)
    requires
        state.wf(),
        0 <= i < j < state.emitted@.len(),
        state.emitted@[i] is Source,
        state.emitted@[j] is Source,
    ensures
        state.emitted@[i]->Source_end <= state.emitted@[j]->Source_start,
{
    lemma_offsets_monotone(state.emitted@, i, j);
}

proof fn lemma_replace_first(before: Seq<LayerState>, layer: LayerState, source_len: usize)
    requires
        before.len() > 0,
        layer_ok(layer, source_len),
        forall|i: int| 0 <= i < before.len() ==> layer_ok(#[trigger] before[i], source_len),
    ensures
        total_open(before.remove(0).insert(0, layer)) == total_open(before) - before[0].highlight_end_stack@.len()
            + layer.highlight_end_stack@.len(),
        forall|i: int|
            0 <= i < before.len() ==> layer_ok(#[trigger] before.remove(0).insert(0, layer)[i], source_len),
        before.remove(0).insert(0, layer).len() == before.len(),
        before.remove(0).insert(0, layer)[0] == layer,
{
    lemma_total_open_remove(before, 0);
    lemma_total_open_insert(before.remove(0), 0, layer);
    assert forall|i: int| 0 <= i < before.len() implies layer_ok(
        #[trigger] before.remove(0).insert(0, layer)[i],
        source_len,
    ) by {
        if i > 0 {
            assert(before.remove(0).insert(0, layer)[i] == before[i]);
        }
    }
}

proof fn lemma_total_open_zero(layers: Seq<LayerState>)
    requires
        forall|i: int| 0 <= i < layers.len() ==> (#[trigger] layers[i]).highlight_end_stack@.len() == 0,
    ensures
        total_open(layers) == 0,
    decreases layers.len(),
{
    if layers.len() > 0 {
        lemma_total_open_zero(layers.drop_last());
    }
}

} // verus!

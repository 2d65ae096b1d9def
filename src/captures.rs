//! The captures of one layer's query as plain values, read in order, with
//! the matches that were dropped along the way.
use vstd::prelude::*;

use crate::ranges::ContentNode;

verus! {

/// A capture of a match, as the other captures of the match see it: its
/// capture index, its byte range, and its node as injection content.
#[derive(Debug)]
pub struct Sibling {
    pub index: u32,
    pub start: usize,
    pub end: usize,
    pub node: ContentNode,
}

/// One capture of a layer's query: its pattern, its capture index, its node
/// (an identity and a byte range), its match, and all captures of the match.
#[derive(Debug)]
pub struct CaptureRecord {
    pub pattern_index: usize,
    pub capture_index: u32,
    pub node_id: usize,
    pub start: usize,
    pub end: usize,
    pub match_id: u32,
    pub siblings: Vec<Sibling>,
}

/// The captures of one layer, in the order the query yields them, the
/// position of the next one, and the matches whose remaining captures are
/// skipped.
#[derive(Debug)]
pub struct LayerCaptures {
    /// Which configuration the layer's query comes from.
    pub config: usize,
    pub captures: Vec<CaptureRecord>,
    pub pos: usize,
    pub removed: Vec<u32>,
}

impl LayerCaptures {
    pub open spec fn wf(&self) -> bool {
        self.pos <= self.captures@.len()
    }

    /// The unchanging part: the configuration and the captures.
    pub open spec fn same_captures(&self, other: &LayerCaptures) -> bool {
        &&& self.config == other.config
        &&& self.captures@ == other.captures@
    }

    pub fn new(config: usize, captures: Vec<CaptureRecord>) -> (r: Self)
        ensures
            r.wf(),
            r.config == config,
            r.captures@ == captures@,
            r.pos == 0,
            r.removed@.len() == 0,
    {
        LayerCaptures { config, captures, pos: 0, removed: Vec::new() }
    }

    pub fn is_removed(&self, match_id: u32) -> (r: bool)
        ensures
            r == self.removed@.contains(match_id),
    {
        let mut i: usize = 0;
        while i < self.removed.len()
            invariant
                i <= self.removed@.len(),
                forall|k: int| 0 <= k < i ==> self.removed@[k] != match_id,
            decreases self.removed@.len() - i,
        {
            if self.removed[i] == match_id {
                return true;
            }
            i = i + 1;
        }
        false
    }

    /// Drops the remaining captures of match `match_id`.
    pub fn remove_match(&mut self, match_id: u32)
        requires
            old(self).wf(),
        ensures
            final(self).wf(),
            final(self).same_captures(old(self)),
            final(self).pos == old(self).pos,
            final(self).removed@.contains(match_id),
    {
        self.removed.push(match_id);
        assert(self.removed@.last() == match_id);
    }

    /// Moves past the captures of dropped matches.
    pub fn skip_removed(&mut self)
        requires
            old(self).wf(),
        ensures
            final(self).wf(),
            final(self).same_captures(old(self)),
            final(self).removed@ == old(self).removed@,
            old(self).pos <= final(self).pos,
            final(self).pos < final(self).captures@.len() ==> !final(self).removed@.contains(
                final(self).captures@[final(self).pos as int].match_id,
            ),
    {
        while self.pos < self.captures.len() && self.is_removed(self.captures[self.pos].match_id)
            invariant
                self.wf(),
                self.same_captures(old(self)),
                self.removed@ == old(self).removed@,
                old(self).pos <= self.pos,
            decreases self.captures@.len() - self.pos,
        {
            self.pos = self.pos + 1;
        }
    }

    /// Where the next capture starts, if there is one.
    pub fn peek_start(&mut self) -> (r: Option<usize>)
        requires
            old(self).wf(),
        ensures
            final(self).wf(),
            final(self).same_captures(old(self)),
            final(self).removed@ == old(self).removed@,
            old(self).pos <= final(self).pos,
            r == if final(self).pos < final(self).captures@.len() {
                Some(final(self).captures@[final(self).pos as int].start)
            } else {
                None
            },
    {
        self.skip_removed();
        if self.pos < self.captures.len() {
            Some(self.captures[self.pos].start)
        } else {
            None
        }
    }

    /// Takes the next capture: its position among the captures.
    pub fn take(&mut self) -> (r: Option<usize>)
        requires
            old(self).wf(),
        ensures
            final(self).wf(),
            final(self).same_captures(old(self)),
            final(self).removed@ == old(self).removed@,
            old(self).pos <= final(self).pos,
            match r {
                Some(i) => i < final(self).captures@.len() && final(self).pos == i + 1
                    && !final(self).removed@.contains(final(self).captures@[i as int].match_id),
                None => final(self).pos == final(self).captures@.len(),
            },
    {
        self.skip_removed();
        if self.pos < self.captures.len() {
            let i = self.pos;
            self.pos = self.pos + 1;
            Some(i)
        } else {
            None
        }
    }

    /// Takes the next capture if it is on the same node as capture `i`.
    pub fn next_on_node(&mut self, i: usize) -> (r: Option<usize>)
        requires
            old(self).wf(),
            i < old(self).captures@.len(),
        ensures
            final(self).wf(),
            final(self).same_captures(old(self)),
            final(self).removed@ == old(self).removed@,
            old(self).pos <= final(self).pos,
            match r {
                Some(j) => {
                    &&& j < final(self).captures@.len()
                    &&& final(self).pos == j + 1
                    &&& old(self).pos < final(self).pos
                    &&& !final(self).removed@.contains(final(self).captures@[j as int].match_id)
                    &&& final(self).captures@[j as int].node_id == final(self).captures@[i as int].node_id
                    &&& final(self).captures@[j as int].start == final(self).captures@[i as int].start
                    &&& final(self).captures@[j as int].end == final(self).captures@[i as int].end
                },
                None => true,
            },
    {
        self.skip_removed();
        if self.pos < self.captures.len() {
            let c = &self.captures[i];
            let n = &self.captures[self.pos];
            if n.node_id == c.node_id && n.start == c.start && n.end == c.end {
                let j = self.pos;
                self.pos = self.pos + 1;
                return Some(j);
            }
        }
        None
    }
}

} // verus!

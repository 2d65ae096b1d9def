//! One step of the highlight iterator: the next event, or the injection the
//! caller has to parse before the merge can go on.
use vstd::prelude::*;

use crate::captures::Sibling;
use crate::config::HighlightConfiguration;
use crate::iter::{
    capture_highlight, capture_is, capture_kind, takes_over, CaptureKind, HighlightIterState,
    NodeLocals,
};
use crate::locals::{choose_highlight, effective_highlight, is_utf8};
use crate::query_info::{injection_language, scope_inherits, LanguageSource};
use crate::HighlightEvent;

verus! {

/// An injection found in the first layer: capture `capture` of the layer
/// names the language (as `language` says where to find it) and sibling
/// `content` of that capture is the content node.
#[derive(Copy, Clone, Debug, PartialEq, Eq, Structural)]
pub struct InjectionRequest {
    pub config: usize,
    pub capture: usize,
    pub language: LanguageSource,
    /// The sibling whose text names the language, for `Captured`.
    pub language_capture: usize,
    pub content: usize,
    pub include_children: bool,
    pub depth: usize,
}

/// What a step of the iterator came to.
#[derive(Copy, Clone, Debug, PartialEq, Eq, Structural)]
pub enum Step {
    /// An event to hand out.
    Event(HighlightEvent),
    /// The caller parses this injection, adds its layers, and calls
    /// `injection_done`.
    Injection(InjectionRequest),
    /// Nothing to hand out yet: step again.
    Continue,
    /// The stream is over.
    Done,
    /// A capture or a layer does not fit its configuration.
    Failed,
}

pub open spec fn configs_ok(configs: Seq<&HighlightConfiguration>) -> bool {
    forall|i: int| 0 <= i < configs.len() ==> (#[trigger] configs[i]).wf()
}

/// The sibling that names an injection's language: the last capture of the
/// match with the language capture index, where its bytes are in the source
/// and valid UTF-8 (else none).
pub open spec fn language_capture_spec(sibs: Seq<Sibling>, lang: Option<u32>, source: Seq<u8>) -> Option<usize>
    decreases sibs.len(),
{
    if sibs.len() == 0 {
        None
    } else if lang == Some(sibs.last().index) {
        let s = sibs.last();
        if s.start <= s.end <= source.len() && vstd::utf8::valid_utf8(source.subrange(s.start as int, s.end as int)) {
            Some((sibs.len() - 1) as usize)
        } else {
            None
        }
    } else {
        language_capture_spec(sibs.drop_last(), lang, source)
    }
}

/// The sibling that is an injection's content: the last capture of the
/// match with the content capture index (and not the language one).
pub open spec fn content_capture_spec(sibs: Seq<Sibling>, lang: Option<u32>, content: Option<u32>) -> Option<usize>
    decreases sibs.len(),
{
    if sibs.len() == 0 {
        None
    } else if lang != Some(sibs.last().index) && content == Some(sibs.last().index) {
        Some((sibs.len() - 1) as usize)
    } else {
        content_capture_spec(sibs.drop_last(), lang, content)
    }
}

/// Finds, among the captures of an injection match, the one naming the
/// language and the content node.
pub fn injection_captures(config: &HighlightConfiguration, siblings: &Vec<Sibling>, source: &[u8]) -> (r: (
    Option<usize>,
    Option<usize>,
))
    ensures
        r.0 == language_capture_spec(siblings@, config.injection_language_capture_index, source@),
        r.1 == content_capture_spec(
            siblings@,
            config.injection_language_capture_index,
            config.injection_content_capture_index,
        ),
{
    let ghost ss = siblings@;
    let mut language_capture: Option<usize> = None;
    let mut content: Option<usize> = None;
    let mut k: usize = 0;
    while k < siblings.len()
        invariant
            ss == siblings@,
            k <= ss.len(),
            language_capture == language_capture_spec(
                ss.subrange(0, k as int),
                config.injection_language_capture_index,
                source@,
            ),
            content == content_capture_spec(
                ss.subrange(0, k as int),
                config.injection_language_capture_index,
                config.injection_content_capture_index,
            ),
        decreases ss.len() - k,
    {
        assert(ss.subrange(0, k + 1).drop_last() =~= ss.subrange(0, k as int));
        let sib = &siblings[k];
        if capture_is(config.injection_language_capture_index, sib.index) {
            language_capture = if sib.start <= sib.end && sib.end <= source.len() && is_utf8(
                source,
                sib.start,
                sib.end,
            ) {
                Some(k)
            } else {
                None
            };
        } else if capture_is(config.injection_content_capture_index, sib.index) {
            content = Some(k);
        }
        k = k + 1;
    }
    assert(ss.subrange(0, k as int) =~= ss);
    (language_capture, content)
}

impl HighlightIterState {
    /// Takes one step of the merge: hands out a buffered event, closes a
    /// due highlight, or processes the first layer's next capture as an
    /// injection, a local-variable capture or a highlight. Every event comes
    /// from the state's own methods, so the stream keeps its laws.
    pub fn step(&mut self, configs: &Vec<&HighlightConfiguration>, source: &[u8]) -> (r: Step)
        requires
            old(self).wf(),
            old(self).source_len == source@.len(),
            configs_ok(configs@),
        ensures
            final(self).wf(),
            final(self).source_len == old(self).source_len,
            match r {
                Step::Event(e) => final(self).emitted@ == old(self).emitted@.push(e),
                _ => final(self).emitted@ == old(self).emitted@,
            },
            r is Done ==> final(self).exhausted() && final(self).byte_offset == final(self).source_len,
            old(self).next_event matches Some(e) ==> r == Step::Event(e) && final(self).next_event is None,
            // A highlight opened in this step never repeats, in a shallower
            // layer, the exact range that a deeper layer highlighted last.
            old(self).next_event is None && (r matches Step::Event(HighlightEvent::HighlightStart(_))
                || final(self).next_event matches Some(HighlightEvent::HighlightStart(_))) ==> {
                &&& final(self).last_highlight_range is Some
                &&& match (final(self).last_highlight_range, old(self).last_highlight_range) {
                    (Some((s, e, d)), Some((s0, e0, d0))) => !(s == s0 && e == e0 && d < d0),
                    _ => true,
                }
            },
            old(self).next_event is None && old(self).layers@.len() == 0 ==> r == if old(self).byte_offset
                < old(self).source_len {
                Step::Event(HighlightEvent::Source { start: old(self).byte_offset, end: old(self).source_len })
            } else {
                Step::Done
            },
            r matches Step::Injection(q) ==> final(self).layers@.len() > 0 && q.capture
                < final(self).layers@[0].captures.captures@.len(),
    {
        let next = self.take_next_event();
        if let Some(e) = next {
            return Step::Event(e);
        }
        if self.layers.len() == 0 {
            let e = self.finish();
            return match e {
                Some(e) => Step::Event(e),
                None => Step::Done,
            };
        }
        self.sync_next_start();
        if self.end_due() {
            let e = self.close_highlight();
            return match e {
                Some(e) => Step::Event(e),
                None => Step::Continue,
            };
        }
        if self.layers[0].next_start.is_none() {
            let e = self.finish_layer();
            return match e {
                Some(e) => Step::Event(e),
                None => Step::Continue,
            };
        }
        let taken = self.take_capture();
        let mut ci = match taken {
            Some(i) => i,
            None => return Step::Failed,
        };
        let config_index = self.layers[0].captures.config;
        if config_index >= configs.len() {
            return Step::Failed;
        }
        let config = configs[config_index];
        assert(config.wf());
        let depth = self.layers[0].depth;
        let mut pattern_index = self.layers[0].captures.captures[ci].pattern_index;
        let mut capture_index = self.layers[0].captures.captures[ci].capture_index;
        let mut match_id = self.layers[0].captures.captures[ci].match_id;
        let start = self.layers[0].captures.captures[ci].start;
        let end = self.layers[0].captures.captures[ci].end;
        if start > end || end > source.len() || pattern_index >= config.info.patterns.len() {
            return Step::Failed;
        }

        if capture_kind(config, pattern_index) == CaptureKind::Injection {
            // The match's other captures are not highlighted.
            self.remove_match(match_id);
            let (language_capture, content) = injection_captures(
                config,
                &self.layers[0].captures.captures[ci].siblings,
                source,
            );
            let (language, include_children) = injection_language(
                &config.info.patterns[pattern_index].settings,
                language_capture.is_some(),
                true,
            );
            let missing = match language {
                LanguageSource::Missing => true,
                _ => false,
            };
            if let Some(c) = content {
                if !missing {
                    return Step::Injection(
                        InjectionRequest {
                            config: config_index,
                            capture: ci,
                            language,
                            language_capture: match language_capture {
                                Some(l) => l,
                                None => 0,
                            },
                            content: c,
                            include_children,
                            depth,
                        },
                    );
                }
            }
            self.sync_next_start();
            self.sort_layers();
            return Step::Continue;
        }
        self.prune_scopes(start);
        let mut node = NodeLocals { reference_highlight: None, definition: None };
        while capture_kind(config, pattern_index) != CaptureKind::Highlight
            invariant
                self.wf(),
                self.layers@.len() > 0,
                self.node_ok(node),
                self.source_len == old(self).source_len,
                self.emitted@ == old(self).emitted@,
                self.last_highlight_range == old(self).last_highlight_range,
                self.next_event is None,
                old(self).next_event is None,
                old(self).layers@.len() > 0,
                source@.len() == self.source_len,
                config.wf(),
                ci < self.layers@[0].captures.captures@.len(),
                pattern_index < config.info.patterns@.len(),
                start <= end <= source@.len(),
            decreases self.layers@[0].captures.captures@.len() - self.layers@[0].captures.pos,
        {
            let inherits = scope_inherits(&config.info.patterns[pattern_index].settings);
            let mut value_range: (usize, usize) = (0, 0);
            let n = self.layers[0].captures.captures[ci].siblings.len();
            let mut k: usize = 0;
            while k < n
                invariant
                    self.layers@.len() > 0,
                    ci < self.layers@[0].captures.captures@.len(),
                    n == self.layers@[0].captures.captures@[ci as int].siblings@.len(),
                    k <= n,
                decreases n - k,
            {
                let sib = &self.layers[0].captures.captures[ci].siblings[k];
                if capture_is(config.local_def_value_capture_index, sib.index) {
                    value_range = (sib.start, sib.end);
                }
                k = k + 1;
            }
            self.apply_local_capture(config, source, capture_index, start, end, inherits, value_range, &mut node);
            let following = self.next_capture_on_node(ci);
            match following {
                Some(j) => {
                    ci = j;
                    pattern_index = self.layers[0].captures.captures[ci].pattern_index;
                    capture_index = self.layers[0].captures.captures[ci].capture_index;
                    match_id = self.layers[0].captures.captures[ci].match_id;
                    if pattern_index >= config.info.patterns.len() {
                        return Step::Failed;
                    }
                },
                None => {
                    self.sync_next_start();
                    self.sort_layers();
                    return Step::Continue;
                },
            }
        }

        // A deeper layer has already highlighted exactly these bytes.
        if self.is_duplicate(start, end) {
            self.sync_next_start();
            self.sort_layers();
            return Step::Continue;
        }

        // Later highlight patterns on the same node take over, the last one
        // winning, except those disabled on local variables.
        let is_local = node.definition.is_some() || node.reference_highlight.is_some();
        let last = self.take_over(config, ci, is_local);
        let ci = match last {
            Some(c) => c,
            None => return Step::Failed,
        };
        let capture_index = self.layers[0].captures.captures[ci].capture_index;
        if capture_index as usize >= config.info.capture_names.len() {
            return Step::Failed;
        }
        self.open_capture_highlight(config, capture_index, start, end, &node)
    }

    /// Consumes the later captures on the node of capture `ci` of the first
    /// layer, in order. Each takes over unless the node is a local variable
    /// and its pattern is disabled on local variables; the match of a capture
    /// that is taken over is dropped. Returns the capture that holds last,
    /// or `None` where a capture's pattern is not in the configuration.
    pub fn take_over(&mut self, config: &HighlightConfiguration, ci: usize, is_local: bool) -> (r: Option<usize>)
        requires
            old(self).wf(),
            old(self).layers@.len() > 0,
            config.wf(),
            ci < old(self).layers@[0].captures.captures@.len(),
        ensures
            final(self).last_highlight_range == old(self).last_highlight_range,
            final(self).wf(),
            final(self).layers@.len() == old(self).layers@.len(),
            final(self).layers@[0].captures.same_captures(&old(self).layers@[0].captures),
            final(self).layers@[0].highlight_end_stack@ == old(self).layers@[0].highlight_end_stack@,
            final(self).layers@[0].scopes == old(self).layers@[0].scopes,
            final(self).layers@[0].depth == old(self).layers@[0].depth,
            final(self).next_event == old(self).next_event,
            final(self).source_len == old(self).source_len,
            final(self).emitted@ == old(self).emitted@,
            match r {
                Some(j) => {
                    let cs = final(self).layers@[0].captures.captures@;
                    &&& j < cs.len()
                    &&& cs[j as int].node_id == cs[ci as int].node_id
                    &&& cs[j as int].start == cs[ci as int].start
                    &&& cs[j as int].end == cs[ci as int].end
                    &&& (j == ci || (cs[j as int].pattern_index < config.non_local_variable_patterns@.len()
                        && !(is_local && config.non_local_variable_patterns@[cs[j as int].pattern_index as int])))
                },
                None => true,
            },
    {
        let mut cur = ci;
        loop
            invariant
                self.wf(),
                old(self).layers@.len() > 0,
                self.layers@.len() == old(self).layers@.len(),
                self.layers@[0].captures.same_captures(&old(self).layers@[0].captures),
                self.layers@[0].highlight_end_stack@ == old(self).layers@[0].highlight_end_stack@,
                self.layers@[0].scopes == old(self).layers@[0].scopes,
                self.layers@[0].depth == old(self).layers@[0].depth,
                self.next_event == old(self).next_event,
                self.source_len == old(self).source_len,
                self.emitted@ == old(self).emitted@,
                self.last_highlight_range == old(self).last_highlight_range,
                config.wf(),
                ci < self.layers@[0].captures.captures@.len(),
                cur < self.layers@[0].captures.captures@.len(),
                ({
                    let cs = self.layers@[0].captures.captures@;
                    &&& cs[cur as int].node_id == cs[ci as int].node_id
                    &&& cs[cur as int].start == cs[ci as int].start
                    &&& cs[cur as int].end == cs[ci as int].end
                    &&& (cur == ci || (cs[cur as int].pattern_index < config.non_local_variable_patterns@.len()
                        && !(is_local && config.non_local_variable_patterns@[cs[cur as int].pattern_index as int])))
                }),
            decreases self.layers@[0].captures.captures@.len() - self.layers@[0].captures.pos,
        {
            let following = self.next_capture_on_node(cur);
            match following {
                Some(j) => {
                    let fp = self.layers[0].captures.captures[j].pattern_index;
                    if fp >= config.info.patterns.len() {
                        return None;
                    }
                    if takes_over(config, is_local, fp) {
                        let m = self.layers[0].captures.captures[cur].match_id;
                        self.remove_match(m);
                        cur = j;
                    }
                },
                None => return Some(cur),
            }
        }
    }

    /// Opens the highlight of a node whose last taking-over capture has
    /// capture index `capture_index`: the highlight of the definition a
    /// reference on the node resolved to, else the one the capture maps to.
    /// A definition made on the node takes the capture's highlight. With no
    /// highlight, nothing is handed out.
    pub fn open_capture_highlight(
        &mut self,
        config: &HighlightConfiguration,
        capture_index: u32,
        start: usize,
        end: usize,
        node: &NodeLocals,
    ) -> (r: Step)
        requires
            old(self).wf(),
            old(self).layers@.len() > 0,
            old(self).next_event is None,
            old(self).node_ok(*node),
            config.wf(),
            capture_index < config.info.capture_names@.len(),
            start <= end <= old(self).source_len,
        ensures
            final(self).wf(),
            final(self).source_len == old(self).source_len,
            match effective_highlight(node.reference_highlight, config.highlight_indices@[capture_index as int]) {
                Some(h) => {
                    &&& final(self).last_highlight_range == Some((start, end, old(self).layers@[0].depth))
                    &&& if old(self).byte_offset < start {
                        &&& r == Step::Event(HighlightEvent::Source { start: old(self).byte_offset, end: start })
                        &&& final(self).next_event == Some(HighlightEvent::HighlightStart(h))
                    } else {
                        &&& r == Step::Event(HighlightEvent::HighlightStart(h))
                        &&& final(self).next_event is None
                    }
                    &&& r matches Step::Event(e) && final(self).emitted@ == old(self).emitted@.push(e)
                },
                None => r == Step::Continue && final(self).emitted@ == old(self).emitted@
                    && final(self).next_event is None,
            },
    {
        let current = capture_highlight(config, capture_index);
        self.bind_definition(node, current);
        self.sync_next_start();
        match choose_highlight(node.reference_highlight, current) {
            Some(h) => {
                let e = self.open_highlight(start, end, h);
                match e {
                    Some(e) => Step::Event(e),
                    None => Step::Continue,
                }
            },
            None => {
                self.sort_layers();
                Step::Continue
            },
        }
    }

    /// After the caller has added the layers of an injection: the first
    /// layer's next capture is read again and the layers are reordered.
    pub fn injection_done(&mut self)
        requires
            old(self).wf(),
        ensures
            final(self).wf(),
            final(self).source_len == old(self).source_len,
            final(self).emitted@ == old(self).emitted@,
    {
        if self.layers.len() > 0 {
            self.sync_next_start();
        }
        self.sort_layers();
    }
}

} // verus!

//! Combined injections: the matches of a layer's combined-injection query,
//! grouped by pattern so that each pattern's content nodes are parsed as one
//! document.
use vstd::prelude::*;

verus! {

/// What one match of the combined-injection query names: its pattern,
/// whether it names a language, whether it has a content node, and its
/// with_children-children setting.
#[derive(Copy, Clone, Debug, PartialEq, Eq, Structural)]
pub struct CombinedMatch {
    pub pattern_index: usize,
    pub has_language: bool,
    pub has_content: bool,
    pub include_children: bool,
}

/// One combined injection: the match whose language counts, the matches
/// whose content nodes are parsed together (in match order), and whether
/// their children are included.
#[derive(Debug)]
pub struct CombinedGroup {
    pub pattern_index: usize,
    pub language: usize,
    pub contents: Vec<usize>,
    pub include_children: bool,
}

/// The last match of pattern `p` that names a language.
pub open spec fn last_language(ms: Seq<CombinedMatch>, p: usize) -> Option<usize>
    decreases ms.len(),
{
    if ms.len() == 0 {
        None
    } else if ms.last().pattern_index == p && ms.last().has_language {
        Some((ms.len() - 1) as usize)
    } else {
        last_language(ms.drop_last(), p)
    }
}

/// The matches of pattern `p` that have a content node, in order.
pub open spec fn contents_of(ms: Seq<CombinedMatch>, p: usize) -> Seq<usize>
    decreases ms.len(),
{
    if ms.len() == 0 {
        Seq::empty()
    } else {
        let rest = contents_of(ms.drop_last(), p);
        if ms.last().pattern_index == p && ms.last().has_content {
            rest.push((ms.len() - 1) as usize)
        } else {
            rest
        }
    }
}

/// The with_children-children setting of the last match of pattern `p`.
pub open spec fn last_include(ms: Seq<CombinedMatch>, p: usize) -> bool
    decreases ms.len(),
{
    if ms.len() == 0 {
        false
    } else if ms.last().pattern_index == p {
        ms.last().include_children
    } else {
        last_include(ms.drop_last(), p)
    }
}

/// A group as plain values.
pub open spec fn group_view(g: CombinedGroup) -> (usize, usize, Seq<usize>, bool) {
    (g.pattern_index, g.language, g.contents@, g.include_children)
}

/// The groups of the patterns below `q`, in pattern order: a pattern with no
/// language or no content node gives none.
pub open spec fn combined_groups(ms: Seq<CombinedMatch>, q: nat) -> Seq<(usize, usize, Seq<usize>, bool)>
    decreases q,
{
    if q == 0 {
        Seq::empty()
    } else {
        let rest = combined_groups(ms, (q - 1) as nat);
        let p = (q - 1) as usize;
        match last_language(ms, p) {
            Some(l) => if contents_of(ms, p).len() > 0 {
                rest.push((p, l, contents_of(ms, p), last_include(ms, p)))
            } else {
                rest
            },
            None => rest,
        }
    }
}

/// Groups the matches by pattern, for the patterns below `pattern_count`.
pub fn group_combined_injections(matches: &Vec<CombinedMatch>, pattern_count: usize) -> (r: Vec<CombinedGroup>)
    ensures
        r@.map_values(|g: CombinedGroup| group_view(g)) == combined_groups(matches@, pattern_count as nat),
{
    let ghost ms = matches@;
    let mut result: Vec<CombinedGroup> = Vec::new();
    let mut p: usize = 0;
    while p < pattern_count
        invariant
            ms == matches@,
            p <= pattern_count,
            result@.map_values(|g: CombinedGroup| group_view(g)) == combined_groups(ms, p as nat),
        decreases pattern_count - p,
    {
        let mut language: Option<usize> = None;
        let mut contents: Vec<usize> = Vec::new();
        let mut with_children = false;
        let mut i: usize = 0;
        while i < matches.len()
            invariant
                ms == matches@,
                i <= ms.len(),
                language == last_language(ms.subrange(0, i as int), p),
                contents@ == contents_of(ms.subrange(0, i as int), p),
                with_children == last_include(ms.subrange(0, i as int), p),
            decreases ms.len() - i,
        {
            let m = matches[i];
            assert(ms.subrange(0, i + 1).drop_last() =~= ms.subrange(0, i as int));
            if m.pattern_index == p {
                if m.has_language {
                    language = Some(i);
                }
                if m.has_content {
                    contents.push(i);
                }
                with_children = m.include_children;
            }
            i = i + 1;
        }
        assert(ms.subrange(0, i as int) =~= ms);
        let ghost before = result@;
        match language {
            Some(l) => {
                if contents.len() > 0 {
                    let g = CombinedGroup { pattern_index: p, language: l, contents, include_children: with_children };
                    result.push(g);
                    assert(result@.map_values(|g: CombinedGroup| group_view(g)) =~= before.map_values(
                        |g: CombinedGroup| group_view(g),
                    ).push(group_view(g)));
                }
            },
            None => {},
        }
        p = p + 1;
    }
    result
}

} // verus!

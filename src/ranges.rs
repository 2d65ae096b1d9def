//! The byte ranges that an injected layer parses: the content nodes' own
//! ranges, clipped to the ranges that the parent layer sees.
use vstd::prelude::*;

verus! {

/// A position in a document as a row and a column.
#[derive(Copy, Clone, Debug, PartialEq, Eq, Structural)]
pub struct Point {
    pub row: usize,
    pub column: usize,
}

/// A range of a document, in bytes and in positions.
#[derive(Copy, Clone, Debug, PartialEq, Eq, Structural)]
pub struct Range {
    pub start_byte: usize,
    pub end_byte: usize,
    pub start_point: Point,
    pub end_point: Point,
}

/// A content node of an injection: its range and the ranges of its direct
/// children, in document order.
#[derive(Debug)]
pub struct ContentNode {
    pub range: Range,
    pub children: Vec<Range>,
}

/// The range that covers the whole document.
pub fn whole_document() -> (r: Range)
    ensures
        r.start_byte == 0,
        r.end_byte == usize::MAX,
{
    Range {
        start_byte: 0,
        end_byte: usize::MAX,
        start_point: Point { row: 0, column: 0 },
        end_point: Point { row: usize::MAX, column: usize::MAX },
    }
}

/// The ranges excluded from node `n`: its children unless they are
/// included.
pub open spec fn excluded(n: ContentNode, includes_children: bool) -> Seq<Range> {
    if includes_children {
        Seq::empty()
    } else {
        n.children@
    }
}

/// Gap `c` of node `n`: the bytes between excluded range `c - 1` (or the
/// node's start) and excluded range `c` (or the node's end).
pub open spec fn gap_start(n: ContentNode, includes_children: bool, c: int) -> int {
    if c == 0 {
        n.range.start_byte as int
    } else {
        excluded(n, includes_children)[c - 1].end_byte as int
    }
}

pub open spec fn gap_end(n: ContentNode, includes_children: bool, c: int) -> int {
    if c < excluded(n, includes_children).len() {
        excluded(n, includes_children)[c].start_byte as int
    } else {
        n.range.end_byte as int
    }
}

/// `r` is a non-empty range within one gap of one of `nodes`, and within one
/// of `parents`.
pub open spec fn admissible(r: Range, parents: Seq<Range>, nodes: Seq<ContentNode>, includes_children: bool) -> bool {
    &&& r.start_byte < r.end_byte
    &&& exists|q: int|
        0 <= q < parents.len() && parents[q].start_byte <= r.start_byte && r.end_byte
            <= #[trigger] parents[q].end_byte
    &&& exists|k: int, c: int|
        0 <= k < nodes.len() && 0 <= c <= excluded(nodes[k], includes_children).len()
            && #[trigger] gap_start(nodes[k], includes_children, c) <= r.start_byte && r.end_byte <= gap_end(
            nodes[k],
            includes_children,
            c,
        )
}

/// The ranges are in document order and do not overlap.
pub open spec fn sorted_disjoint(rs: Seq<Range>) -> bool {
    forall|i: int, j: int| 0 <= i < j < rs.len() ==> (#[trigger] rs[i]).end_byte <= (#[trigger] rs[j]).start_byte
}

/// The last range of `rs`, if any, ends at or before `x`.
pub open spec fn ends_by(rs: Seq<Range>, x: int) -> bool {
    rs.len() > 0 ==> rs.last().end_byte <= x
}

/// Byte `b` lies in one of `parents`.
pub open spec fn in_parents(parents: Seq<Range>, b: int) -> bool {
    exists|q: int| 0 <= q < parents.len() && parents[q].start_byte <= b < #[trigger] parents[q].end_byte
}

/// Byte `b` lies in one of `rs`.
pub open spec fn covered(rs: Seq<Range>, b: int) -> bool {
    exists|i: int| 0 <= i < rs.len() && rs[i].start_byte <= b < #[trigger] rs[i].end_byte
}

/// The parent ranges are in document order and do not overlap.
pub open spec fn parents_ordered(parents: Seq<Range>) -> bool {
    &&& forall|q: int| 0 <= q < parents.len() ==> (#[trigger] parents[q]).start_byte <= parents[q].end_byte
    &&& forall|i: int, j: int|
        0 <= i < j < parents.len() ==> (#[trigger] parents[i]).end_byte <= (#[trigger] parents[j]).start_byte
}

pub open spec fn valid_gap(nodes: Seq<ContentNode>, includes_children: bool, k: int, c: int) -> bool {
    0 <= k < nodes.len() && 0 <= c <= excluded(nodes[k], includes_children).len()
}

pub open spec fn gap_precedes(k: int, c: int, k2: int, c2: int) -> bool {
    k < k2 || (k == k2 && c < c2)
}

/// The gaps of the nodes are in document order and do not overlap.
pub open spec fn gaps_ordered(nodes: Seq<ContentNode>, inc: bool) -> bool {
    &&& forall|k: int, c: int|
        valid_gap(nodes, inc, k, c) ==> #[trigger] gap_start(nodes[k], inc, c) <= gap_end(nodes[k], inc, c)
    &&& forall|k: int, c: int, k2: int, c2: int|
        valid_gap(nodes, inc, k, c) && valid_gap(nodes, inc, k2, c2) && gap_precedes(k, c, k2, c2)
            ==> #[trigger] gap_end(nodes[k], inc, c) <= #[trigger] gap_start(nodes[k2], inc, c2)
}

/// Every byte of a gap before gap `(k, c)`, and every byte of gap `(k, c)`
/// below `x`, that a parent range holds is covered by `rs`.
pub open spec fn covered_before(
    rs: Seq<Range>,
    parents: Seq<Range>,
    nodes: Seq<ContentNode>,
    inc: bool,
    k: int,
    c: int,
    x: int,
) -> bool {
    forall|k2: int, c2: int, b: int|
        #![trigger gap_start(nodes[k2], inc, c2), in_parents(parents, b)]
        valid_gap(nodes, inc, k2, c2) && gap_start(nodes[k2], inc, c2) <= b < gap_end(nodes[k2], inc, c2)
            && in_parents(parents, b) && (gap_precedes(k2, c2, k, c) || (k2 == k && c2 == c && b < x))
            ==> covered(rs, b)
}

proof fn lemma_not_in_parents(parents: Seq<Range>, p: int, x: int, y: int)
    requires
        parents_ordered(parents),
        0 <= p < parents.len(),
        forall|q: int| 0 <= q < p ==> (#[trigger] parents[q]).end_byte <= x,
        y <= parents[p].start_byte,
    ensures
        forall|b: int| x <= b < y ==> !in_parents(parents, b),
{
    assert forall|b: int| x <= b < y implies !in_parents(parents, b) by {
        assert forall|q: int| 0 <= q < parents.len() implies !(parents[q].start_byte <= b
            < #[trigger] parents[q].end_byte) by {
            if q > p {
                assert(parents[p].end_byte <= parents[q].start_byte);
            }
        }
    }
}

proof fn lemma_none_after(parents: Seq<Range>, x: int)
    requires
        forall|q: int| 0 <= q < parents.len() ==> (#[trigger] parents[q]).end_byte <= x,
    ensures
        forall|b: int| x <= b ==> !in_parents(parents, b),
{
    assert forall|b: int| x <= b implies !in_parents(parents, b) by {
        assert forall|q: int| 0 <= q < parents.len() implies !(parents[q].start_byte <= b
            < #[trigger] parents[q].end_byte) by {}
    }
}

proof fn lemma_extend(
    rs: Seq<Range>,
    parents: Seq<Range>,
    nodes: Seq<ContentNode>,
    inc: bool,
    k: int,
    c: int,
    x: int,
    y: int,
)
    requires
        covered_before(rs, parents, nodes, inc, k, c, x),
        forall|b: int| x <= b < y ==> !in_parents(parents, b) || covered(rs, b),
    ensures
        covered_before(rs, parents, nodes, inc, k, c, y),
{
}

proof fn lemma_push(
    rs: Seq<Range>,
    r: Range,
    parents: Seq<Range>,
    nodes: Seq<ContentNode>,
    inc: bool,
    k: int,
    c: int,
    x: int,
)
    requires
        covered_before(rs, parents, nodes, inc, k, c, x),
        r.start_byte <= x,
    ensures
        covered_before(rs.push(r), parents, nodes, inc, k, c, if x < r.end_byte {
            r.end_byte as int
        } else {
            x
        }),
{
    let rs2 = rs.push(r);
    assert forall|b: int| covered(rs, b) implies covered(rs2, b) by {
        let i = choose|i: int| 0 <= i < rs.len() && rs[i].start_byte <= b < #[trigger] rs[i].end_byte;
        assert(rs2[i] == rs[i]);
    }
    assert forall|b: int| r.start_byte <= b < r.end_byte implies covered(rs2, b) by {
        assert(rs2[rs.len() as int] == r);
    }
}

proof fn lemma_next_gap(
    rs: Seq<Range>,
    parents: Seq<Range>,
    nodes: Seq<ContentNode>,
    inc: bool,
    k: int,
    c: int,
    k3: int,
    c3: int,
    y: int,
)
    requires
        valid_gap(nodes, inc, k, c),
        covered_before(rs, parents, nodes, inc, k, c, gap_end(nodes[k], inc, c)),
        (k3 == k && c3 == c + 1) || (k3 == k + 1 && c3 == 0 && c == excluded(nodes[k], inc).len()),
        valid_gap(nodes, inc, k3, c3) ==> y <= gap_start(nodes[k3], inc, c3),
    ensures
        covered_before(rs, parents, nodes, inc, k3, c3, y),
{
    assert forall|k2: int, c2: int, b: int|
        #![trigger gap_start(nodes[k2], inc, c2), in_parents(parents, b)]
        valid_gap(nodes, inc, k2, c2) && gap_start(nodes[k2], inc, c2) <= b < gap_end(nodes[k2], inc, c2)
            && in_parents(parents, b) && (gap_precedes(k2, c2, k3, c3) || (k2 == k3 && c2 == c3 && b < y))
            implies covered(rs, b) by {
        if k2 == k3 && c2 == c3 {
        } else if k2 == k && c2 == c {
        } else {
            assert(gap_precedes(k2, c2, k, c));
        }
    }
}

proof fn lemma_raise(
    rs: Seq<Range>,
    parents: Seq<Range>,
    nodes: Seq<ContentNode>,
    inc: bool,
    k: int,
    c: int,
    x: int,
    y: int,
)
    requires
        covered_before(rs, parents, nodes, inc, k, c, x),
        valid_gap(nodes, inc, k, c) ==> y <= gap_start(nodes[k], inc, c),
    ensures
        covered_before(rs, parents, nodes, inc, k, c, y),
{
}

proof fn lemma_all_done(
    rs: Seq<Range>,
    parents: Seq<Range>,
    nodes: Seq<ContentNode>,
    inc: bool,
    k: int,
    c: int,
    x: int,
)
    requires
        gaps_ordered(nodes, inc),
        valid_gap(nodes, inc, k, c),
        x <= gap_end(nodes[k], inc, c),
        covered_before(rs, parents, nodes, inc, k, c, x),
        forall|b: int| x <= b ==> !in_parents(parents, b),
    ensures
        covered_before(rs, parents, nodes, inc, nodes.len() as int, 0, 0),
{
    assert forall|k2: int, c2: int, b: int|
        #![trigger gap_start(nodes[k2], inc, c2), in_parents(parents, b)]
        valid_gap(nodes, inc, k2, c2) && gap_start(nodes[k2], inc, c2) <= b < gap_end(nodes[k2], inc, c2)
            && in_parents(parents, b) && gap_precedes(k2, c2, nodes.len() as int, 0) implies covered(
        rs,
        b,
    ) by {
        if gap_precedes(k, c, k2, c2) {
            assert(gap_end(nodes[k], inc, c) <= gap_start(nodes[k2], inc, c2));
        }
    }
}

/// Computes the ranges to parse for an injection whose content is `nodes`,
/// within a parent layer that sees `parent_ranges`. Each range of the result
/// is non-empty, lies within one parent range, and lies within the node's
/// own bytes: between two of its children, or anywhere in the node where
/// `includes_children` is set. Where the parent ranges and the nodes' gaps
/// are each in document order, every byte of a gap that a parent range
/// holds is covered.
pub fn intersect_ranges(parent_ranges: &Vec<Range>, nodes: &Vec<ContentNode>, includes_children: bool) -> (r: Vec<
    Range,
>)
    requires
        parent_ranges@.len() > 0,
        nodes@.len() > 0,
    ensures
        forall|i: int| 0 <= i < r@.len() ==> admissible(#[trigger] r@[i], parent_ranges@, nodes@, includes_children),
        parents_ordered(parent_ranges@) && gaps_ordered(nodes@, includes_children) ==> sorted_disjoint(r@),
        parents_ordered(parent_ranges@) && gaps_ordered(nodes@, includes_children) ==> covered_before(
            r@,
            parent_ranges@,
            nodes@,
            includes_children,
            nodes@.len() as int,
            0,
            0,
        ),
{
    let ghost pr = parent_ranges@;
    let ghost ns = nodes@;
    let ghost inc = includes_children;
    let ghost ordered = parents_ordered(pr) && gaps_ordered(ns, inc);
    let mut result: Vec<Range> = Vec::new();
    let mut p: usize = 0;
    let mut k: usize = 0;
    while k < nodes.len()
        invariant
            pr == parent_ranges@,
            ns == nodes@,
            inc == includes_children,
            ordered == (parents_ordered(pr) && gaps_ordered(ns, inc)),
            p < parent_ranges@.len(),
            k <= nodes@.len(),
            forall|i: int|
                0 <= i < result@.len() ==> admissible(#[trigger] result@[i], parent_ranges@, nodes@, includes_children),
            ordered ==> covered_before(result@, pr, ns, inc, k as int, 0, 0),
            ordered ==> sorted_disjoint(result@),
            ordered && k < ns.len() ==> ends_by(result@, gap_start(ns[k as int], inc, 0)),
            ordered && k < ns.len() ==> forall|q: int| 0 <= q < p ==> (#[trigger] pr[q]).end_byte <= gap_start(ns[k as int], inc, 0),
        decreases nodes@.len() - k,
    {
        let node = &nodes[k];
        let n_excluded: usize = if includes_children {
            0
        } else {
            node.children.len()
        };
        let mut preceding_end_byte = node.range.start_byte;
        let mut preceding_end_point = node.range.start_point;
        let mut c: usize = 0;
        proof {
            if ordered {
                lemma_raise(result@, pr, ns, inc, k as int, 0, 0, gap_start(ns[k as int], inc, 0));
            }
        }
        loop
            invariant_except_break
                ordered ==> forall|q: int| 0 <= q < p ==> (#[trigger] pr[q]).end_byte <= gap_start(ns[k as int], inc, c as int),
                ordered ==> ends_by(result@, gap_start(ns[k as int], inc, c as int)),
            invariant
                pr == parent_ranges@,
                ns == nodes@,
                inc == includes_children,
                ordered == (parents_ordered(pr) && gaps_ordered(ns, inc)),
                p < parent_ranges@.len(),
                k < nodes@.len(),
                *node == nodes@[k as int],
                n_excluded == excluded(*node, includes_children).len(),
                c <= n_excluded,
                preceding_end_byte == gap_start(*node, includes_children, c as int),
                forall|i: int|
                    0 <= i < result@.len() ==> admissible(#[trigger] result@[i], parent_ranges@, nodes@, includes_children),
                ordered ==> covered_before(result@, pr, ns, inc, k as int, c as int, gap_start(ns[k as int], inc, c as int)),
                ordered ==> sorted_disjoint(result@),
            ensures
                ordered ==> sorted_disjoint(result@),
                ordered && k + 1 < ns.len() ==> ends_by(result@, gap_start(ns[k + 1], inc, 0)),
                p < parent_ranges@.len(),
                forall|i: int|
                    0 <= i < result@.len() ==> admissible(#[trigger] result@[i], parent_ranges@, nodes@, includes_children),
                ordered ==> covered_before(result@, pr, ns, inc, k + 1, 0, 0),
                ordered && k + 1 < ns.len() ==> forall|q: int| 0 <= q < p ==> (#[trigger] pr[q]).end_byte <= gap_start(ns[k + 1], inc, 0),
            decreases n_excluded - c,
        {
            let (next_start_byte, next_start_point, next_end_byte, next_end_point) = if c < n_excluded {
                let e = node.children[c];
                (e.start_byte, e.start_point, e.end_byte, e.end_point)
            } else {
                (node.range.end_byte, node.range.end_point, usize::MAX, Point { row: usize::MAX, column: usize::MAX })
            };
            let ghost gs = gap_start(*node, includes_children, c as int);
            let ghost ge = gap_end(*node, includes_children, c as int);
            assert(next_start_byte == ge);
            proof {
                if ordered {
                    assert(valid_gap(ns, inc, k as int, c as int));
                    assert(gs <= ge);
                }
            }
            let mut range = Range {
                start_byte: preceding_end_byte,
                start_point: preceding_end_point,
                end_byte: next_start_byte,
                end_point: next_start_point,
            };
            if range.end_byte >= parent_ranges[p].start_byte {
            while parent_ranges[p].start_byte <= range.end_byte
                invariant_except_break
                    ordered ==> ends_by(result@, range.start_byte as int),
                invariant
                    pr == parent_ranges@,
                    ns == nodes@,
                    inc == includes_children,
                    ordered == (parents_ordered(pr) && gaps_ordered(ns, inc)),
                    p < parent_ranges@.len(),
                    k < nodes@.len(),
                    *node == nodes@[k as int],
                    n_excluded == excluded(*node, includes_children).len(),
                    c <= n_excluded,
                    c < n_excluded ==> next_end_byte == gap_start(*node, includes_children, c + 1),
                    gs == gap_start(*node, includes_children, c as int),
                    ge == gap_end(*node, includes_children, c as int),
                    gs <= range.start_byte,
                    range.end_byte == ge,
                    forall|i: int|
                        0 <= i < result@.len() ==> admissible(#[trigger] result@[i], parent_ranges@, nodes@, includes_children),
                    ordered ==> range.start_byte <= range.end_byte,
                    ordered ==> covered_before(result@, pr, ns, inc, k as int, c as int, range.start_byte as int),
                    ordered ==> forall|q: int| 0 <= q < p ==> (#[trigger] pr[q]).end_byte <= range.start_byte,
                    ordered ==> sorted_disjoint(result@),
                ensures
                    ordered ==> sorted_disjoint(result@),
                    ordered ==> ends_by(result@, ge),
                    p < parent_ranges@.len(),
                    forall|i: int|
                        0 <= i < result@.len() ==> admissible(#[trigger] result@[i], parent_ranges@, nodes@, includes_children),
                    ordered ==> covered_before(result@, pr, ns, inc, k as int, c as int, ge),
                    ordered ==> forall|q: int| 0 <= q < p ==> (#[trigger] pr[q]).end_byte <= ge,
                decreases parent_ranges@.len() - p, 1int,
            {
                let parent = parent_ranges[p];
                let ghost old_start = range.start_byte;
                if parent.end_byte > range.start_byte {
                    if range.start_byte < parent.start_byte {
                        proof {
                            if ordered {
                                lemma_not_in_parents(pr, p as int, old_start as int, parent.start_byte as int);
                                lemma_extend(result@, pr, ns, inc, k as int, c as int, old_start as int, parent.start_byte as int);
                            }
                        }
                        range.start_byte = parent.start_byte;
                        range.start_point = parent.start_point;
                    }
                    if parent.end_byte < range.end_byte {
                        if range.start_byte < parent.end_byte {
                            let piece = Range {
                                start_byte: range.start_byte,
                                start_point: range.start_point,
                                end_byte: parent.end_byte,
                                end_point: parent.end_point,
                            };
                            assert(admissible(piece, parent_ranges@, nodes@, includes_children)) by {
                                assert(parent_ranges@[p as int] == parent);
                                assert(0 <= c <= excluded(nodes@[k as int], includes_children).len());
                            }
                            proof {
                                if ordered {
                                    lemma_push(result@, piece, pr, ns, inc, k as int, c as int, range.start_byte as int);
                                }
                            }
                            result.push(piece);
                        }
                        range.start_byte = parent.end_byte;
                        range.start_point = parent.end_point;
                        proof {
                            if ordered {
                                assert forall|q: int| 0 <= q < p + 1 implies (#[trigger] pr[q]).end_byte
                                    <= range.start_byte by {
                                    if q < p {
                                        assert(pr[q].end_byte <= old_start);
                                    }
                                }
                            }
                        }
                    } else {
                        if range.start_byte < range.end_byte {
                            assert(admissible(range, parent_ranges@, nodes@, includes_children)) by {
                                assert(parent_ranges@[p as int] == parent);
                                assert(0 <= c <= excluded(nodes@[k as int], includes_children).len());
                            }
                            proof {
                                if ordered {
                                    lemma_push(result@, range, pr, ns, inc, k as int, c as int, range.start_byte as int);
                                }
                            }
                            result.push(range);
                        }
                        break;
                    }
                }
                if p < parent_ranges.len() - 1 {
                    p = p + 1;
                } else {
                    proof {
                        if ordered {
                            lemma_none_after(pr, range.start_byte as int);
                            lemma_all_done(result@, pr, ns, inc, k as int, c as int, range.start_byte as int);
                        }
                    }
                    return result;
                }
            }
            proof {
                if ordered && parent_ranges@[p as int].start_byte > range.end_byte {
                    lemma_not_in_parents(pr, p as int, range.start_byte as int, ge);
                    lemma_extend(result@, pr, ns, inc, k as int, c as int, range.start_byte as int, ge);
                }
            }
            } else {
                proof {
                    if ordered {
                        lemma_not_in_parents(pr, p as int, gs, ge);
                        lemma_extend(result@, pr, ns, inc, k as int, c as int, gs, ge);
                    }
                }
            }
            if c == n_excluded {
                proof {
                    if ordered {
                        lemma_next_gap(result@, pr, ns, inc, k as int, c as int, k + 1, 0, 0);
                        if k + 1 < ns.len() {
                            assert(valid_gap(ns, inc, k + 1, 0));
                            assert(ge <= gap_start(ns[k + 1], inc, 0));
                        }
                    }
                }
                break;
            }
            proof {
                if ordered {
                    lemma_next_gap(result@, pr, ns, inc, k as int, c as int, k as int, c + 1, gap_start(ns[k as int], inc, c + 1));
                    assert(valid_gap(ns, inc, k as int, c + 1));
                    assert(ge <= gap_start(ns[k as int], inc, c + 1));
                }
            }
            preceding_end_byte = next_end_byte;
            preceding_end_point = next_end_point;
            c = c + 1;
        }
        k = k + 1;
    }
    result
}

} // verus!

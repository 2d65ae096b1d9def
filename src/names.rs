//! Highlight names: matching dot-separated capture names against the names a
//! caller recognizes, and spotting capture names outside the standard set.
use vstd::prelude::*;

use crate::Highlight;

verus! {

/// Relies on `str::chars`: it yields the characters of `s` in order.
#[verifier::external_body]
pub(crate) fn chars_of(s: &str) -> (r: Vec<char>)
    ensures
        r@ == s@,
{
    s.chars().collect()
}

/// The dot-separated parts of `s`; a name without a dot is one part.
pub open spec fn split_dot(s: Seq<char>) -> Seq<Seq<char>>
    decreases s.len(),
{
    if s.len() == 0 {
        seq![Seq::empty()]
    } else {
        let prev = split_dot(s.drop_last());
        if s.last() == '.' {
            prev.push(Seq::empty())
        } else {
            prev.update(prev.len() - 1, prev.last().push(s.last()))
        }
    }
}

pub proof fn lemma_split_dot_nonempty(s: Seq<char>)
    ensures
        split_dot(s).len() >= 1,
    decreases s.len(),
{
    if s.len() > 0 {
        lemma_split_dot_nonempty(s.drop_last());
    }
}

/// Every part of the recognized name is a part of the capture name.
pub open spec fn name_matches(recognized: Seq<char>, capture: Seq<char>) -> bool {
    forall|k: int|
        0 <= k < split_dot(recognized).len() ==> split_dot(capture).contains(
            #[trigger] split_dot(recognized)[k],
        )
}

/// How specific a recognized name is: its number of parts.
pub open spec fn specificity(recognized: Seq<char>) -> nat {
    split_dot(recognized).len()
}

/// Recognized name `i` matches `capture`, no matching name is more specific,
/// and every earlier matching name is less specific.
pub open spec fn is_best_match(recognized: Seq<Seq<char>>, capture: Seq<char>, i: int) -> bool {
    &&& 0 <= i < recognized.len()
    &&& name_matches(recognized[i], capture)
    &&& forall|j: int|
        0 <= j < recognized.len() && #[trigger] name_matches(recognized[j], capture) ==> {
            &&& specificity(recognized[j]) <= specificity(recognized[i])
            &&& (j < i ==> specificity(recognized[j]) < specificity(recognized[i]))
        }
}

/// The highlight that a capture name resolves to among the recognized names.
pub open spec fn best_match(recognized: Seq<Seq<char>>, capture: Seq<char>) -> Option<Highlight> {
    if exists|i: int| is_best_match(recognized, capture, i) {
        Some(Highlight((choose|i: int| is_best_match(recognized, capture, i)) as usize))
    } else {
        None
    }
}

/// The characters of each name.
pub open spec fn views_of(names: Seq<&str>) -> Seq<Seq<char>> {
    names.map_values(|n: &str| n@)
}

pub open spec fn parts_view(parts: Seq<Vec<char>>) -> Seq<Seq<char>> {
    parts.map_values(|p: Vec<char>| p@)
}

fn split_parts(s: &Vec<char>) -> (r: Vec<Vec<char>>)
    ensures
        parts_view(r@) == split_dot(s@),
{
    let mut parts: Vec<Vec<char>> = Vec::new();
    let mut current: Vec<char> = Vec::new();
    let mut i: usize = 0;
    while i < s.len()
        invariant
            i <= s@.len(),
            parts_view(parts@).push(current@) == split_dot(s@.subrange(0, i as int)),
        decreases s@.len() - i,
    {
        let c = s[i];
        assert(s@.subrange(0, i + 1).drop_last() =~= s@.subrange(0, i as int));
        if c == '.' {
            let ghost pv = parts_view(parts@);
            let done = current;
            parts.push(done);
            current = Vec::new();
            assert(parts_view(parts@) =~= pv.push(done@));
        } else {
            current.push(c);
        }
        i = i + 1;
        assert(parts_view(parts@).push(current@) =~= split_dot(s@.subrange(0, i as int)));
    }
    parts.push(current);
    assert(s@.subrange(0, i as int) =~= s@);
    assert(parts_view(parts@) =~= split_dot(s@));
    parts
}

fn chars_equal(a: &Vec<char>, b: &Vec<char>) -> (r: bool)
    ensures
        r == (a@ == b@),
{
    if a.len() != b.len() {
        return false;
    }
    let mut i: usize = 0;
    while i < a.len()
        invariant
            a@.len() == b@.len(),
            i <= a@.len(),
            forall|k: int| 0 <= k < i ==> a@[k] == b@[k],
        decreases a@.len() - i,
    {
        if a[i] != b[i] {
            return false;
        }
        i = i + 1;
    }
    assert(a@ =~= b@);
    true
}

fn contains_part(parts: &Vec<Vec<char>>, part: &Vec<char>) -> (r: bool)
    ensures
        r == parts_view(parts@).contains(part@),
{
    let mut i: usize = 0;
    while i < parts.len()
        invariant
            i <= parts@.len(),
            forall|k: int| 0 <= k < i ==> parts@[k]@ != part@,
        decreases parts@.len() - i,
    {
        if chars_equal(&parts[i], part) {
            assert(parts_view(parts@)[i as int] == part@);
            return true;
        }
        i = i + 1;
    }
    assert forall|k: int| 0 <= k < parts_view(parts@).len() implies parts_view(parts@)[k] != part@ by {
        assert(parts@[k]@ != part@);
    }
    false
}

/// Whether every part of `recognized` is among `capture_parts`, the parts
/// of `capture`, and the number of parts of `recognized`.
fn match_parts(recognized: &str, capture_parts: &Vec<Vec<char>>, capture: Ghost<Seq<char>>) -> (r: (
    bool,
    usize,
))
    requires
        parts_view(capture_parts@) == split_dot(capture@),
    ensures
        r.0 == name_matches(recognized@, capture@),
        r.1 == specificity(recognized@),
{
    let chars = chars_of(recognized);
    let parts = split_parts(&chars);
    let mut i: usize = 0;
    while i < parts.len()
        invariant
            i <= parts@.len(),
            parts_view(capture_parts@) == split_dot(capture@),
            parts_view(parts@) == split_dot(recognized@),
            forall|k: int|
                0 <= k < i ==> split_dot(capture@).contains(#[trigger] split_dot(recognized@)[k]),
        decreases parts@.len() - i,
    {
        if !contains_part(capture_parts, &parts[i]) {
            assert(parts_view(parts@)[i as int] == parts@[i as int]@);
            assert(!split_dot(capture@).contains(split_dot(recognized@)[i as int]));
            return (false, parts.len());
        }
        assert(parts_view(parts@)[i as int] == parts@[i as int]@);
        i = i + 1;
    }
    (true, parts.len())
}

proof fn lemma_best_match_unique(recognized: Seq<Seq<char>>, capture: Seq<char>, i: int, k: int)
    requires
        is_best_match(recognized, capture, i),
        is_best_match(recognized, capture, k),
    ensures
        i == k,
{
    assert(name_matches(recognized[i], capture));
    assert(name_matches(recognized[k], capture));
}

/// Resolves a capture name against the recognized names: the most specific
/// recognized name whose parts all occur among the capture name's parts,
/// the earliest on ties, or `None` where no recognized name matches.
pub fn highlight_for_capture_name(capture_name: &str, recognized_names: &[&str]) -> (r: Option<
    Highlight,
>)
    ensures
        r == best_match(views_of(recognized_names@), capture_name@),
{
    let ghost names = views_of(recognized_names@);
    let capture_chars = chars_of(capture_name);
    let capture_parts = split_parts(&capture_chars);
    let mut best_index: Option<usize> = None;
    let mut best_len: usize = 0;
    let mut i: usize = 0;
    while i < recognized_names.len()
        invariant
            i <= recognized_names@.len(),
            names == views_of(recognized_names@),
            parts_view(capture_parts@) == split_dot(capture_name@),
            match best_index {
                None => best_len == 0 && forall|j: int|
                    0 <= j < i ==> !#[trigger] name_matches(names[j], capture_name@),
                Some(b) => {
                    &&& b < i
                    &&& name_matches(names[b as int], capture_name@)
                    &&& best_len == specificity(names[b as int])
                    &&& forall|j: int|
                        0 <= j < i && #[trigger] name_matches(names[j], capture_name@) ==> {
                            &&& specificity(names[j]) <= best_len
                            &&& (j < b ==> specificity(names[j]) < best_len)
                        }
                },
            },
        decreases recognized_names@.len() - i,
    {
        let (matches, len) = match_parts(recognized_names[i], &capture_parts, Ghost(capture_name@));
        assert(names[i as int] == recognized_names@[i as int]@);
        proof {
            lemma_split_dot_nonempty(names[i as int]);
        }
        if matches && len > best_len {
            best_index = Some(i);
            best_len = len;
        }
        i = i + 1;
    }
    match best_index {
        Some(b) => {
            assert(is_best_match(names, capture_name@, b as int));
            proof {
                let c = choose|k: int| is_best_match(names, capture_name@, k);
                lemma_best_match_unique(names, capture_name@, b as int, c);
            }
            Some(Highlight(b))
        },
        None => {
            assert(!exists|k: int| is_best_match(names, capture_name@, k));
            None
        },
    }
}

} // verus!

//! Local-variable tracking: a stack of scopes, each with the definitions made
//! in it, and the resolution of a reference to the most recent visible
//! definition of its name.
use vstd::prelude::*;

use crate::Highlight;

verus! {

/// Relies on `std::str::from_utf8`: it succeeds exactly on valid UTF-8.
#[verifier::external_body]
pub(crate) fn is_utf8(b: &[u8], start: usize, end: usize) -> (r: bool)
    requires
        start <= end <= b@.len(),
    ensures
        r == vstd::utf8::valid_utf8(b@.subrange(start as int, end as int)),
{
    std::str::from_utf8(&b[start..end]).is_ok()
}

/// A local definition: its name, the byte range of its initializer, and the
/// highlight its own pattern assigned to it, once known.
pub struct LocalDef {
    pub name: Vec<u8>,
    pub value_start: usize,
    pub value_end: usize,
    pub highlight: Option<Highlight>,
}

/// A scope: its byte range, whether names of enclosing scopes are visible in
/// it, and its definitions in the order they were made.
pub struct LocalScope {
    pub inherits: bool,
    pub start: usize,
    pub end: usize,
    pub local_defs: Vec<LocalDef>,
}

/// Definition `d` is visible from a reference to `name` at byte `pos`: same
/// name, and `pos` is not before the end of the definition's initializer.
pub open spec fn def_visible(d: LocalDef, name: Seq<u8>, pos: int) -> bool {
    d.name@ == name && pos >= d.value_end
}

/// The index of the most recent definition in `defs` visible from `pos`.
pub open spec fn find_def(defs: Seq<LocalDef>, name: Seq<u8>, pos: int) -> Option<int>
    decreases defs.len(),
{
    if defs.len() == 0 {
        None
    } else if def_visible(defs.last(), name, pos) {
        Some(defs.len() - 1)
    } else {
        find_def(defs.drop_last(), name, pos)
    }
}

/// Where a reference to `name` at `pos` resolves, as (scope, definition):
/// scopes are searched from the innermost out, each from its latest
/// definition back, and the search stops after the first scope that does not
/// inherit.
pub open spec fn resolve_location(scopes: Seq<LocalScope>, name: Seq<u8>, pos: int) -> Option<(int, int)>
    decreases scopes.len(),
{
    if scopes.len() == 0 {
        None
    } else {
        match find_def(scopes.last().local_defs@, name, pos) {
            Some(d) => Some((scopes.len() - 1, d)),
            None => if !scopes.last().inherits {
                None
            } else {
                resolve_location(scopes.drop_last(), name, pos)
            },
        }
    }
}

/// What a reference resolves to: the highlight slot of its definition.
pub open spec fn resolve_spec(scopes: Seq<LocalScope>, name: Seq<u8>, pos: int) -> Option<Option<Highlight>> {
    match resolve_location(scopes, name, pos) {
        Some((s, d)) => Some(scopes[s].local_defs@[d].highlight),
        None => None,
    }
}

pub proof fn lemma_find_def_bounds(defs: Seq<LocalDef>, name: Seq<u8>, pos: int)
    ensures
        match find_def(defs, name, pos) {
            Some(d) => 0 <= d < defs.len() && def_visible(defs[d], name, pos),
            None => true,
        },
    decreases defs.len(),
{
    if defs.len() > 0 {
        lemma_find_def_bounds(defs.drop_last(), name, pos);
    }
}

pub proof fn lemma_resolve_bounds(scopes: Seq<LocalScope>, name: Seq<u8>, pos: int)
    ensures
        match resolve_location(scopes, name, pos) {
            Some((s, d)) => 0 <= s < scopes.len() && 0 <= d < scopes[s].local_defs@.len()
                && def_visible(scopes[s].local_defs@[d], name, pos),
            None => true,
        },
    decreases scopes.len(),
{
    if scopes.len() > 0 {
        lemma_find_def_bounds(scopes.last().local_defs@, name, pos);
        lemma_resolve_bounds(scopes.drop_last(), name, pos);
    }
}

/// A name used inside its own initializer does not resolve to that
/// definition: a reference at a byte before the end of a definition's value
/// range never resolves to it.
pub proof fn lemma_no_self_reference(scopes: Seq<LocalScope>, name: Seq<u8>, pos: int, s: int, d: int)
    requires
        0 <= s < scopes.len(),
        0 <= d < scopes[s].local_defs@.len(),
        pos < scopes[s].local_defs@[d].value_end,
    ensures
        resolve_location(scopes, name, pos) != Some((s, d)),
{
    lemma_resolve_bounds(scopes, name, pos);
}

/// The highlight emitted for a node: that of the definition its reference
/// resolved to where there is one, else that of its own pattern.
pub open spec fn effective_highlight(reference: Option<Highlight>, pattern: Option<Highlight>) -> Option<Highlight> {
    match reference {
        Some(h) => Some(h),
        None => pattern,
    }
}

pub fn choose_highlight(reference: Option<Highlight>, pattern: Option<Highlight>) -> (r: Option<Highlight>)
    ensures
        r == effective_highlight(reference, pattern),
{
    match reference {
        Some(h) => Some(h),
        None => pattern,
    }
}

/// A reference whose visible definition has a highlight is shown with that
/// highlight, whatever its own pattern assigns.
pub proof fn lemma_local_override(
    scopes: Seq<LocalScope>,
    name: Seq<u8>,
    pos: int,
    pattern: Option<Highlight>,
    h: Highlight,
)
    requires
        resolve_spec(scopes, name, pos) == Some(Some(h)),
    ensures
        effective_highlight(resolve_spec(scopes, name, pos).unwrap(), pattern) == Some(h),
{
}

/// The scopes of one layer, from the outermost to the innermost. The
/// outermost is the whole document and never inherits.
pub struct ScopeStack {
    pub scopes: Vec<LocalScope>,
}

impl ScopeStack {
    pub open spec fn wf(&self) -> bool {
        &&& self.scopes@.len() >= 1
        &&& self.scopes@[0].start == 0
        &&& self.scopes@[0].end == usize::MAX
        &&& !self.scopes@[0].inherits
    }

    /// A stack that holds only the document scope.
    pub fn new() -> (r: Self)
        ensures
            r.wf(),
            r.scopes@.len() == 1,
            r.scopes@[0].local_defs@.len() == 0,
    {
        let mut scopes: Vec<LocalScope> = Vec::new();
        scopes.push(LocalScope { inherits: false, start: 0, end: usize::MAX, local_defs: Vec::new() });
        ScopeStack { scopes }
    }

    /// Removes the scopes that end before byte `pos`, innermost first.
    pub fn prune(&mut self, pos: usize)
        requires
            old(self).wf(),
        ensures
            final(self).wf(),
            final(self).scopes@.len() <= old(self).scopes@.len(),
            final(self).scopes@ == old(self).scopes@.subrange(0, final(self).scopes@.len() as int),
            final(self).scopes@.last().end >= pos,
            forall|j: int|
                final(self).scopes@.len() <= j < old(self).scopes@.len() ==> old(self).scopes@[j].end < pos,
    {
        while pos > self.scopes[self.scopes.len() - 1].end
            invariant
                self.wf(),
                self.scopes@.len() <= old(self).scopes@.len(),
                self.scopes@ == old(self).scopes@.subrange(0, self.scopes@.len() as int),
                forall|j: int| self.scopes@.len() <= j < old(self).scopes@.len() ==> old(self).scopes@[j].end < pos,
            decreases self.scopes@.len(),
        {
            self.scopes.pop();
        }
    }

    /// Opens a scope over `start..end` on top of the stack.
    pub fn push_scope(&mut self, start: usize, end: usize, inherits: bool)
        requires
            old(self).wf(),
        ensures
            final(self).wf(),
            final(self).scopes@.len() == old(self).scopes@.len() + 1,
            final(self).scopes@.drop_last() == old(self).scopes@,
            final(self).scopes@.last().start == start,
            final(self).scopes@.last().end == end,
            final(self).scopes@.last().inherits == inherits,
            final(self).scopes@.last().local_defs@.len() == 0,
    {
        self.scopes.push(LocalScope { inherits, start, end, local_defs: Vec::new() });
        assert(self.scopes@.drop_last() =~= old(self).scopes@);
    }

    /// Records a definition of the bytes `source[start..end]` in the innermost
    /// scope, where they are valid UTF-8, and returns where it was put.
    pub fn add_definition(
        &mut self,
        source: &[u8],
        start: usize,
        end: usize,
        value_start: usize,
        value_end: usize,
    ) -> (r: Option<(usize, usize)>)
        requires
            old(self).wf(),
            start <= end <= source@.len(),
        ensures
            final(self).wf(),
            !vstd::utf8::valid_utf8(source@.subrange(start as int, end as int)) ==> r is None
                && final(self).scopes@ == old(self).scopes@,
            vstd::utf8::valid_utf8(source@.subrange(start as int, end as int)) ==> {
                let top = old(self).scopes@.len() - 1;
                let old_top = old(self).scopes@[top];
                &&& r is Some
                &&& r.unwrap().0 == top
                &&& r.unwrap().1 == old_top.local_defs@.len()
                &&& final(self).scopes@.len() == old(self).scopes@.len()
                &&& final(self).scopes@.drop_last() == old(self).scopes@.drop_last()
                &&& final(self).scopes@.last().inherits == old_top.inherits
                &&& final(self).scopes@.last().start == old_top.start
                &&& final(self).scopes@.last().end == old_top.end
                &&& final(self).scopes@.last().local_defs@.len() == old_top.local_defs@.len() + 1
                &&& final(self).scopes@.last().local_defs@.drop_last() == old_top.local_defs@
                &&& final(self).scopes@.last().local_defs@.last().name@ == source@.subrange(
                    start as int,
                    end as int,
                )
                &&& final(self).scopes@.last().local_defs@.last().value_start == value_start
                &&& final(self).scopes@.last().local_defs@.last().value_end == value_end
                &&& final(self).scopes@.last().local_defs@.last().highlight is None
            },
    {
        if !is_utf8(source, start, end) {
            return None;
        }
        let mut name: Vec<u8> = Vec::new();
        let mut i: usize = start;
        while i < end
            invariant
                start <= i <= end <= source@.len(),
                name@ == source@.subrange(start as int, i as int),
            decreases end - i,
        {
            name.push(source[i]);
            i = i + 1;
            assert(name@ =~= source@.subrange(start as int, i as int));
        }
        let mut scope = self.scopes.pop().unwrap();
        let index = scope.local_defs.len();
        scope.local_defs.push(LocalDef { name, value_start, value_end, highlight: None });
        self.scopes.push(scope);
        assert(self.scopes@.drop_last() =~= old(self).scopes@.drop_last());
        assert(scope.local_defs@.drop_last() =~= old(self).scopes@.last().local_defs@);
        Some((self.scopes.len() - 1, index))
    }

    /// Gives definition `d` of scope `s` its highlight; nothing else changes.
    pub fn set_definition_highlight(&mut self, s: usize, d: usize, highlight: Option<Highlight>)
        requires
            old(self).wf(),
            s < old(self).scopes@.len(),
            d < old(self).scopes@[s as int].local_defs@.len(),
        ensures
            final(self).wf(),
            final(self).scopes@.len() == old(self).scopes@.len(),
            forall|j: int| 0 <= j < old(self).scopes@.len() && j != s ==> final(self).scopes@[j] == old(self).scopes@[j],
            final(self).scopes@[s as int].inherits == old(self).scopes@[s as int].inherits,
            final(self).scopes@[s as int].start == old(self).scopes@[s as int].start,
            final(self).scopes@[s as int].end == old(self).scopes@[s as int].end,
            final(self).scopes@[s as int].local_defs@ == old(self).scopes@[s as int].local_defs@.update(
                d as int,
                LocalDef { highlight, ..old(self).scopes@[s as int].local_defs@[d as int] },
            ),
    {
        let mut above = self.scopes.split_off(s);
        let mut scope = above.remove(0);
        let mut later = scope.local_defs.split_off(d);
        let mut def = later.remove(0);
        def.highlight = highlight;
        scope.local_defs.push(def);
        scope.local_defs.append(&mut later);
        self.scopes.push(scope);
        self.scopes.append(&mut above);
        assert(scope.local_defs@ =~= old(self).scopes@[s as int].local_defs@.update(
            d as int,
            LocalDef { highlight, ..old(self).scopes@[s as int].local_defs@[d as int] },
        ));
        assert forall|j: int| 0 <= j < old(self).scopes@.len() && j != s implies self.scopes@[j]
            == old(self).scopes@[j] by {
            if j > s {
                assert(self.scopes@[j] == old(self).scopes@.subrange(s as int, old(self).scopes@.len() as int)[j - s]);
            }
        }
    }

    /// Resolves a reference to the bytes `source[start..end]`: the highlight
    /// slot of the most recent visible definition of that name, or `None`
    /// where none is visible or the bytes are not valid UTF-8.
    pub fn resolve_reference(&self, source: &[u8], start: usize, end: usize) -> (r: Option<Option<Highlight>>)
        requires
            self.wf(),
            start <= end <= source@.len(),
        ensures
            r == if vstd::utf8::valid_utf8(source@.subrange(start as int, end as int)) {
                resolve_spec(self.scopes@, source@.subrange(start as int, end as int), start as int)
            } else {
                None
            },
    {
        if !is_utf8(source, start, end) {
            return None;
        }
        let ghost name = source@.subrange(start as int, end as int);
        let mut i: usize = self.scopes.len();
        assert(self.scopes@.subrange(0, i as int) =~= self.scopes@);
        while i > 0
            invariant
                start <= end <= source@.len(),
                name == source@.subrange(start as int, end as int),
                vstd::utf8::valid_utf8(name),
                i <= self.scopes@.len(),
                resolve_location(self.scopes@, name, start as int) == resolve_location(
                    self.scopes@.subrange(0, i as int),
                    name,
                    start as int,
                ),
            decreases i,
        {
            let scope = &self.scopes[i - 1];
            let ghost sub = self.scopes@.subrange(0, i as int);
            assert(sub.last() == *scope);
            assert(sub.drop_last() =~= self.scopes@.subrange(0, i - 1));
            let mut j: usize = scope.local_defs.len();
            assert(scope.local_defs@.subrange(0, j as int) =~= scope.local_defs@);
            while j > 0
                invariant
                    start <= end <= source@.len(),
                    name == source@.subrange(start as int, end as int),
                    vstd::utf8::valid_utf8(name),
                    0 < i <= self.scopes@.len(),
                    sub == self.scopes@.subrange(0, i as int),
                    sub.last() == *scope,
                    resolve_location(self.scopes@, name, start as int) == resolve_location(sub, name, start as int),
                    j <= scope.local_defs@.len(),
                    find_def(scope.local_defs@, name, start as int) == find_def(
                        scope.local_defs@.subrange(0, j as int),
                        name,
                        start as int,
                    ),
                decreases j,
            {
                let def = &scope.local_defs[j - 1];
                let ghost dsub = scope.local_defs@.subrange(0, j as int);
                assert(dsub.last() == *def);
                assert(dsub.drop_last() =~= scope.local_defs@.subrange(0, j - 1));
                if start >= def.value_end && bytes_equal(&def.name, source, start, end) {
                    assert(find_def(dsub, name, start as int) == Some(j - 1));
                    assert(resolve_location(sub, name, start as int) == Some(((i - 1) as int, (j - 1) as int)));
                    assert(self.scopes@[i - 1] == sub[i - 1]);
                    assert(scope.local_defs@[j - 1] == dsub[j - 1]);
                    return Some(def.highlight);
                }
                j = j - 1;
            }
            assert(scope.local_defs@.subrange(0, 0) =~= Seq::<LocalDef>::empty());
            if !scope.inherits {
                return None;
            }
            i = i - 1;
        }
        assert(self.scopes@.subrange(0, 0) =~= Seq::<LocalScope>::empty());
        None
    }
}

fn bytes_equal(a: &Vec<u8>, b: &[u8], start: usize, end: usize) -> (r: bool)
    requires
        start <= end <= b@.len(),
    ensures
        r == (a@ == b@.subrange(start as int, end as int)),
{
    if a.len() != end - start {
        return false;
    }
    let mut i: usize = 0;
    while i < a.len()
        invariant
            a@.len() == end - start,
            start <= end <= b@.len(),
            i <= a@.len(),
            forall|k: int| 0 <= k < i ==> a@[k] == b@[start + k],
        decreases a@.len() - i,
    {
        if a[i] != b[start + i] {
            return false;
        }
        i = i + 1;
    }
    assert(a@ =~= b@.subrange(start as int, end as int));
    true
}

} // verus!

//! What the highlighter reads from a compiled query, as plain values, and
//! the decisions taken on it: the sections of the combined query, the
//! patterns disabled on local variables, the special captures, and the
//! properties that injections and scopes read.
use vstd::prelude::*;

use crate::names::chars_of;

verus! {

/// A property of a pattern: its key and its value, if any.
#[derive(Clone, Debug)]
pub struct Property {
    pub key: String,
    pub value: Option<String>,
}

/// One pattern of a query: where it starts in the query source, the
/// properties it sets (`#set!`), and the properties it checks (`#is?` when
/// positive, `#is-not?` when not).
#[derive(Clone, Debug)]
pub struct PatternInfo {
    pub start_byte: usize,
    pub settings: Vec<Property>,
    pub predicates: Vec<(Property, bool)>,
}

/// A query as plain values: its capture names and its patterns in order.
#[derive(Clone, Debug)]
pub struct QueryInfo {
    pub capture_names: Vec<String>,
    pub patterns: Vec<PatternInfo>,
}

pub fn str_equal(a: &str, b: &str) -> (r: bool)
    ensures
        r == (a@ == b@),
{
    let x = chars_of(a);
    let y = chars_of(b);
    if x.len() != y.len() {
        return false;
    }
    let mut i: usize = 0;
    while i < x.len()
        invariant
            x@ == a@,
            y@ == b@,
            x@.len() == y@.len(),
            i <= x@.len(),
            forall|k: int| 0 <= k < i ==> x@[k] == y@[k],
        decreases x@.len() - i,
    {
        if x[i] != y[i] {
            return false;
        }
        i = i + 1;
    }
    assert(x@ =~= y@);
    true
}

/// How many of the patterns start before byte `offset` of the query source.
pub open spec fn count_before(patterns: Seq<PatternInfo>, offset: int) -> nat
    decreases patterns.len(),
{
    if patterns.len() == 0 {
        0
    } else {
        count_before(patterns.drop_last(), offset) + if patterns.last().start_byte < offset {
            1nat
        } else {
            0nat
        }
    }
}

/// The first pattern index of the locals section and of the highlights
/// section: the number of patterns that start before each section's offset
/// in the combined query source, which holds the injections, then the
/// locals, then the highlights.
pub fn section_bounds(patterns: &Vec<PatternInfo>, locals_offset: usize, highlights_offset: usize) -> (r: (
    usize,
    usize,
))
    requires
        locals_offset <= highlights_offset,
    ensures
        r.0 == count_before(patterns@, locals_offset as int),
        r.1 == count_before(patterns@, highlights_offset as int),
{
    let mut locals_pattern_index: usize = 0;
    let mut highlights_pattern_index: usize = 0;
    let mut i: usize = 0;
    while i < patterns.len()
        invariant
            i <= patterns@.len(),
            locals_offset <= highlights_offset,
            locals_pattern_index == count_before(patterns@.subrange(0, i as int), locals_offset as int),
            highlights_pattern_index == count_before(patterns@.subrange(0, i as int), highlights_offset as int),
            locals_pattern_index <= i,
            highlights_pattern_index <= i,
        decreases patterns@.len() - i,
    {
        let pattern_offset = patterns[i].start_byte;
        assert(patterns@.subrange(0, i + 1).drop_last() =~= patterns@.subrange(0, i as int));
        if pattern_offset < highlights_offset {
            highlights_pattern_index = highlights_pattern_index + 1;
            if pattern_offset < locals_offset {
                locals_pattern_index = locals_pattern_index + 1;
            }
        }
        i = i + 1;
    }
    assert(patterns@.subrange(0, i as int) =~= patterns@);
    (locals_pattern_index, highlights_pattern_index)
}

/// `props` holds a property with the key `key`.
pub open spec fn has_key(props: Seq<Property>, key: Seq<char>) -> bool {
    exists|i: int| 0 <= i < props.len() && (#[trigger] props[i]).key@ == key
}

pub fn has_setting(props: &Vec<Property>, key: &str) -> (r: bool)
    ensures
        r == has_key(props@, key@),
{
    let mut i: usize = 0;
    while i < props.len()
        invariant
            i <= props@.len(),
            forall|k: int| 0 <= k < i ==> (#[trigger] props@[k]).key@ != key@,
        decreases props@.len() - i,
    {
        if str_equal(props[i].key.as_str(), key) {
            return true;
        }
        i = i + 1;
    }
    false
}

/// A pattern that checks `#is-not? local` is not applied to local variables.
pub open spec fn is_non_local(p: PatternInfo) -> bool {
    exists|i: int|
        0 <= i < p.predicates@.len() && !(#[trigger] p.predicates@[i]).1 && p.predicates@[i].0.key@
            == "local"@
}

pub fn non_local_variable_patterns(patterns: &Vec<PatternInfo>) -> (r: Vec<bool>)
    ensures
        r@.len() == patterns@.len(),
        forall|i: int| 0 <= i < r@.len() ==> r@[i] == is_non_local(#[trigger] patterns@[i]),
{
    let mut result: Vec<bool> = Vec::new();
    let mut i: usize = 0;
    while i < patterns.len()
        invariant
            i <= patterns@.len(),
            result@.len() == i,
            forall|k: int| 0 <= k < i ==> result@[k] == is_non_local(#[trigger] patterns@[k]),
        decreases patterns@.len() - i,
    {
        let preds = &patterns[i].predicates;
        let mut found = false;
        let mut j: usize = 0;
        while j < preds.len()
            invariant
                j <= preds@.len(),
                found == exists|k: int| 0 <= k < j && !(#[trigger] preds@[k]).1 && preds@[k].0.key@ == "local"@,
            decreases preds@.len() - j,
        {
            if !preds[j].1 && str_equal(preds[j].0.key.as_str(), "local") {
                found = true;
            }
            j = j + 1;
        }
        result.push(found);
        i = i + 1;
    }
    result
}

/// The index of the last capture named `name`, as a capture index.
pub open spec fn capture_index_spec(names: Seq<String>, name: Seq<char>) -> Option<u32>
    decreases names.len(),
{
    if names.len() == 0 {
        None
    } else if names.last()@ == name {
        Some((names.len() - 1) as u32)
    } else {
        capture_index_spec(names.drop_last(), name)
    }
}

/// Where the capture named `name` stands among `names`: the last one of
/// that name, or `None`.
pub fn capture_index(names: &Vec<String>, name: &str) -> (r: Option<u32>)
    ensures
        r == capture_index_spec(names@, name@),
{
    let mut i: usize = names.len();
    assert(names@.subrange(0, i as int) =~= names@);
    while i > 0
        invariant
            i <= names@.len(),
            capture_index_spec(names@, name@) == capture_index_spec(names@.subrange(0, i as int), name@),
        decreases i,
    {
        let ghost sub = names@.subrange(0, i as int);
        assert(sub.drop_last() =~= names@.subrange(0, i - 1));
        if str_equal(names[i - 1].as_str(), name) {
            return Some(#[verifier::truncate] ((i - 1) as u32));
        }
        i = i - 1;
    }
    None
}

/// Whether a scope opened by a pattern with these settings sees the names
/// of the enclosing scopes: yes, unless its last `local.scope-inherits`
/// setting has a value other than `true`.
pub open spec fn scope_inherits_spec(settings: Seq<Property>) -> bool
    decreases settings.len(),
{
    if settings.len() == 0 {
        true
    } else if settings.last().key@ == "local.scope-inherits"@ {
        match settings.last().value {
            None => true,
            Some(v) => v@ == "true"@,
        }
    } else {
        scope_inherits_spec(settings.drop_last())
    }
}

pub fn scope_inherits(settings: &Vec<Property>) -> (r: bool)
    ensures
        r == scope_inherits_spec(settings@),
{
    let mut i: usize = settings.len();
    assert(settings@.subrange(0, i as int) =~= settings@);
    while i > 0
        invariant
            i <= settings@.len(),
            scope_inherits_spec(settings@) == scope_inherits_spec(settings@.subrange(0, i as int)),
        decreases i,
    {
        let ghost sub = settings@.subrange(0, i as int);
        assert(sub.drop_last() =~= settings@.subrange(0, i - 1));
        let p = &settings[i - 1];
        if str_equal(p.key.as_str(), "local.scope-inherits") {
            return match &p.value {
                None => true,
                Some(v) => str_equal(v.as_str(), "true"),
            };
        }
        i = i - 1;
    }
    true
}

/// Where an injection's language name comes from.
#[derive(Copy, Clone, Debug, PartialEq, Eq, Structural)]
pub enum LanguageSource {
    /// No language was named.
    Missing,
    /// The text of the `injection.language` capture.
    Captured,
    /// The value of setting `i` of the pattern.
    Setting(usize),
    /// The language of the current layer.
    Current,
    /// The language of the parent layer.
    Parent,
}

/// The language and the include-children flag of an injection: a captured
/// language name comes first; otherwise the first of the settings
/// `injection.language` (with a value), `injection.self` and
/// `injection.parent` (where there is a parent) names it. Any
/// `injection.include-children` setting sets the flag.
pub open spec fn injection_spec(settings: Seq<Property>, captured: bool, has_parent: bool) -> (LanguageSource, bool)
    decreases settings.len(),
{
    if settings.len() == 0 {
        (if captured {
            LanguageSource::Captured
        } else {
            LanguageSource::Missing
        }, false)
    } else {
        let (src, inc) = injection_spec(settings.drop_last(), captured, has_parent);
        let p = settings.last();
        let i = settings.len() - 1;
        if p.key@ == "injection.include-children"@ {
            (src, true)
        } else if src !is Missing {
            (src, inc)
        } else if p.key@ == "injection.language"@ {
            (if p.value is Some {
                LanguageSource::Setting(i as usize)
            } else {
                LanguageSource::Missing
            }, inc)
        } else if p.key@ == "injection.self"@ {
            (LanguageSource::Current, inc)
        } else if p.key@ == "injection.parent"@ {
            (if has_parent {
                LanguageSource::Parent
            } else {
                LanguageSource::Missing
            }, inc)
        } else {
            (src, inc)
        }
    }
}

pub fn injection_language(settings: &Vec<Property>, captured: bool, has_parent: bool) -> (r: (
    LanguageSource,
    bool,
))
    ensures
        r == injection_spec(settings@, captured, has_parent),
{
    let mut source = if captured {
        LanguageSource::Captured
    } else {
        LanguageSource::Missing
    };
    let mut include_children = false;
    let mut i: usize = 0;
    while i < settings.len()
        invariant
            i <= settings@.len(),
            (source, include_children) == injection_spec(settings@.subrange(0, i as int), captured, has_parent),
        decreases settings@.len() - i,
    {
        assert(settings@.subrange(0, i + 1).drop_last() =~= settings@.subrange(0, i as int));
        let p = &settings[i];
        let missing = match source {
            LanguageSource::Missing => true,
            _ => false,
        };
        if str_equal(p.key.as_str(), "injection.include-children") {
            include_children = true;
        } else if !missing {
        } else if str_equal(p.key.as_str(), "injection.language") {
            if p.value.is_some() {
                source = LanguageSource::Setting(i);
            }
        } else if str_equal(p.key.as_str(), "injection.self") {
            source = LanguageSource::Current;
        } else if str_equal(p.key.as_str(), "injection.parent") {
            if has_parent {
                source = LanguageSource::Parent;
            }
        }
        i = i + 1;
    }
    assert(settings@.subrange(0, i as int) =~= settings@);
    (source, include_children)
}

} // verus!

//! The data needed to highlight code written in one language: a combined
//! query of injection, locals and highlight patterns, and the highlight that
//! each of its captures maps to.
use vstd::prelude::*;
use vstd::string::{StringExecFns, StringSliceAdditionalSpecFns};

use crate::names::{best_match, chars_of, highlight_for_capture_name, views_of};
use crate::query_info::{
    capture_index, capture_index_spec, count_before, has_key, has_setting, is_non_local,
    non_local_variable_patterns, section_bounds, str_equal, PatternInfo, Property, QueryInfo,
};
use crate::Highlight;

verus! {

#[verifier::external_type_specification]
#[verifier::external_body]
pub struct ExLanguage(tree_sitter::Language);

#[verifier::external_type_specification]
#[verifier::external_body]
pub struct ExQuery(tree_sitter::Query);

#[verifier::external_type_specification]
#[verifier::external_body]
pub struct ExQueryError(tree_sitter::QueryError);

/// Relies on `tree_sitter::Query::new`: compiles `source` for `language`, or
/// reports why it cannot.
#[verifier::external_body]
fn compile_query(language: &tree_sitter::Language, source: &str) -> (r: Result<
    tree_sitter::Query,
    tree_sitter::QueryError,
>) {
    tree_sitter::Query::new(language, source)
}

/// Relies on the accessors of `tree_sitter::Query` (`capture_names`,
/// `pattern_count`, `start_byte_for_pattern`, `property_settings`,
/// `property_predicates`) to copy out what the highlighter reads. Each
/// pattern index passed is below `pattern_count`.
#[verifier::external_body]
fn describe_query(q: &tree_sitter::Query) -> (r: QueryInfo) {
    let prop = |p: &tree_sitter::QueryProperty| Property {
        key: p.key.to_string(),
        value: p.value.as_ref().map(|v| v.to_string()),
    };
    QueryInfo {
        capture_names: q.capture_names().iter().map(|n| n.to_string()).collect(),
        patterns: (0..q.pattern_count()).map(|i| PatternInfo {
            start_byte: q.start_byte_for_pattern(i),
            settings: q.property_settings(i).iter().map(prop).collect(),
            predicates: q.property_predicates(i).iter().map(|(p, b)| (prop(p), *b)).collect(),
        }).collect(),
    }
}

/// Relies on `tree_sitter::Query::disable_pattern`: pattern `index` no
/// longer matches.
#[verifier::external_body]
fn disable_pattern(q: &mut tree_sitter::Query, index: usize) {
    q.disable_pattern(index)
}

/// The canonical highlight capture names.
pub open spec fn standard_names() -> Seq<Seq<char>> {
    seq![
        "attribute"@,
        "boolean"@,
        "carriage-return"@,
        "comment"@,
        "comment.documentation"@,
        "constant"@,
        "constant.builtin"@,
        "constructor"@,
        "constructor.builtin"@,
        "embedded"@,
        "error"@,
        "escape"@,
        "function"@,
        "function.builtin"@,
        "keyword"@,
        "markup"@,
        "markup.bold"@,
        "markup.heading"@,
        "markup.italic"@,
        "markup.link"@,
        "markup.link.url"@,
        "markup.list"@,
        "markup.list.checked"@,
        "markup.list.numbered"@,
        "markup.list.unchecked"@,
        "markup.list.unnumbered"@,
        "markup.quote"@,
        "markup.raw"@,
        "markup.raw.block"@,
        "markup.raw.inline"@,
        "markup.strikethrough"@,
        "module"@,
        "number"@,
        "operator"@,
        "property"@,
        "property.builtin"@,
        "punctuation"@,
        "punctuation.bracket"@,
        "punctuation.delimiter"@,
        "punctuation.special"@,
        "string"@,
        "string.escape"@,
        "string.regexp"@,
        "string.special"@,
        "string.special.symbol"@,
        "tag"@,
        "type"@,
        "type.builtin"@,
        "variable"@,
        "variable.builtin"@,
        "variable.member"@,
        "variable.parameter"@,
    ]
}

/// The canonical highlight capture names, for `nonconformant_capture_names`.
pub fn standard_capture_names() -> (r: Vec<&'static str>)
    ensures
        views_of(r@) == standard_names(),
{
    let r = vec![
        "attribute",
        "boolean",
        "carriage-return",
        "comment",
        "comment.documentation",
        "constant",
        "constant.builtin",
        "constructor",
        "constructor.builtin",
        "embedded",
        "error",
        "escape",
        "function",
        "function.builtin",
        "keyword",
        "markup",
        "markup.bold",
        "markup.heading",
        "markup.italic",
        "markup.link",
        "markup.link.url",
        "markup.list",
        "markup.list.checked",
        "markup.list.numbered",
        "markup.list.unchecked",
        "markup.list.unnumbered",
        "markup.quote",
        "markup.raw",
        "markup.raw.block",
        "markup.raw.inline",
        "markup.strikethrough",
        "module",
        "number",
        "operator",
        "property",
        "property.builtin",
        "punctuation",
        "punctuation.bracket",
        "punctuation.delimiter",
        "punctuation.special",
        "string",
        "string.escape",
        "string.regexp",
        "string.special",
        "string.special.symbol",
        "tag",
        "type",
        "type.builtin",
        "variable",
        "variable.builtin",
        "variable.member",
        "variable.parameter",
    ];
    assert(views_of(r@) =~= standard_names());
    r
}

/// `name` is reserved for internal use (it starts with `_`) or known.
pub open spec fn conformant(name: Seq<char>, known: Seq<Seq<char>>) -> bool {
    (name.len() > 0 && name[0] == '_') || known.contains(name)
}

/// The names that are not conformant, in order.
pub open spec fn nonconformant_spec(names: Seq<Seq<char>>, known: Seq<Seq<char>>) -> Seq<Seq<char>>
    decreases names.len(),
{
    if names.len() == 0 {
        Seq::empty()
    } else {
        let rest = nonconformant_spec(names.drop_last(), known);
        if conformant(names.last(), known) {
            rest
        } else {
            rest.push(names.last())
        }
    }
}

pub open spec fn string_views(names: Seq<String>) -> Seq<Seq<char>> {
    names.map_values(|n: String| n@)
}

fn contains_name(known: &Vec<&str>, name: &str) -> (r: bool)
    ensures
        r == views_of(known@).contains(name@),
{
    let mut i: usize = 0;
    while i < known.len()
        invariant
            i <= known@.len(),
            forall|k: int| 0 <= k < i ==> (#[trigger] known@[k])@ != name@,
        decreases known@.len() - i,
    {
        if str_equal(known[i], name) {
            assert(views_of(known@)[i as int] == name@);
            return true;
        }
        i = i + 1;
    }
    assert forall|k: int| 0 <= k < views_of(known@).len() implies views_of(known@)[k] != name@ by {
        assert(known@[k]@ != name@);
    }
    false
}

fn starts_with_underscore(name: &str) -> (r: bool)
    ensures
        r == (name@.len() > 0 && name@[0] == '_'),
{
    let chars = chars_of(name);
    chars.len() > 0 && chars[0] == '_'
}

/// The highlight each capture resolves to among the recognized names.
pub open spec fn resolved_highlights(capture_names: Seq<String>, recognized: Seq<&str>) -> Seq<Option<Highlight>> {
    capture_names.map_values(|n: String| best_match(views_of(recognized), n@))
}

/// Contains the data needed to highlight code written in a particular
/// language. It is immutable once configured and can be shared between
/// threads.
pub struct HighlightConfiguration {
    pub language: tree_sitter::Language,
    pub language_name: String,
    pub query: tree_sitter::Query,
    pub combined_injections_query: Option<tree_sitter::Query>,
    /// The capture names and patterns of `query`.
    pub info: QueryInfo,
    pub locals_pattern_index: usize,
    pub highlights_pattern_index: usize,
    pub highlight_indices: Vec<Option<Highlight>>,
    pub non_local_variable_patterns: Vec<bool>,
    pub injection_content_capture_index: Option<u32>,
    pub injection_language_capture_index: Option<u32>,
    pub local_scope_capture_index: Option<u32>,
    pub local_def_capture_index: Option<u32>,
    pub local_def_value_capture_index: Option<u32>,
    pub local_ref_capture_index: Option<u32>,
}

impl HighlightConfiguration {
    /// The derived fields agree with the query's capture names and
    /// patterns, and the boundary indices split the patterns into the
    /// injection, locals and highlight sections.
    pub open spec fn wf(&self) -> bool {
        let names = self.info.capture_names@;
        let patterns = self.info.patterns@;
        &&& self.locals_pattern_index <= self.highlights_pattern_index <= patterns.len()
        &&& self.highlight_indices@.len() == names.len()
        &&& self.non_local_variable_patterns@.len() == patterns.len()
        &&& forall|i: int|
            0 <= i < patterns.len() ==> self.non_local_variable_patterns@[i] == is_non_local(
                #[trigger] patterns[i],
            )
        &&& self.injection_content_capture_index == capture_index_spec(names, "injection.content"@)
        &&& self.injection_language_capture_index == capture_index_spec(names, "injection.language"@)
        &&& self.local_scope_capture_index == capture_index_spec(names, "local.scope"@)
        &&& self.local_def_capture_index == capture_index_spec(names, "local.definition"@)
        &&& self.local_def_value_capture_index == capture_index_spec(names, "local.definition-value"@)
        &&& self.local_ref_capture_index == capture_index_spec(names, "local.reference"@)
    }

    /// Creates a configuration for `language` from its highlights,
    /// injections and locals queries. The three are compiled as one query,
    /// injections first, then locals, then highlights; a pattern's section
    /// is known from its index. Injection patterns with the
    /// `injection.combined` setting are disabled there and kept in a query
    /// of their own. No capture has a highlight until `configure`.
    pub fn new(
        language: tree_sitter::Language,
        name: String,
        highlights_query: &str,
        injection_query: &str,
        locals_query: &str,
    ) -> (r: Result<Self, tree_sitter::QueryError>)
        requires
            injection_query.spec_bytes().len() + locals_query.spec_bytes().len() <= usize::MAX,
        ensures
            match r {
                Ok(c) => {
                    &&& c.wf()
                    &&& c.language_name@ == name@
                    &&& c.locals_pattern_index == count_before(
                        c.info.patterns@,
                        injection_query.spec_bytes().len() as int,
                    )
                    &&& c.highlights_pattern_index == count_before(
                        c.info.patterns@,
                        (injection_query.spec_bytes().len() + locals_query.spec_bytes().len()) as int,
                    )
                    &&& forall|i: int| 0 <= i < c.highlight_indices@.len() ==> c.highlight_indices@[i] is None
                    &&& (c.combined_injections_query is Some <==> exists|i: int|
                        0 <= i < c.locals_pattern_index && has_key(
                            #[trigger] c.info.patterns@[i].settings@,
                            "injection.combined"@,
                        ))
                },
                Err(_) => true,
            },
    {
        // Concatenate the query strings, keeping track of the start offset of each section.
        let mut query_source = String::from_str(injection_query);
        let locals_query_offset = injection_query.len();
        query_source.append(locals_query);
        let highlights_query_offset = locals_query_offset + locals_query.len();
        query_source.append(highlights_query);

        let mut query = match compile_query(&language, query_source.as_str()) {
            Ok(q) => q,
            Err(e) => return Err(e),
        };
        let info = describe_query(&query);
        let (locals_pattern_index, highlights_pattern_index) = section_bounds(
            &info.patterns,
            locals_query_offset,
            highlights_query_offset,
        );
        proof {
            lemma_count_before_bounds(info.patterns@, locals_query_offset as int, highlights_query_offset as int);
        }

        // A separate query holds the 'combined injections'; they are disabled
        // in the main query.
        let mut combined_injections_query = match compile_query(&language, injection_query) {
            Ok(q) => q,
            Err(e) => return Err(e),
        };
        let mut has_combined_queries = false;
        let mut pattern_index: usize = 0;
        while pattern_index < locals_pattern_index
            invariant
                locals_pattern_index <= info.patterns@.len(),
                pattern_index <= locals_pattern_index,
                has_combined_queries == exists|i: int|
                    0 <= i < pattern_index && has_key(#[trigger] info.patterns@[i].settings@, "injection.combined"@),
            decreases locals_pattern_index - pattern_index,
        {
            if has_setting(&info.patterns[pattern_index].settings, "injection.combined") {
                has_combined_queries = true;
                disable_pattern(&mut query, pattern_index);
            } else {
                disable_pattern(&mut combined_injections_query, pattern_index);
            }
            pattern_index = pattern_index + 1;
        }
        let combined_injections_query = if has_combined_queries {
            Some(combined_injections_query)
        } else {
            None
        };

        // The highlighting patterns that are disabled for local variables.
        let non_local_variable_patterns = non_local_variable_patterns(&info.patterns);

        let injection_content_capture_index = capture_index(&info.capture_names, "injection.content");
        let injection_language_capture_index = capture_index(&info.capture_names, "injection.language");
        let local_def_capture_index = capture_index(&info.capture_names, "local.definition");
        let local_def_value_capture_index = capture_index(&info.capture_names, "local.definition-value");
        let local_ref_capture_index = capture_index(&info.capture_names, "local.reference");
        let local_scope_capture_index = capture_index(&info.capture_names, "local.scope");

        let mut highlight_indices: Vec<Option<Highlight>> = Vec::new();
        let mut i: usize = 0;
        while i < info.capture_names.len()
            invariant
                i <= info.capture_names@.len(),
                highlight_indices@.len() == i,
                forall|k: int| 0 <= k < i ==> highlight_indices@[k] is None,
            decreases info.capture_names@.len() - i,
        {
            highlight_indices.push(None);
            i = i + 1;
        }
        Ok(HighlightConfiguration {
            language,
            language_name: name,
            query,
            combined_injections_query,
            info,
            locals_pattern_index,
            highlights_pattern_index,
            highlight_indices,
            non_local_variable_patterns,
            injection_content_capture_index,
            injection_language_capture_index,
            local_scope_capture_index,
            local_def_capture_index,
            local_def_value_capture_index,
            local_ref_capture_index,
        })
    }

    /// The capture names used in the configuration.
    pub fn names(&self) -> (r: Vec<&str>)
        ensures
            r@.len() == self.info.capture_names@.len(),
            forall|i: int| 0 <= i < r@.len() ==> (#[trigger] r@[i])@ == self.info.capture_names@[i]@,
    {
        let mut result: Vec<&str> = Vec::new();
        let mut i: usize = 0;
        while i < self.info.capture_names.len()
            invariant
                i <= self.info.capture_names@.len(),
                result@.len() == i,
                forall|k: int| 0 <= k < i ==> (#[trigger] result@[k])@ == self.info.capture_names@[k]@,
            decreases self.info.capture_names@.len() - i,
        {
            result.push(self.info.capture_names[i].as_str());
            i = i + 1;
        }
        result
    }

    /// The capture names that are neither reserved (starting with `_`) nor
    /// among `capture_names`, or among the standard names where
    /// `capture_names` is empty; in the order of the query.
    pub fn nonconformant_capture_names(&self, capture_names: &[&str]) -> (r: Vec<&str>)
        ensures
            views_of(r@) == nonconformant_spec(
                string_views(self.info.capture_names@),
                if capture_names@.len() == 0 {
                    standard_names()
                } else {
                    views_of(capture_names@)
                },
            ),
    {
        let known: Vec<&str> = if capture_names.len() == 0 {
            standard_capture_names()
        } else {
            let mut k: Vec<&str> = Vec::new();
            let mut i: usize = 0;
            while i < capture_names.len()
                invariant
                    i <= capture_names@.len(),
                    k@ == capture_names@.subrange(0, i as int),
                decreases capture_names@.len() - i,
            {
                k.push(capture_names[i]);
                i = i + 1;
                assert(k@ =~= capture_names@.subrange(0, i as int));
            }
            assert(k@ =~= capture_names@);
            k
        };
        let ghost kv = views_of(known@);
        let ghost names = string_views(self.info.capture_names@);
        let mut result: Vec<&str> = Vec::new();
        let mut i: usize = 0;
        while i < self.info.capture_names.len()
            invariant
                i <= self.info.capture_names@.len(),
                kv == views_of(known@),
                names == string_views(self.info.capture_names@),
                views_of(result@) == nonconformant_spec(names.subrange(0, i as int), kv),
            decreases self.info.capture_names@.len() - i,
        {
            let n = self.info.capture_names[i].as_str();
            assert(names.subrange(0, i + 1).drop_last() =~= names.subrange(0, i as int));
            assert(names.subrange(0, i + 1).last() == n@);
            if !(starts_with_underscore(n) || contains_name(&known, n)) {
                let ghost before = result@;
                result.push(n);
                assert(views_of(result@) =~= views_of(before).push(n@));
            }
            i = i + 1;
        }
        assert(names.subrange(0, i as int) =~= names);
        result
    }

    /// Sets the recognized highlight names. Each capture name resolves to
    /// the most specific recognized name whose dot-separated parts all
    /// occur among its own parts, the earliest on ties: `function.builtin`
    /// matches `function.method.builtin` but not `function.method`.
    pub fn configure(&mut self, recognized_names: &[&str])
        requires
            old(self).wf(),
        ensures
            final(self).wf(),
            final(self).highlight_indices@ == resolved_highlights(
                old(self).info.capture_names@,
                recognized_names@,
            ),
            final(self).info == old(self).info,
            final(self).language_name == old(self).language_name,
            final(self).language == old(self).language,
            final(self).query == old(self).query,
            final(self).combined_injections_query == old(self).combined_injections_query,
            final(self).non_local_variable_patterns == old(self).non_local_variable_patterns,
            final(self).injection_content_capture_index == old(self).injection_content_capture_index,
            final(self).injection_language_capture_index == old(self).injection_language_capture_index,
            final(self).local_scope_capture_index == old(self).local_scope_capture_index,
            final(self).local_def_capture_index == old(self).local_def_capture_index,
            final(self).local_def_value_capture_index == old(self).local_def_value_capture_index,
            final(self).local_ref_capture_index == old(self).local_ref_capture_index,
            final(self).locals_pattern_index == old(self).locals_pattern_index,
            final(self).highlights_pattern_index == old(self).highlights_pattern_index,
    {
        let mut indices: Vec<Option<Highlight>> = Vec::new();
        let mut i: usize = 0;
        while i < self.info.capture_names.len()
            invariant
                i <= self.info.capture_names@.len(),
                indices@.len() == i,
                forall|k: int|
                    0 <= k < i ==> indices@[k] == best_match(
                        views_of(recognized_names@),
                        (#[trigger] self.info.capture_names@[k])@,
                    ),
            decreases self.info.capture_names@.len() - i,
        {
            indices.push(highlight_for_capture_name(self.info.capture_names[i].as_str(), recognized_names));
            i = i + 1;
        }
        self.highlight_indices = indices;
        assert(self.highlight_indices@ =~= resolved_highlights(old(self).info.capture_names@, recognized_names@));
    }
}

proof fn lemma_count_before_bounds(patterns: Seq<PatternInfo>, a: int, b: int)
    requires
        a <= b,
    ensures
        count_before(patterns, a) <= count_before(patterns, b) <= patterns.len(),
    decreases patterns.len(),
{
    if patterns.len() > 0 {
        lemma_count_before_bounds(patterns.drop_last(), a, b);
    }
}

} // verus!

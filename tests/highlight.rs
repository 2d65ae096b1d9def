use tree_sitter_highlight::captures::{CaptureRecord, LayerCaptures};
use tree_sitter_highlight::iter::{
    capture_is, sort_key, CancellationPoll, HighlightIterState, LayerState, SortKey,
};
use tree_sitter_highlight::locals::{choose_highlight, ScopeStack};
use tree_sitter_highlight::merge::Step;
use tree_sitter_highlight::names::highlight_for_capture_name;
use tree_sitter_highlight::query_info::{
    injection_language, scope_inherits, section_bounds, LanguageSource, PatternInfo, Property,
};
use tree_sitter_highlight::ranges::{intersect_ranges, whole_document, ContentNode, Point, Range};
use tree_sitter_highlight::render::HtmlRenderer;
use tree_sitter_highlight::{Error, Highlight, HighlightEvent};

fn range(start: usize, end: usize) -> Range {
    Range {
        start_byte: start,
        end_byte: end,
        start_point: Point { row: 0, column: start },
        end_point: Point { row: 0, column: end },
    }
}

fn prop(key: &str, value: Option<&str>) -> Property {
    Property { key: key.to_string(), value: value.map(|v| v.to_string()) }
}

#[test]
fn configure_prefers_longest_matching_chain() {
    let recognized = ["function", "function.builtin"];
    assert_eq!(highlight_for_capture_name("function.method.builtin", &recognized), Some(Highlight(1)));
    assert_eq!(highlight_for_capture_name("function.method", &recognized), Some(Highlight(0)));
    assert_eq!(highlight_for_capture_name("function.builtin.constructor", &recognized), Some(Highlight(1)));
    assert_eq!(highlight_for_capture_name("keyword", &recognized), None);
}

#[test]
fn configure_earlier_name_wins_ties() {
    let recognized = ["variable.parameter", "parameter.variable", "variable"];
    assert_eq!(highlight_for_capture_name("variable.parameter", &recognized), Some(Highlight(0)));
    assert_eq!(highlight_for_capture_name("variable.builtin", &recognized), Some(Highlight(2)));
    assert_eq!(highlight_for_capture_name("x", &[]), None);
}

fn attrs() -> Vec<Vec<u8>> {
    vec![b"class=k".to_vec(), b"class=cr".to_vec()]
}

fn render(events: Vec<Result<HighlightEvent, Error>>, source: &[u8], cr: Option<Highlight>) -> (Result<(), Error>, String) {
    let mut r = HtmlRenderer::new();
    r.set_carriage_return_highlight(cr);
    let res = r.render(&events, source, &attrs());
    (res, String::from_utf8(r.html.clone()).unwrap())
}

#[test]
fn render_crlf_suppresses_carriage_return() {
    let src = b"a\r\nb";
    let (res, html) = render(vec![Ok(HighlightEvent::Source { start: 0, end: 4 })], src, Some(Highlight(1)));
    assert_eq!(res, Ok(()));
    assert_eq!(html, "a\nb\n");
    assert!(!html.contains('\r'));
}

#[test]
fn render_lone_carriage_return_is_marked() {
    let src = b"a\rb";
    let (_, html) = render(vec![Ok(HighlightEvent::Source { start: 0, end: 3 })], src, Some(Highlight(1)));
    assert_eq!(html, "a<span class=cr></span>b\n");
}

#[test]
fn render_trailing_carriage_return_is_marked_at_end() {
    let src = b"a\r";
    let (_, html) = render(vec![Ok(HighlightEvent::Source { start: 0, end: 2 })], src, Some(Highlight(1)));
    assert_eq!(html, "a<span class=cr></span>\n");
}

#[test]
fn render_escapes_and_reopens_tags_per_line() {
    let src = b"<a&\n'\"";
    let events = vec![
        Ok(HighlightEvent::HighlightStart(Highlight(0))),
        Ok(HighlightEvent::Source { start: 0, end: 6 }),
        Ok(HighlightEvent::HighlightEnd),
    ];
    let mut r = HtmlRenderer::new();
    assert_eq!(r.render(&events, src, &attrs()), Ok(()));
    let html = String::from_utf8(r.html.clone()).unwrap();
    assert_eq!(html, "<span class=k>&lt;a&amp;</span>\n<span class=k>&#39;&quot;</span>\n");
    let lines: Vec<String> = r.lines().into_iter().map(|l| String::from_utf8(l).unwrap()).collect();
    assert_eq!(lines, vec!["<span class=k>&lt;a&amp;</span>\n".to_string(), "<span class=k>&#39;&quot;</span>\n".to_string()]);
    assert_eq!(r.line_offsets, vec![0, 32]);
}

#[test]
fn render_stops_at_first_error() {
    let events = vec![
        Ok(HighlightEvent::Source { start: 0, end: 1 }),
        Err(Error::Cancelled),
        Ok(HighlightEvent::Source { start: 1, end: 2 }),
    ];
    let (res, html) = render(events, b"xy", None);
    assert_eq!(res, Err(Error::Cancelled));
    assert_eq!(html, "x");
}

#[test]
fn render_replaces_invalid_utf8() {
    let src = [b'a', 0xff, b'b'];
    let (_, html) = render(vec![Ok(HighlightEvent::Source { start: 0, end: 3 })], &src, None);
    assert_eq!(html, "a\u{fffd}b\n");
}

#[test]
fn render_reset_clears_output() {
    let mut r = HtmlRenderer::new();
    r.render(&vec![Ok(HighlightEvent::Source { start: 0, end: 2 })], b"a\n", &attrs()).unwrap();
    assert_eq!(r.html, b"a\n".to_vec());
    assert_eq!(r.line_offsets, vec![0]);
    r.reset();
    assert!(r.html.is_empty());
    assert_eq!(r.line_offsets, vec![0]);
}

#[test]
fn local_reference_takes_definition_highlight() {
    // let x = 1; x
    let source = b"let x = 1; x";
    let mut scopes = ScopeStack::new();
    let (s, d) = scopes.add_definition(source, 4, 5, 8, 9).unwrap();
    scopes.set_definition_highlight(s, d, Some(Highlight(3)));
    let resolved = scopes.resolve_reference(source, 11, 12);
    assert_eq!(resolved, Some(Some(Highlight(3))));
    assert_eq!(choose_highlight(resolved.unwrap(), Some(Highlight(7))), Some(Highlight(3)));
    assert_eq!(choose_highlight(None, Some(Highlight(7))), Some(Highlight(7)));
}

#[test]
fn local_reference_in_own_initializer_falls_through() {
    // x = x + 1, inside a scope that inherits an outer x
    let source = b"x; { x = x + 1 }";
    let mut scopes = ScopeStack::new();
    let (s0, d0) = scopes.add_definition(source, 0, 1, 0, 0).unwrap();
    scopes.set_definition_highlight(s0, d0, Some(Highlight(1)));
    scopes.push_scope(3, 16, true);
    let (s1, d1) = scopes.add_definition(source, 5, 6, 9, 14).unwrap();
    scopes.set_definition_highlight(s1, d1, Some(Highlight(2)));
    assert_eq!(scopes.resolve_reference(source, 9, 10), Some(Some(Highlight(1))));
    assert_eq!(scopes.resolve_reference(source, 15, 16), None);
}

#[test]
fn local_scope_without_inheritance_hides_outer_names() {
    let source = b"x { x }";
    let mut scopes = ScopeStack::new();
    scopes.add_definition(source, 0, 1, 0, 0).unwrap();
    scopes.push_scope(2, 7, false);
    assert_eq!(scopes.resolve_reference(source, 4, 5), None);
    scopes.prune(8);
    assert_eq!(scopes.scopes.len(), 1);
    assert_eq!(scopes.resolve_reference(source, 4, 5), Some(None));
}

#[test]
fn local_definition_rejects_invalid_utf8() {
    let source = [0xffu8, b' '];
    let mut scopes = ScopeStack::new();
    assert_eq!(scopes.add_definition(&source, 0, 1, 0, 0), None);
}

#[test]
fn intersect_ranges_excludes_children_and_clips_to_parent() {
    let node = ContentNode { range: range(0, 20), children: vec![range(5, 8), range(12, 14)] };
    let parents = vec![range(2, 13), range(15, 18)];
    let r = intersect_ranges(&parents, &vec![node], false);
    let bytes: Vec<(usize, usize)> = r.iter().map(|x| (x.start_byte, x.end_byte)).collect();
    assert_eq!(bytes, vec![(2, 5), (8, 12), (15, 18)]);
}

#[test]
fn intersect_ranges_includes_children_when_asked() {
    let node = ContentNode { range: range(3, 9), children: vec![range(4, 5)] };
    let r = intersect_ranges(&vec![whole_document()], &vec![node], true);
    let bytes: Vec<(usize, usize)> = r.iter().map(|x| (x.start_byte, x.end_byte)).collect();
    assert_eq!(bytes, vec![(3, 9)]);
}

#[test]
fn intersect_ranges_drops_empty_content() {
    let node = ContentNode { range: range(3, 6), children: vec![range(3, 6)] };
    let r = intersect_ranges(&vec![whole_document()], &vec![node], false);
    assert!(r.is_empty());
}

#[test]
fn section_bounds_counts_patterns_before_each_section() {
    let p = |b: usize| PatternInfo { start_byte: b, settings: vec![], predicates: vec![] };
    let patterns = vec![p(0), p(10), p(20), p(25), p(40)];
    assert_eq!(section_bounds(&patterns, 20, 30), (2, 4));
    assert_eq!(section_bounds(&patterns, 0, 0), (0, 0));
}

#[test]
fn injection_language_from_settings() {
    let s = vec![prop("injection.language", Some("regex")), prop("injection.include-children", None)];
    assert_eq!(injection_language(&s, false, true), (LanguageSource::Setting(0), true));
    assert_eq!(injection_language(&s, true, true), (LanguageSource::Captured, true));
    let s = vec![prop("injection.parent", None), prop("injection.self", None)];
    assert_eq!(injection_language(&s, false, false), (LanguageSource::Current, false));
    assert_eq!(injection_language(&s, false, true), (LanguageSource::Parent, false));
    assert_eq!(injection_language(&vec![], false, true), (LanguageSource::Missing, false));
}

#[test]
fn scope_inherits_reads_setting() {
    assert!(scope_inherits(&vec![]));
    assert!(scope_inherits(&vec![prop("local.scope-inherits", None)]));
    assert!(!scope_inherits(&vec![prop("local.scope-inherits", Some("false"))]));
    assert!(scope_inherits(&vec![prop("local.scope-inherits", Some("true"))]));
}

#[test]
fn sort_key_prefers_ends_and_deeper_layers() {
    assert_eq!(sort_key(Some(3), Some(3), 1), Some(SortKey { offset: 3, is_start: false, depth: 1 }));
    assert_eq!(sort_key(Some(2), Some(3), 0), Some(SortKey { offset: 2, is_start: true, depth: 0 }));
    assert_eq!(sort_key(None, None, 0), None);
}

#[test]
fn cancellation_polled_every_interval() {
    let mut poll = CancellationPoll::new();
    assert!(poll.tick());
    for _ in 0..99 {
        assert!(!poll.tick());
    }
    assert_eq!(poll.count, 0);
    assert!(poll.tick());
    assert!(capture_is(Some(3), 3));
    assert!(!capture_is(None, 3));
}

fn captures_at(start: usize) -> LayerCaptures {
    LayerCaptures::new(
        0,
        vec![CaptureRecord {
            pattern_index: 0,
            capture_index: 0,
            node_id: 1,
            start,
            end: start + 1,
            match_id: 0,
            siblings: vec![],
        }],
    )
}

fn drain(state: &mut HighlightIterState, out: &mut Vec<HighlightEvent>) {
    if let Some(e) = state.take_next_event() {
        out.push(e);
    }
}

#[test]
fn merge_emits_balanced_contiguous_events() {
    // "let x = 1": keyword over 0..3, number over 8..9
    let layer = LayerState::new(0, 0, vec![whole_document()], captures_at(0));
    let mut state = HighlightIterState::new(9, vec![layer]);
    let mut out = Vec::new();
    let e = state.open_highlight(0, 3, Highlight(0));
    out.extend(e);
    drain(&mut state, &mut out);
    state.set_next_start(Some(8));
    state.sort_layers();
    assert!(state.end_due());
    out.extend(state.close_highlight());
    drain(&mut state, &mut out);
    out.extend(state.open_highlight(8, 9, Highlight(4)));
    drain(&mut state, &mut out);
    state.set_next_start(None);
    state.sort_layers();
    out.extend(state.close_highlight());
    drain(&mut state, &mut out);
    out.extend(state.finish_layer());
    assert!(state.layers.is_empty());
    out.extend(state.finish());
    assert_eq!(
        out,
        vec![
            HighlightEvent::HighlightStart(Highlight(0)),
            HighlightEvent::Source { start: 0, end: 3 },
            HighlightEvent::HighlightEnd,
            HighlightEvent::Source { start: 3, end: 8 },
            HighlightEvent::HighlightStart(Highlight(4)),
            HighlightEvent::Source { start: 8, end: 9 },
            HighlightEvent::HighlightEnd,
        ]
    );
}

#[test]
fn merge_deeper_layer_wins_same_range() {
    let outer = LayerState::new(0, 0, vec![whole_document()], captures_at(2));
    let inner = LayerState::new(1, 1, vec![range(2, 5)], captures_at(2));
    let mut state = HighlightIterState::new(10, vec![outer, inner]);
    assert_eq!(state.layers[0].id, 1);
    assert_eq!(state.open_highlight(2, 5, Highlight(1)), Some(HighlightEvent::Source { start: 0, end: 2 }));
    assert_eq!(state.take_next_event(), Some(HighlightEvent::HighlightStart(Highlight(1))));
    state.set_next_start(None);
    state.sort_layers();
    assert_eq!(state.layers[0].id, 0);
    assert!(state.is_duplicate(2, 5));
    assert!(!state.is_duplicate(2, 6));
}

#[test]
fn merge_finish_reports_tail_once() {
    let mut state = HighlightIterState::new(4, vec![]);
    assert_eq!(state.finish(), Some(HighlightEvent::Source { start: 0, end: 4 }));
    assert_eq!(state.finish(), None);
}

#[test]
fn step_reports_whole_document_without_layers() {
    let mut state = HighlightIterState::new(3, vec![]);
    assert_eq!(state.step(&vec![], b"abc"), Step::Event(HighlightEvent::Source { start: 0, end: 3 }));
    assert_eq!(state.step(&vec![], b"abc"), Step::Done);
}

#[test]
fn step_fails_on_layer_without_configuration() {
    let layer = LayerState::new(0, 0, vec![whole_document()], captures_at(1));
    let mut state = HighlightIterState::new(3, vec![layer]);
    assert_eq!(state.step(&vec![], b"abc"), Step::Failed);
}

#[test]
fn standard_names_cover_the_canonical_taxonomy() {
    let names = tree_sitter_highlight::config::standard_capture_names();
    assert_eq!(names.len(), 52);
    assert!(names.contains(&"variable.parameter"));
    assert!(names.contains(&"markup.list.unchecked"));
    assert!(!names.contains(&"_private"));
}

#[test]
fn renderer_parts_write_tags() {
    let mut r = HtmlRenderer::new();
    r.start_highlight(Highlight(0), &attrs());
    r.add_text(&b"x\n".to_vec(), &vec![Highlight(0)], &attrs());
    r.end_highlight();
    assert_eq!(String::from_utf8(r.html.clone()).unwrap(), "<span class=k>x</span>\n<span class=k></span>");
    r.set_carriage_return_highlight(Some(Highlight(1)));
    r.add_carriage_return(0, &attrs());
    assert!(String::from_utf8(r.html.clone()).unwrap().starts_with("<span class=cr></span><span class=k>"));
}

#[test]
fn error_messages() {
    assert_eq!(Error::Cancelled.message(), "Cancelled");
    assert_eq!(Error::InvalidLanguage.message(), "Invalid language");
    assert_eq!(Error::Unknown.message(), "Unknown error");
}

#[test]
fn combined_injections_group_by_pattern() {
    use_combined();
}

fn use_combined() {
    let m = |p: usize, l: bool, c: bool, w: bool| tree_sitter_highlight::combined::CombinedMatch {
        pattern_index: p,
        has_language: l,
        has_content: c,
        include_children: w,
    };
    let matches = vec![m(1, true, true, false), m(0, false, true, true), m(1, true, true, true), m(1, false, false, false), m(2, true, false, false)];
    let groups = tree_sitter_highlight::combined::group_combined_injections(&matches, 3);
    assert_eq!(groups.len(), 1);
    assert_eq!(groups[0].pattern_index, 1);
    assert_eq!(groups[0].language, 2);
    assert_eq!(groups[0].contents, vec![0, 2]);
    assert!(!groups[0].include_children);
}

#[test]
fn intersect_ranges_keeps_adjacent_pieces_apart() {
    let node = ContentNode { range: range(5, 20), children: vec![range(8, 10), range(10, 12)] };
    let r = intersect_ranges(&vec![whole_document()], &vec![node], false);
    let bytes: Vec<(usize, usize)> = r.iter().map(|x| (x.start_byte, x.end_byte)).collect();
    assert_eq!(bytes, vec![(5, 8), (12, 20)]);
    let node = ContentNode { range: range(5, 20), children: vec![range(8, 10), range(10, 12)] };
    let r = intersect_ranges(&vec![whole_document()], &vec![node], true);
    let bytes: Vec<(usize, usize)> = r.iter().map(|x| (x.start_byte, x.end_byte)).collect();
    assert_eq!(bytes, vec![(5, 20)]);
}

//! Conversion of a highlight event stream into lines of HTML.
use vstd::prelude::*;

use crate::{Error, Highlight, HighlightEvent};

verus! {

pub const BUFFER_HTML_RESERVE_CAPACITY: usize = 10240;

pub const BUFFER_LINES_RESERVE_CAPACITY: usize = 1000;

/// What `LossyUtf8` yields for a byte string, as bytes: its valid UTF-8
/// runs, with replacement characters standing for invalid sequences between
/// them.
pub uninterp spec fn lossy_utf8_of(b: Seq<u8>) -> Seq<u8>;

/// Relies on `tree_sitter::LossyUtf8`: it yields the bytes of `src[start..end]`
/// decoded leniently, and a valid UTF-8 input comes back whole and unchanged.
#[verifier::external_body]
fn lossy_utf8_bytes(src: &[u8], start: usize, end: usize) -> (r: Vec<u8>)
    requires
        start <= end <= src@.len(),
    ensures
        r@ == lossy_utf8_of(src@.subrange(start as int, end as int)),
        vstd::utf8::valid_utf8(src@.subrange(start as int, end as int)) ==> r@
            == src@.subrange(start as int, end as int),
{
    tree_sitter::LossyUtf8::new(&src[start..end]).flat_map(|p| p.bytes()).collect()
}

/// Relies on `Vec::shrink_to_fit`: it only releases capacity, the contents stay.
#[verifier::external_body]
fn shrink_to_fit<T>(v: &mut Vec<T>)
    ensures
        final(v)@ == old(v)@,
{
    v.shrink_to_fit()
}

/// The attribute bytes written inside the opening tag of highlight `h`:
/// entry `h` of the table, or nothing where the table has no such entry.
pub open spec fn attr_of(attrs: Seq<Vec<u8>>, h: Highlight) -> Seq<u8> {
    if h.0 < attrs.len() {
        attrs[h.0 as int]@
    } else {
        Seq::empty()
    }
}

/// `<span `
pub open spec fn span_open_prefix() -> Seq<u8> {
    seq![60u8, 115u8, 112u8, 97u8, 110u8, 32u8]
}

/// `</span>`
pub open spec fn span_close() -> Seq<u8> {
    seq![60u8, 47u8, 115u8, 112u8, 97u8, 110u8, 62u8]
}

/// `<span ATTR>`
pub open spec fn open_tag(attrs: Seq<Vec<u8>>, h: Highlight) -> Seq<u8> {
    span_open_prefix() + attr_of(attrs, h) + seq![62u8]
}

/// `<span ATTR></span>`: the mark left for a lone carriage return.
pub open spec fn carriage_return_tag(attrs: Seq<Vec<u8>>, h: Highlight) -> Seq<u8> {
    open_tag(attrs, h) + span_close()
}

/// `n` closing tags.
pub open spec fn close_tags(n: nat) -> Seq<u8>
    decreases n,
{
    if n == 0 {
        Seq::empty()
    } else {
        close_tags((n - 1) as nat) + span_close()
    }
}

/// The opening tags of `hs`, outermost first.
pub open spec fn open_tags(attrs: Seq<Vec<u8>>, hs: Seq<Highlight>) -> Seq<u8>
    decreases hs.len(),
{
    if hs.len() == 0 {
        Seq::empty()
    } else {
        open_tags(attrs, hs.drop_last()) + open_tag(attrs, hs.last())
    }
}

/// The HTML entity for the bytes `> < & ' "`.
pub open spec fn html_escape(c: u8) -> Option<Seq<u8>> {
    if c == 62 {
        Some(seq![38u8, 103u8, 116u8, 59u8])
    } else if c == 60 {
        Some(seq![38u8, 108u8, 116u8, 59u8])
    } else if c == 38 {
        Some(seq![38u8, 97u8, 109u8, 112u8, 59u8])
    } else if c == 39 {
        Some(seq![38u8, 35u8, 51u8, 57u8, 59u8])
    } else if c == 34 {
        Some(seq![38u8, 113u8, 117u8, 111u8, 116u8, 59u8])
    } else {
        None
    }
}

/// The state of a renderer as plain values.
pub struct RenderView {
    pub html: Seq<u8>,
    pub line_offsets: Seq<u32>,
    pub carriage_return_highlight: Option<Highlight>,
    pub last_carriage_return: Option<usize>,
}

/// Marks the carriage return that stood at `offset` of the output, where a
/// carriage-return highlight is set.
pub open spec fn insert_carriage_return(v: RenderView, offset: usize, attrs: Seq<Vec<u8>>) -> RenderView {
    match v.carriage_return_highlight {
        Some(h) => RenderView {
            html: v.html.subrange(0, offset as int) + carriage_return_tag(attrs, h) + v.html.subrange(
                offset as int,
                v.html.len() as int,
            ),
            ..v
        },
        None => v,
    }
}

/// The pending carriage return is resolved by the byte `c` that follows it.
pub open spec fn settle_carriage_return(v: RenderView, c: u8, attrs: Seq<Vec<u8>>) -> RenderView {
    match v.last_carriage_return {
        Some(o) => {
            let v0 = RenderView { last_carriage_return: None, ..v };
            if c != 10 {
                insert_carriage_return(v0, o, attrs)
            } else {
                v0
            }
        },
        None => v,
    }
}

/// Output of one text byte `c`, inside the open highlights `hs`.
pub open spec fn text_step(v: RenderView, c: u8, hs: Seq<Highlight>, attrs: Seq<Vec<u8>>) -> RenderView {
    if c == 13 {
        RenderView { last_carriage_return: Some(v.html.len() as usize), ..v }
    } else {
        let v1 = settle_carriage_return(v, c, attrs);
        if c == 10 {
            let h1 = v1.html + close_tags(hs.len()) + seq![10u8];
            RenderView {
                html: h1 + open_tags(attrs, hs),
                line_offsets: v1.line_offsets.push(h1.len() as u32),
                ..v1
            }
        } else {
            match html_escape(c) {
                Some(e) => RenderView { html: v1.html + e, ..v1 },
                None => RenderView { html: v1.html.push(c), ..v1 },
            }
        }
    }
}

/// Output of the text bytes `text`, in order.
pub open spec fn text_spec(v: RenderView, text: Seq<u8>, hs: Seq<Highlight>, attrs: Seq<Vec<u8>>) -> RenderView
    decreases text.len(),
{
    if text.len() == 0 {
        v
    } else {
        text_step(text_spec(v, text.drop_last(), hs, attrs), text.last(), hs, attrs)
    }
}

/// Every `Source` event lies within `len` bytes.
pub open spec fn events_in_bounds(events: Seq<Result<HighlightEvent, Error>>, len: nat) -> bool {
    forall|i: int|
        0 <= i < events.len() ==> match #[trigger] events[i] {
            Ok(HighlightEvent::Source { start, end }) => start <= end <= len,
            _ => true,
        }
}

/// The renderer state, the open highlights and the error, if any, after the
/// events `events` have been consumed from `v`, with no highlight open.
pub open spec fn events_spec(
    v: RenderView,
    events: Seq<Result<HighlightEvent, Error>>,
    source: Seq<u8>,
    attrs: Seq<Vec<u8>>,
) -> (RenderView, Seq<Highlight>, Option<Error>)
    decreases events.len(),
{
    if events.len() == 0 {
        (v, Seq::empty(), None)
    } else {
        let (v0, hs, err) = events_spec(v, events.drop_last(), source, attrs);
        if err is Some {
            (v0, hs, err)
        } else {
            match events.last() {
                Ok(HighlightEvent::HighlightStart(h)) => (
                    RenderView { html: v0.html + open_tag(attrs, h), ..v0 },
                    hs.push(h),
                    None,
                ),
                Ok(HighlightEvent::HighlightEnd) => (
                    RenderView { html: v0.html + span_close(), ..v0 },
                    if hs.len() > 0 {
                        hs.drop_last()
                    } else {
                        hs
                    },
                    None,
                ),
                Ok(HighlightEvent::Source { start, end }) => (
                    text_spec(v0, lossy_utf8_of(source.subrange(start as int, end as int)), hs, attrs),
                    hs,
                    None,
                ),
                Err(e) => (v0, hs, Some(e)),
            }
        }
    }
}

/// The last steps of a render: a pending carriage return is marked, the
/// output ends with a newline, and no line starts at its very end.
pub open spec fn finish_spec(v: RenderView, attrs: Seq<Vec<u8>>) -> RenderView {
    let v1 = match v.last_carriage_return {
        Some(o) => insert_carriage_return(RenderView { last_carriage_return: None, ..v }, o, attrs),
        None => v,
    };
    let v2 = if v1.html.len() > 0 && v1.html.last() == 10u8 {
        v1
    } else {
        RenderView { html: v1.html.push(10u8), ..v1 }
    };
    if v2.line_offsets.len() > 0 && v2.line_offsets.last() == (v2.html.len() as u32) {
        RenderView { line_offsets: v2.line_offsets.drop_last(), ..v2 }
    } else {
        v2
    }
}

/// The lines of `html` delimited by `offsets`: line `i` runs from offset `i`
/// to offset `i + 1`, the last to the end.
pub open spec fn line_end(html: Seq<u8>, offsets: Seq<u32>, i: int) -> int {
    if i + 1 == offsets.len() {
        html.len() as int
    } else {
        offsets[i + 1] as int
    }
}

/// Converts a general-purpose syntax highlighting event stream into a sequence
/// of lines of HTML.
pub struct HtmlRenderer {
    pub html: Vec<u8>,
    pub line_offsets: Vec<u32>,
    carriage_return_highlight: Option<Highlight>,
    // The offset in `self.html` of the last carriage return.
    last_carriage_return: Option<usize>,
}

impl View for HtmlRenderer {
    type V = RenderView;

    closed spec fn view(&self) -> RenderView {
        RenderView {
            html: self.html@,
            line_offsets: self.line_offsets@,
            carriage_return_highlight: self.carriage_return_highlight,
            last_carriage_return: self.last_carriage_return,
        }
    }
}

/// Empties `vec`, first giving back memory held beyond `capacity` elements.
pub fn shrink_and_clear<T>(vec: &mut Vec<T>, capacity: usize)
    ensures
        final(vec)@.len() == 0,
{
    if vec.len() > capacity {
        vec.truncate(capacity);
        shrink_to_fit(vec);
    }
    vec.clear();
}

fn push_bytes(dst: &mut Vec<u8>, src: &Vec<u8>)
    ensures
        final(dst)@ == old(dst)@ + src@,
{
    let ghost start = dst@;
    let mut i: usize = 0;
    while i < src.len()
        invariant
            i <= src@.len(),
            dst@ == start + src@.subrange(0, i as int),
        decreases src@.len() - i,
    {
        dst.push(src[i]);
        i = i + 1;
        assert(src@.subrange(0, i as int) == src@.subrange(0, i - 1).push(src@[i - 1]));
    }
    assert(src@.subrange(0, i as int) == src@);
}

fn push_span_open_prefix(html: &mut Vec<u8>)
    ensures
        final(html)@ == old(html)@ + span_open_prefix(),
{
    html.push(60);
    html.push(115);
    html.push(112);
    html.push(97);
    html.push(110);
    html.push(32);
    assert(final(html)@ =~= old(html)@ + span_open_prefix());
}

fn push_attr(html: &mut Vec<u8>, attrs: &Vec<Vec<u8>>, h: Highlight)
    ensures
        final(html)@ == old(html)@ + attr_of(attrs@, h),
{
    if h.0 < attrs.len() {
        push_bytes(html, &attrs[h.0]);
    } else {
        assert(old(html)@ + attr_of(attrs@, h) =~= old(html)@);
    }
}

fn push_span_close(html: &mut Vec<u8>)
    ensures
        final(html)@ == old(html)@ + span_close(),
{
    html.push(60);
    html.push(47);
    html.push(115);
    html.push(112);
    html.push(97);
    html.push(110);
    html.push(62);
    assert(final(html)@ =~= old(html)@ + span_close());
}

fn push_escaped(html: &mut Vec<u8>, c: u8)
    ensures
        final(html)@ == match html_escape(c) {
            Some(e) => old(html)@ + e,
            None => old(html)@.push(c),
        },
{
    if c == 62 {
        html.push(38);
        html.push(103);
        html.push(116);
        html.push(59);
    } else if c == 60 {
        html.push(38);
        html.push(108);
        html.push(116);
        html.push(59);
    } else if c == 38 {
        html.push(38);
        html.push(97);
        html.push(109);
        html.push(112);
        html.push(59);
    } else if c == 39 {
        html.push(38);
        html.push(35);
        html.push(51);
        html.push(57);
        html.push(59);
    } else if c == 34 {
        html.push(38);
        html.push(113);
        html.push(117);
        html.push(111);
        html.push(116);
        html.push(59);
    } else {
        html.push(c);
    }
    assert(final(html)@ =~= match html_escape(c) {
        Some(e) => old(html)@ + e,
        None => old(html)@.push(c),
    });
}

impl HtmlRenderer {
    /// Well-formed: a pending carriage return lies within the output.
    pub closed spec fn wf(&self) -> bool {
        match self.last_carriage_return {
            Some(o) => o <= self@.html.len(),
            None => true,
        }
    }

    /// Line offsets that delimit lines of the output: non-decreasing and
    /// within it.
    pub open spec fn lines_wf(&self) -> bool {
        &&& forall|i: int, j: int|
            0 <= i <= j < self@.line_offsets.len() ==> self@.line_offsets[i] <= self@.line_offsets[j]
        &&& forall|i: int|
            0 <= i < self@.line_offsets.len() ==> self@.line_offsets[i] <= self@.html.len()
    }

    pub fn new() -> (r: Self)
        ensures
            r.wf(),
            r@.html == Seq::<u8>::empty(),
            r@.line_offsets == seq![0u32],
            r@.carriage_return_highlight is None,
            r@.last_carriage_return is None,
    {
        let mut result = HtmlRenderer {
            html: Vec::with_capacity(BUFFER_HTML_RESERVE_CAPACITY),
            line_offsets: Vec::with_capacity(BUFFER_LINES_RESERVE_CAPACITY),
            carriage_return_highlight: None,
            last_carriage_return: None,
        };
        result.line_offsets.push(0);
        assert(result.line_offsets@ =~= seq![0u32]);
        result
    }

    pub fn set_carriage_return_highlight(&mut self, highlight: Option<Highlight>)
        ensures
            final(self)@ == (RenderView { carriage_return_highlight: highlight, ..old(self)@ }),
            old(self).wf() ==> final(self).wf(),
    {
        self.carriage_return_highlight = highlight;
    }

    pub fn carriage_return_highlight(&self) -> (r: Option<Highlight>)
        ensures
            r == self@.carriage_return_highlight,
    {
        self.carriage_return_highlight
    }

    /// Empties the output for the next document; the carriage-return
    /// highlight stays.
    pub fn reset(&mut self)
        ensures
            final(self).wf(),
            final(self)@ == (RenderView {
                html: Seq::empty(),
                line_offsets: seq![0u32],
                last_carriage_return: None,
                ..old(self)@
            }),
    {
        shrink_and_clear(&mut self.html, BUFFER_HTML_RESERVE_CAPACITY);
        shrink_and_clear(&mut self.line_offsets, BUFFER_LINES_RESERVE_CAPACITY);
        self.line_offsets.push(0);
        self.last_carriage_return = None;
        assert(self@.line_offsets =~= seq![0u32]);
        assert(self@.html =~= Seq::<u8>::empty());
    }

    pub fn add_carriage_return(&mut self, offset: usize, attrs: &Vec<Vec<u8>>)
        requires
            offset <= old(self)@.html.len(),
        ensures
            final(self)@ == insert_carriage_return(old(self)@, offset, attrs@),
    {
        if let Some(highlight) = self.carriage_return_highlight {
            // If a CR is the last character in a `Source` event, whether it is
            // part of a CRLF is only known at the next `Source` event or at the
            // end, so its mark is inserted at the saved offset now.
            let mut rest = self.html.split_off(offset);
            let ghost front = self@.html;
            push_span_open_prefix(&mut self.html);
            push_attr(&mut self.html, attrs, highlight);
            self.html.push(62);
            push_span_close(&mut self.html);
            let ghost marked = self@.html;
            self.html.append(&mut rest);
            assert(marked =~= front + carriage_return_tag(attrs@, highlight));
            assert(self@.html =~= front + carriage_return_tag(attrs@, highlight) + old(self).html@.subrange(
                offset as int,
                old(self).html@.len() as int,
            ));
        }
    }

    pub fn start_highlight(&mut self, h: Highlight, attrs: &Vec<Vec<u8>>)
        ensures
            final(self)@ == (RenderView { html: old(self)@.html + open_tag(attrs@, h), ..old(self)@ }),
    {
        push_span_open_prefix(&mut self.html);
        push_attr(&mut self.html, attrs, h);
        self.html.push(62);
        assert(self@.html =~= old(self)@.html + open_tag(attrs@, h));
    }

    pub fn end_highlight(&mut self)
        ensures
            final(self)@ == (RenderView { html: old(self)@.html + span_close(), ..old(self)@ }),
    {
        push_span_close(&mut self.html);
    }

    fn close_all(&mut self, n: usize)
        ensures
            final(self)@ == (RenderView { html: old(self)@.html + close_tags(n as nat), ..old(self)@ }),
    {
        let mut i: usize = 0;
        while i < n
            invariant
                i <= n,
                self@ == (RenderView { html: old(self)@.html + close_tags(i as nat), ..old(self)@ }),
            decreases n - i,
        {
            self.end_highlight();
            i = i + 1;
            assert(old(self)@.html + close_tags(i as nat) =~= old(self)@.html + close_tags((i - 1) as nat)
                + span_close());
        }
    }

    fn open_all(&mut self, highlights: &Vec<Highlight>, attrs: &Vec<Vec<u8>>)
        ensures
            final(self)@ == (RenderView {
                html: old(self)@.html + open_tags(attrs@, highlights@),
                ..old(self)@
            }),
    {
        let mut i: usize = 0;
        while i < highlights.len()
            invariant
                i <= highlights@.len(),
                self@ == (RenderView {
                    html: old(self)@.html + open_tags(attrs@, highlights@.subrange(0, i as int)),
                    ..old(self)@
                }),
            decreases highlights@.len() - i,
        {
            self.start_highlight(highlights[i], attrs);
            i = i + 1;
            let ghost p = highlights@.subrange(0, i as int);
            assert(p.drop_last() =~= highlights@.subrange(0, i - 1));
            assert(old(self)@.html + open_tags(attrs@, p) =~= old(self)@.html + open_tags(
                attrs@,
                highlights@.subrange(0, i - 1),
            ) + open_tag(attrs@, highlights@[i - 1]));
        }
        assert(highlights@.subrange(0, i as int) =~= highlights@);
    }

    fn add_byte(&mut self, c: u8, highlights: &Vec<Highlight>, attrs: &Vec<Vec<u8>>)
        requires
            old(self).wf(),
        ensures
            final(self).wf(),
            final(self)@ == text_step(old(self)@, c, highlights@, attrs@),
    {
        // Carriage returns are not written, but a lone one (not followed by a
        // line feed) can be marked with the carriage-return highlight.
        if c == 13 {
            self.last_carriage_return = Some(self.html.len());
            return;
        }
        if let Some(offset) = self.last_carriage_return {
            self.last_carriage_return = None;
            if c != 10 {
                self.add_carriage_return(offset, attrs);
            }
        }
        assert(self@ == settle_carriage_return(old(self)@, c, attrs@));
        // At line boundaries, close and re-open all of the open tags.
        if c == 10 {
            let ghost v1 = self@;
            self.close_all(highlights.len());
            self.html.push(c);
            self.line_offsets.push(#[verifier::truncate] (self.html.len() as u32));
            assert(self.html@ =~= v1.html + close_tags(highlights@.len()) + seq![10u8]);
            self.open_all(highlights, attrs);
        } else {
            push_escaped(&mut self.html, c);
        }
    }

    pub fn add_text(&mut self, text: &Vec<u8>, highlights: &Vec<Highlight>, attrs: &Vec<Vec<u8>>)
        requires
            old(self).wf(),
        ensures
            final(self).wf(),
            final(self)@ == text_spec(old(self)@, text@, highlights@, attrs@),
    {
        let mut i: usize = 0;
        while i < text.len()
            invariant
                i <= text@.len(),
                self.wf(),
                self@ == text_spec(old(self)@, text@.subrange(0, i as int), highlights@, attrs@),
            decreases text@.len() - i,
        {
            self.add_byte(text[i], highlights, attrs);
            i = i + 1;
            assert(text@.subrange(0, i as int).drop_last() =~= text@.subrange(0, i - 1));
        }
        assert(text@.subrange(0, i as int) =~= text@);
    }

    /// Renders the events in order: `HighlightStart(h)` opens a `<span>` with
    /// the attribute bytes `attrs[h]`, `HighlightEnd` closes one, and a
    /// `Source` event writes its bytes of `source`, escaped, with every open
    /// tag closed before each newline and reopened after it. The first error
    /// among the events is returned as it stands and ends the render.
    pub fn render(
        &mut self,
        events: &Vec<Result<HighlightEvent, Error>>,
        source: &[u8],
        attrs: &Vec<Vec<u8>>,
    ) -> (r: Result<(), Error>)
        requires
            old(self).wf(),
            events_in_bounds(events@, source@.len()),
        ensures
            final(self).wf(),
            ({
                let (v, _hs, err) = events_spec(old(self)@, events@, source@, attrs@);
                match err {
                    Some(e) => r == Err::<(), Error>(e) && final(self)@ == v,
                    None => r is Ok && final(self)@ == finish_spec(v, attrs@),
                }
            }),
    {
        let mut highlights: Vec<Highlight> = Vec::new();
        let mut i: usize = 0;
        while i < events.len()
            invariant
                i <= events@.len(),
                self.wf(),
                events_in_bounds(events@, source@.len()),
                ({
                    let (v, hs, err) = events_spec(old(self)@, events@.subrange(0, i as int), source@, attrs@);
                    err is None && self@ == v && highlights@ == hs
                }),
            decreases events@.len() - i,
        {
            let ghost prefix = events@.subrange(0, i + 1);
            assert(prefix.drop_last() =~= events@.subrange(0, i as int));
            assert(prefix.last() == events@[i as int]);
            match events[i] {
                Ok(HighlightEvent::HighlightStart(s)) => {
                    highlights.push(s);
                    self.start_highlight(s, attrs);
                },
                Ok(HighlightEvent::HighlightEnd) => {
                    highlights.pop();
                    self.end_highlight();
                    assert(highlights@.len() == 0 ==> highlights@ =~= seq![]);
                },
                Ok(HighlightEvent::Source { start, end }) => {
                    let text = lossy_utf8_bytes(source, start, end);
                    self.add_text(&text, &highlights, attrs);
                },
                Err(a) => {
                    proof {
                        assert(events_spec(old(self)@, prefix, source@, attrs@).2 == Some(a));
                        lemma_events_error_sticks(old(self)@, events@, (i + 1) as int, source@, attrs@);
                    }
                    return Err(a);
                },
            }
            i = i + 1;
        }
        assert(events@.subrange(0, i as int) =~= events@);
        if let Some(offset) = self.last_carriage_return {
            self.last_carriage_return = None;
            self.add_carriage_return(offset, attrs);
        }
        if self.html.len() == 0 || self.html[self.html.len() - 1] != 10 {
            self.html.push(10);
        }
        if self.line_offsets.len() > 0 && self.line_offsets[self.line_offsets.len() - 1]
            == #[verifier::truncate] (self.html.len() as u32) {
            self.line_offsets.pop();
        }
        Ok(())
    }

    /// Whether the line offsets delimit lines of the output, as `lines`
    /// needs.
    pub fn lines_ok(&self) -> (r: bool)
        ensures
            r == self.lines_wf(),
    {
        let n = self.line_offsets.len();
        let mut k: usize = 0;
        while k < n
            invariant
                n == self@.line_offsets.len(),
                k <= n,
                forall|i: int, j: int| 0 <= i <= j < k ==> self@.line_offsets[i] <= self@.line_offsets[j],
                forall|i: int| 0 <= i < k ==> self@.line_offsets[i] <= self@.html.len(),
            decreases n - k,
        {
            if self.line_offsets[k] as usize > self.html.len() {
                return false;
            }
            if k > 0 && self.line_offsets[k - 1] > self.line_offsets[k] {
                return false;
            }
            assert forall|i: int, j: int| 0 <= i <= j < k + 1 implies self@.line_offsets[i]
                <= self@.line_offsets[j] by {
                if j == k && i < k {
                    assert(self@.line_offsets[i] <= self@.line_offsets[k - 1]);
                }
            }
            k = k + 1;
        }
        true
    }

    /// The lines of the output, each with its trailing newline.
    pub fn lines(&self) -> (r: Vec<Vec<u8>>)
        requires
            self.lines_wf(),
        ensures
            r@.len() == self@.line_offsets.len(),
            forall|i: int|
                0 <= i < r@.len() ==> #[trigger] r@[i]@ == self@.html.subrange(
                    self@.line_offsets[i] as int,
                    line_end(self@.html, self@.line_offsets, i),
                ),
    {
        let mut result: Vec<Vec<u8>> = Vec::new();
        let mut i: usize = 0;
        while i < self.line_offsets.len()
            invariant
                self.lines_wf(),
                i <= self@.line_offsets.len(),
                result@.len() == i,
                forall|k: int|
                    0 <= k < i ==> #[trigger] result@[k]@ == self@.html.subrange(
                        self@.line_offsets[k] as int,
                        line_end(self@.html, self@.line_offsets, k),
                    ),
            decreases self@.line_offsets.len() - i,
        {
            let line_start = self.line_offsets[i] as usize;
            let line_end = if i + 1 == self.line_offsets.len() {
                self.html.len()
            } else {
                self.line_offsets[i + 1] as usize
            };
            let mut line: Vec<u8> = Vec::new();
            let mut j: usize = line_start;
            while j < line_end
                invariant
                    line_start <= j <= line_end <= self@.html.len(),
                    line@ == self@.html.subrange(line_start as int, j as int),
                decreases line_end - j,
            {
                line.push(self.html[j]);
                j = j + 1;
                assert(line@ =~= self@.html.subrange(line_start as int, j as int));
            }
            result.push(line);
            i = i + 1;
        }
        result
    }
}

proof fn lemma_events_error_sticks(
    v: RenderView,
    events: Seq<Result<HighlightEvent, Error>>,
    k: int,
    source: Seq<u8>,
    attrs: Seq<Vec<u8>>,
)
    requires
        0 < k <= events.len(),
        events_spec(v, events.subrange(0, k), source, attrs).2 is Some,
    ensures
        events_spec(v, events, source, attrs) == events_spec(v, events.subrange(0, k), source, attrs),
    decreases events.len() - k,
{
    if k == events.len() {
        assert(events.subrange(0, k) =~= events);
    } else {
        assert(events.subrange(0, k + 1).drop_last() =~= events.subrange(0, k));
        lemma_events_error_sticks(v, events, k + 1, source, attrs);
    }
}

} // verus!

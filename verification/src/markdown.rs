//! The markdown subset the chat overlay renders: block structure (fenced
//! code, tables, headings, quotes, lists), inline emphasis, and word
//! wrapping of styled spans by display width.

use vstd::prelude::*;
use vstd::slice::*;
use crate::width::{
    column_width, concat_all, grapheme_clusters, graphemes, strings_view, unicode_column_width,
};
use crate::text::{
    chars_to_string, contains_char, find, has_prefix, spec_find, split_chars, split_on,
    starts_with, str_to_chars, trim, trim_end, trimmed, trimmed_end, trimmed_start,
};

verus! {

// ---------------------------------------------------------------------------
// Types.
// ---------------------------------------------------------------------------

/// How a line of a `diff` / `patch` code block is coloured.
#[derive(Debug, Clone, Copy, PartialEq, Eq, Structural)]
pub enum DiffKind {
    /// Not an added, removed or hunk-header line (also every line of a
    /// block that is not a diff).
    Plain,
    Add,
    Remove,
    Hunk,
}

/// The style of a run of inline text.
#[derive(Debug, Clone, Copy, PartialEq, Eq, Structural)]
pub enum InlineStyle {
    Plain,
    Bold,
    Code,
    Italic,
    /// Syntax-highlighted code, with its foreground colour.
    Highlighted(u8, u8, u8),
}

/// A run of text in one style.
#[derive(Debug, Clone, PartialEq)]
pub struct InlineSpan {
    pub text: String,
    pub style: InlineStyle,
}

/// A span as characters and style.
#[verifier::ext_equal]
pub struct SpanView {
    pub text: Seq<char>,
    pub style: InlineStyle,
}

impl View for InlineSpan {
    type V = SpanView;

    open spec fn view(&self) -> SpanView {
        SpanView { text: self.text@, style: self.style }
    }
}

/// The views of a list of spans.
pub open spec fn spans_view(v: Seq<InlineSpan>) -> Seq<SpanView> {
    v.map_values(|s: InlineSpan| s@)
}

// ---------------------------------------------------------------------------
// Span lists.
// ---------------------------------------------------------------------------

/// Appending `span` to `out`: empty spans are dropped, and a span in the
/// style of the last one is merged into it.
pub open spec fn merge(out: Seq<SpanView>, span: SpanView) -> Seq<SpanView> {
    if span.text.len() == 0 {
        out
    } else if out.len() > 0 && out.last().style == span.style {
        out.drop_last().push(SpanView { text: out.last().text + span.text, style: span.style })
    } else {
        out.push(span)
    }
}

/// Appends `span` to `out`, merging it into the last span when the styles
/// match; this keeps the run count low.
fn merge_push(out: &mut Vec<InlineSpan>, span: InlineSpan)
    ensures
        spans_view(final(out)@) == merge(spans_view(old(out)@), span@),
{
    if span.text.as_str().is_empty() {
        return;
    }
    let n = out.len();
    if n > 0 && out[n - 1].style == span.style {
        let ghost before = spans_view(out@);
        let mut last = out.pop().unwrap();
        last.text.append(span.text.as_str());
        out.push(last);
        assert(spans_view(out@) =~= before.drop_last().push(
            SpanView { text: before.last().text + span@.text, style: span.style },
        ));
    } else {
        let ghost before = spans_view(out@);
        out.push(span);
        assert(spans_view(out@) =~= before.push(span@));
    }
}

/// The text of the spans, concatenated.
pub open spec fn plain_text(spans: Seq<SpanView>) -> Seq<char>
    decreases spans.len(),
{
    if spans.len() == 0 {
        Seq::empty()
    } else {
        plain_text(spans.drop_last()) + spans.last().text
    }
}

/// The text of `segments` without styling.
pub fn segments_to_plain(segments: &[InlineSpan]) -> (s: String)
    ensures
        s@ == plain_text(spans_view(segments@)),
{
    let mut s = String::new();
    let mut i: usize = 0;
    while i < segments.len()
        invariant
            i <= segments@.len(),
            s@ == plain_text(spans_view(segments@.take(i as int))),
        decreases segments@.len() - i,
    {
        assert(spans_view(segments@.take(i + 1)).drop_last() =~= spans_view(segments@.take(i as int)));
        s.append(segments[i].text.as_str());
        i = i + 1;
    }
    assert(segments@.take(segments@.len() as int) =~= segments@);
    s
}

// ---------------------------------------------------------------------------
// Inline markup.
// ---------------------------------------------------------------------------

/// `s` opens with `delim` and a second `delim` closes a non-empty run on
/// the same line: the run and what follows the closer.
pub open spec fn spec_match_paired(s: Seq<char>, delim: Seq<char>) -> Option<(Seq<char>, Seq<char>)> {
    if !starts_with(s, delim) {
        None
    } else {
        let after_open = s.skip(delim.len() as int);
        match spec_find(after_open, delim) {
            None => None,
            Some(close) => {
                let inner = after_open.take(close);
                if close == 0 || inner.contains('\n') {
                    None
                } else {
                    Some((inner, after_open.skip(close + delim.len())))
                }
            },
        }
    }
}

/// Matches a paired delimiter at `start`: the end of the run (which starts
/// after the opener) and the position after the closer.
fn match_paired(s: &[char], start: usize, delim: &[char]) -> (m: Option<(usize, usize)>)
    requires
        start <= s@.len(),
        delim@.len() > 0,
    ensures
        m is None <==> spec_match_paired(s@.skip(start as int), delim@) is None,
        m matches Some((end, next)) ==> {
            &&& start + delim@.len() < end
            &&& end + delim@.len() == next <= s@.len()
            &&& spec_match_paired(s@.skip(start as int), delim@) == Some(
                (s@.subrange(start + delim@.len(), end as int), s@.skip(next as int)),
            )
        },
{
    let ghost rest = s@.skip(start as int);
    let tail = slice_subrange(s, start, s.len());
    assert(tail@ =~= rest);
    if !has_prefix(tail, delim) {
        return None;
    }
    let a = start + delim.len();
    let after_open = slice_subrange(s, a, s.len());
    assert(after_open@ =~= rest.skip(delim@.len() as int));
    match find(after_open, delim) {
        None => None,
        Some(close) => {
            proof {
                crate::text::lemma_find_from_occurs(after_open@, delim@, 0);
            }
            if close == 0 {
                return None;
            }
            let inner = slice_subrange(s, a, a + close);
            assert(inner@ =~= after_open@.take(close as int));
            if contains_char(inner, '\n') {
                return None;
            }
            assert(after_open@.skip(close + delim@.len()) =~= s@.skip(a + close + delim@.len()));
            Some((a + close, a + close + delim.len()))
        },
    }
}

/// `s` opens with `[`, a label without `[` or line break closes with `]`,
/// and `(` then a target on the same line closed by `)` follow: the label
/// and what follows the `)`.
pub open spec fn spec_match_link(s: Seq<char>) -> Option<(Seq<char>, Seq<char>)> {
    if !(s.len() > 0 && s[0] == '[') {
        None
    } else {
        let after_open = s.skip(1);
        match spec_find(after_open, seq![']']) {
            None => None,
            Some(close_label) => {
                let label = after_open.take(close_label);
                let after_label = after_open.skip(close_label + 1);
                if label.contains('\n') || label.contains('[') {
                    None
                } else if !(after_label.len() > 0 && after_label[0] == '(') {
                    None
                } else {
                    let target = after_label.skip(1);
                    match spec_find(target, seq![')']) {
                        None => None,
                        Some(close_paren) => {
                            if target.take(close_paren).contains('\n') {
                                None
                            } else {
                                Some((label, target.skip(close_paren + 1)))
                            }
                        },
                    }
                }
            },
        }
    }
}

/// Matches a link at `start`: the end of its label (which starts after the
/// `[`) and the position after the closing `)`.
fn match_link(s: &[char], start: usize) -> (m: Option<(usize, usize)>)
    requires
        start <= s@.len(),
    ensures
        m is None <==> spec_match_link(s@.skip(start as int)) is None,
        m matches Some((end, next)) ==> {
            &&& start + 1 <= end < next <= s@.len()
            &&& spec_match_link(s@.skip(start as int)) == Some(
                (s@.subrange(start + 1, end as int), s@.skip(next as int)),
            )
        },
{
    let ghost rest = s@.skip(start as int);
    if !(start < s.len() && s[start] == '[') {
        return None;
    }
    let a = start + 1;
    let after_open = slice_subrange(s, a, s.len());
    assert(after_open@ =~= rest.skip(1));
    let close_bracket = [']'];
    let close_label = match find(after_open, close_bracket.as_slice()) {
        None => {
            assert(close_bracket@ =~= seq![']']);
            return None;
        },
        Some(c) => c,
    };
    assert(close_bracket@ =~= seq![']']);
    proof {
        crate::text::lemma_find_from_occurs(after_open@, seq![']'], 0);
    }
    let label = slice_subrange(s, a, a + close_label);
    assert(label@ =~= after_open@.take(close_label as int));
    if contains_char(label, '\n') || contains_char(label, '[') {
        return None;
    }
    let b = a + close_label + 1;
    assert(s@.skip(b as int) =~= after_open@.skip(close_label + 1));
    if !(b < s.len() && s[b] == '(') {
        return None;
    }
    let c = b + 1;
    let target = slice_subrange(s, c, s.len());
    assert(target@ =~= s@.skip(b as int).skip(1));
    let close_paren_pat = [')'];
    let close_paren = match find(target, close_paren_pat.as_slice()) {
        None => {
            assert(close_paren_pat@ =~= seq![')']);
            return None;
        },
        Some(p) => p,
    };
    assert(close_paren_pat@ =~= seq![')']);
    proof {
        crate::text::lemma_find_from_occurs(target@, seq![')'], 0);
    }
    let target_text = slice_subrange(s, c, c + close_paren);
    assert(target_text@ =~= target@.take(close_paren as int));
    if contains_char(target_text, '\n') {
        return None;
    }
    assert(target@.skip(close_paren + 1) =~= s@.skip(c + close_paren + 1));
    Some((a + close_label, c + close_paren + 1))
}

/// The first `*` at or after `i` in `a` that is not doubled (a `**` pair
/// is skipped as a whole).
pub open spec fn single_star_from(a: Seq<char>, i: int) -> Option<int>
    decreases a.len() - i,
{
    if i < 0 || i >= a.len() {
        None
    } else if a[i] != '*' {
        single_star_from(a, i + 1)
    } else if i + 1 < a.len() && a[i + 1] == '*' {
        single_star_from(a, i + 2)
    } else {
        Some(i)
    }
}

proof fn lemma_single_star_from_bounds(a: Seq<char>, i: int)
    ensures
        single_star_from(a, i) matches Some(p) ==> i <= p < a.len() && a[p] == '*',
    decreases a.len() - i,
{
    if i < 0 || i >= a.len() {
    } else if a[i] != '*' {
        lemma_single_star_from_bounds(a, i + 1);
    } else if i + 1 < a.len() && a[i + 1] == '*' {
        lemma_single_star_from_bounds(a, i + 2);
    }
}

/// `s` opens with `*` and a later single `*` (not part of `**`) closes a
/// non-empty run on the same line: the run and what follows the closer.
pub open spec fn spec_match_single_italic(s: Seq<char>) -> Option<(Seq<char>, Seq<char>)> {
    if !(s.len() > 0 && s[0] == '*') {
        None
    } else {
        let after_open = s.skip(1);
        if after_open.len() == 0 {
            None
        } else {
            match single_star_from(after_open, 0) {
                None => None,
                Some(close) => {
                    let inner = after_open.take(close);
                    if close == 0 || inner.contains('\n') {
                        None
                    } else {
                        Some((inner, after_open.skip(close + 1)))
                    }
                },
            }
        }
    }
}

/// Matches `*italic*` at `start`: the end of the run (which starts after
/// the opener) and the position after the closer.
fn match_single_italic(s: &[char], start: usize) -> (m: Option<(usize, usize)>)
    requires
        start <= s@.len(),
    ensures
        m is None <==> spec_match_single_italic(s@.skip(start as int)) is None,
        m matches Some((end, next)) ==> {
            &&& start + 1 < end
            &&& end + 1 == next <= s@.len()
            &&& spec_match_single_italic(s@.skip(start as int)) == Some(
                (s@.subrange(start + 1, end as int), s@.skip(next as int)),
            )
        },
{
    let ghost rest = s@.skip(start as int);
    if !(start < s.len() && s[start] == '*') {
        return None;
    }
    let a = start + 1;
    let ghost after_open = rest.skip(1);
    assert(after_open =~= s@.skip(a as int));
    if a >= s.len() {
        return None;
    }
    let mut i: usize = a;
    while i < s.len() && (s[i] != '*' || (i + 1 < s.len() && s[i + 1] == '*'))
        invariant
            a <= i <= s@.len(),
            a < s@.len(),
            after_open == s@.skip(a as int),
            single_star_from(after_open, 0) == single_star_from(after_open, i - a),
        decreases s@.len() - i,
    {
        if s[i] != '*' {
            i = i + 1;
        } else {
            i = i + 2;
        }
    }
    if i >= s.len() {
        return None;
    }
    proof {
        lemma_single_star_from_bounds(after_open, 0);
    }
    if i == a {
        return None;
    }
    let inner = slice_subrange(s, a, i);
    assert(inner@ =~= after_open.take(i - a));
    if contains_char(inner, '\n') {
        return None;
    }
    assert(after_open.skip(i - a + 1) =~= s@.skip(i + 1));
    Some((i, i + 1))
}

/// `**bold**`, else `__bold__`.
pub open spec fn bold_match(rest: Seq<char>) -> Option<(Seq<char>, Seq<char>)> {
    match spec_match_paired(rest, seq!['*', '*']) {
        Some(m) => Some(m),
        None => spec_match_paired(rest, seq!['_', '_']),
    }
}

/// A single `*` (not `**`) not followed by a space or tab may open
/// italics; a `*` before whitespace is usually a stray one.
pub open spec fn italic_candidate(rest: Seq<char>) -> bool {
    &&& rest.len() > 0
    &&& rest[0] == '*'
    &&& !(rest.len() > 1 && (rest[1] == '*' || rest[1] == ' ' || rest[1] == '\t'))
}

/// One step of inline tokenizing at the start of `rest` (non-empty): the
/// style of the span it produces (`None` for text that joins the plain
/// run), the text, and what is left. Bold, code, strike-through (markers
/// dropped), italics and links (label kept, target dropped) are tried in
/// that order; otherwise one character is taken literally.
pub open spec fn inline_step(rest: Seq<char>) -> (Option<InlineStyle>, Seq<char>, Seq<char>) {
    match bold_match(rest) {
        Some((inner, after)) => (Some(InlineStyle::Bold), inner, after),
        None => match spec_match_paired(rest, seq!['`']) {
            Some((inner, after)) => (Some(InlineStyle::Code), inner, after),
            None => match spec_match_paired(rest, seq!['~', '~']) {
                Some((inner, after)) => (None, inner, after),
                None => match (if italic_candidate(rest) {
                    spec_match_single_italic(rest)
                } else {
                    None
                }) {
                    Some((inner, after)) => (Some(InlineStyle::Italic), inner, after),
                    None => match spec_match_link(rest) {
                        Some((label, after)) => (None, label, after),
                        None => (None, seq![rest[0]], rest.skip(1)),
                    },
                },
            },
        },
    }
}

pub proof fn lemma_paired_shrinks(s: Seq<char>, delim: Seq<char>)
    requires
        delim.len() > 0,
    ensures
        spec_match_paired(s, delim) matches Some((inner, after)) ==> after.len() < s.len(),
{
    crate::text::lemma_find_from_occurs(s.skip(delim.len() as int), delim, 0);
}

pub proof fn lemma_link_shrinks(s: Seq<char>)
    ensures
        spec_match_link(s) matches Some((label, after)) ==> after.len() < s.len(),
{
    if s.len() > 0 && s[0] == '[' {
        let after_open = s.skip(1);
        crate::text::lemma_find_from_occurs(after_open, seq![']'], 0);
        if let Some(close_label) = spec_find(after_open, seq![']']) {
            let after_label = after_open.skip(close_label + 1);
            crate::text::lemma_find_from_occurs(after_label.skip(1), seq![')'], 0);
        }
    }
}

pub proof fn lemma_italic_shrinks(s: Seq<char>)
    ensures
        spec_match_single_italic(s) matches Some((inner, after)) ==> after.len() < s.len(),
{
    lemma_single_star_from_bounds(s.skip(1), 0);
}

pub proof fn lemma_inline_step_shrinks(rest: Seq<char>)
    requires
        rest.len() > 0,
    ensures
        inline_step(rest).2.len() < rest.len(),
{
    lemma_paired_shrinks(rest, seq!['*', '*']);
    lemma_paired_shrinks(rest, seq!['_', '_']);
    lemma_paired_shrinks(rest, seq!['`']);
    lemma_paired_shrinks(rest, seq!['~', '~']);
    lemma_italic_shrinks(rest);
    lemma_link_shrinks(rest);
}

/// Closes the plain run: it becomes a plain span.
pub open spec fn flush(out: Seq<SpanView>, plain: Seq<char>) -> Seq<SpanView> {
    merge(out, SpanView { text: plain, style: InlineStyle::Plain })
}

/// Tokenizing `rest`, with `out` produced so far and `plain` the pending
/// plain run.
pub open spec fn tokenize_from(rest: Seq<char>, out: Seq<SpanView>, plain: Seq<char>) -> Seq<
    SpanView,
>
    decreases rest.len(),
{
    if rest.len() == 0 {
        flush(out, plain)
    } else {
        let step = inline_step(rest);
        proof {
            lemma_inline_step_shrinks(rest);
        }
        match step.0 {
            Some(style) => tokenize_from(
                step.2,
                merge(flush(out, plain), SpanView { text: step.1, style }),
                Seq::empty(),
            ),
            None => tokenize_from(step.2, out, plain + step.1),
        }
    }
}

/// The styled spans of one line of text.
pub open spec fn spec_tokenize_inline(text: Seq<char>) -> Seq<SpanView> {
    tokenize_from(text, Seq::empty(), Seq::empty())
}

/// The step of `inline_step` at `pos`: its style, the bounds of its text,
/// and the position after it.
fn next_inline(
    s: &[char],
    pos: usize,
    bold_stars: &[char],
    bold_underscores: &[char],
    tick: &[char],
    tildes: &[char],
) -> (r: (Option<InlineStyle>, usize, usize, usize))
    requires
        pos < s@.len(),
        bold_stars@ == seq!['*', '*'],
        bold_underscores@ == seq!['_', '_'],
        tick@ == seq!['`'],
        tildes@ == seq!['~', '~'],
    ensures
        r.1 <= r.2 <= s@.len(),
        pos < r.3 <= s@.len(),
        inline_step(s@.skip(pos as int)) == (r.0, s@.subrange(r.1 as int, r.2 as int), s@.skip(
            r.3 as int,
        )),
{
    let ghost rest = s@.skip(pos as int);
    if let Some((end, next)) = match_paired(s, pos, bold_stars) {
        return (Some(InlineStyle::Bold), pos + 2, end, next);
    }
    if let Some((end, next)) = match_paired(s, pos, bold_underscores) {
        return (Some(InlineStyle::Bold), pos + 2, end, next);
    }
    if let Some((end, next)) = match_paired(s, pos, tick) {
        return (Some(InlineStyle::Code), pos + 1, end, next);
    }
    if let Some((end, next)) = match_paired(s, pos, tildes) {
        return (None, pos + 2, end, next);
    }
    let candidate = s[pos] == '*' && !(pos + 1 < s.len() && (s[pos + 1] == '*' || s[pos + 1] == ' '
        || s[pos + 1] == '\t'));
    assert(candidate == italic_candidate(rest));
    if candidate {
        if let Some((end, next)) = match_single_italic(s, pos) {
            return (Some(InlineStyle::Italic), pos + 1, end, next);
        }
    }
    if let Some((end, next)) = match_link(s, pos) {
        return (None, pos + 1, end, next);
    }
    assert(s@.subrange(pos as int, pos + 1) =~= seq![rest[0]]);
    assert(s@.skip(pos + 1) =~= rest.skip(1));
    (None, pos, pos + 1, pos + 1)
}

/// Splits one line into styled spans. Pairs are matched greedily left to
/// right; an unclosed opener stays literal text.
pub fn tokenize_inline(text: &str) -> (spans: Vec<InlineSpan>)
    ensures
        spans_view(spans@) == spec_tokenize_inline(text@),
{
    let s = str_to_chars(text);
    let bold_stars = str_to_chars("**");
    let bold_underscores = str_to_chars("__");
    let tick = str_to_chars("`");
    let tildes = str_to_chars("~~");
    proof {
        reveal_strlit("**");
        reveal_strlit("__");
        reveal_strlit("`");
        reveal_strlit("~~");
        assert(bold_stars@ =~= seq!['*', '*']);
        assert(bold_underscores@ =~= seq!['_', '_']);
        assert(tick@ =~= seq!['`']);
        assert(tildes@ =~= seq!['~', '~']);
    }
    let mut out: Vec<InlineSpan> = Vec::new();
    let mut plain: Vec<char> = Vec::new();
    let mut pos: usize = 0;
    assert(s@.skip(0) =~= s@);
    assert(spans_view(out@) =~= Seq::<SpanView>::empty());
    assert(plain@ =~= Seq::<char>::empty());
    while pos < s.len()
        invariant
            pos <= s@.len(),
            s@ == text@,
            bold_stars@ == seq!['*', '*'],
            bold_underscores@ == seq!['_', '_'],
            tick@ == seq!['`'],
            tildes@ == seq!['~', '~'],
            tokenize_from(s@.skip(pos as int), spans_view(out@), plain@) == spec_tokenize_inline(
                text@,
            ),
        decreases s@.len() - pos,
    {
        let (style, ts, te, next) = next_inline(
            s.as_slice(),
            pos,
            bold_stars.as_slice(),
            bold_underscores.as_slice(),
            tick.as_slice(),
            tildes.as_slice(),
        );
        let piece = slice_subrange(s.as_slice(), ts, te);
        match style {
            Some(st) => {
                let pending = chars_to_string(plain.as_slice());
                merge_push(&mut out, InlineSpan { text: pending, style: InlineStyle::Plain });
                plain = Vec::new();
                merge_push(&mut out, InlineSpan { text: chars_to_string(piece), style: st });
            },
            None => {
                crate::text::push_all(&mut plain, piece);
            },
        }
        pos = next;
    }
    let pending = chars_to_string(plain.as_slice());
    merge_push(&mut out, InlineSpan { text: pending, style: InlineStyle::Plain });
    out
}

// ---------------------------------------------------------------------------
// Blocks.
// ---------------------------------------------------------------------------

/// A rendered block of a chat message.
#[derive(Debug, Clone, PartialEq)]
pub enum MdBlock {
    Blank,
    /// A horizontal rule.
    Hr,
    Heading { level: u8, text: String },
    Quote(String),
    ListItem { marker: String, text: String },
    Paragraph(String),
    /// A line inside a fenced code block, with the fence's language tag.
    CodeLine { text: String, diff: DiffKind, lang: String },
}

/// A block with its strings as characters.
pub enum MdBlockView {
    Blank,
    Hr,
    Heading { level: u8, text: Seq<char> },
    Quote(Seq<char>),
    ListItem { marker: Seq<char>, text: Seq<char> },
    Paragraph(Seq<char>),
    CodeLine { text: Seq<char>, diff: DiffKind, lang: Seq<char> },
}

impl View for MdBlock {
    type V = MdBlockView;

    open spec fn view(&self) -> MdBlockView {
        match self {
            MdBlock::Blank => MdBlockView::Blank,
            MdBlock::Hr => MdBlockView::Hr,
            MdBlock::Heading { level, text } => MdBlockView::Heading { level: *level, text: text@ },
            MdBlock::Quote(text) => MdBlockView::Quote(text@),
            MdBlock::ListItem { marker, text } => MdBlockView::ListItem {
                marker: marker@,
                text: text@,
            },
            MdBlock::Paragraph(text) => MdBlockView::Paragraph(text@),
            MdBlock::CodeLine { text, diff, lang } => MdBlockView::CodeLine {
                text: text@,
                diff: *diff,
                lang: lang@,
            },
        }
    }
}

/// The views of a list of blocks.
pub open spec fn blocks_view(v: Seq<MdBlock>) -> Seq<MdBlockView> {
    v.map_values(|b: MdBlock| b@)
}

/// How a line of a diff is coloured: file and hunk headers, added lines
/// (`+` but not `++`), removed lines (`-` but not `--`), and the rest.
pub open spec fn spec_classify_diff_line(line: Seq<char>) -> DiffKind {
    if starts_with(line, seq!['+', '+', '+', ' ']) || starts_with(line, seq!['-', '-', '-', ' '])
        || starts_with(line, seq!['@', '@', ' ']) {
        DiffKind::Hunk
    } else if starts_with(line, seq!['+']) && !starts_with(line, seq!['+', '+']) {
        DiffKind::Add
    } else if starts_with(line, seq!['-']) && !starts_with(line, seq!['-', '-']) {
        DiffKind::Remove
    } else {
        DiffKind::Plain
    }
}

/// Classifies a line of a `diff` / `patch` block.
fn classify_diff_line(line: &[char]) -> (kind: DiffKind)
    ensures
        kind == spec_classify_diff_line(line@),
{
    let plus3 = ['+', '+', '+', ' '];
    let minus3 = ['-', '-', '-', ' '];
    let at2 = ['@', '@', ' '];
    let plus = ['+'];
    let plus2 = ['+', '+'];
    let minus = ['-'];
    let minus2 = ['-', '-'];
    assert(plus3@ =~= seq!['+', '+', '+', ' ']);
    assert(minus3@ =~= seq!['-', '-', '-', ' ']);
    assert(at2@ =~= seq!['@', '@', ' ']);
    assert(plus@ =~= seq!['+']);
    assert(plus2@ =~= seq!['+', '+']);
    assert(minus@ =~= seq!['-']);
    assert(minus2@ =~= seq!['-', '-']);
    if has_prefix(line, plus3.as_slice()) || has_prefix(line, minus3.as_slice()) || has_prefix(
        line,
        at2.as_slice(),
    ) {
        DiffKind::Hunk
    } else if has_prefix(line, plus.as_slice()) && !has_prefix(line, plus2.as_slice()) {
        DiffKind::Add
    } else if has_prefix(line, minus.as_slice()) && !has_prefix(line, minus2.as_slice()) {
        DiffKind::Remove
    } else {
        DiffKind::Plain
    }
}

/// How many times `c` occurs in `s`.
pub open spec fn count_char(s: Seq<char>, c: char) -> nat
    decreases s.len(),
{
    if s.len() == 0 {
        0
    } else {
        count_char(s.drop_last(), c) + (if s.last() == c {
            1nat
        } else {
            0nat
        })
    }
}

/// How many `|` the row holds.
fn count_pipes(s: &[char]) -> (n: usize)
    ensures
        n == count_char(s@, '|'),
{
    let mut n: usize = 0;
    let mut i: usize = 0;
    while i < s.len()
        invariant
            i <= s@.len(),
            n <= i,
            n == count_char(s@.take(i as int), '|'),
        decreases s@.len() - i,
    {
        assert(s@.take(i + 1).drop_last() =~= s@.take(i as int));
        if s[i] == '|' {
            n = n + 1;
        }
        i = i + 1;
    }
    assert(s@.take(s@.len() as int) =~= s@);
    n
}

/// A table row without surrounding whitespace and without one leading and
/// one trailing `|`.
pub open spec fn table_body(s: Seq<char>) -> Seq<char> {
    let t = trim(s);
    let a = if t.len() > 0 && t[0] == '|' {
        t.skip(1)
    } else {
        t
    };
    if a.len() > 0 && a.last() == '|' {
        a.drop_last()
    } else {
        a
    }
}

fn table_body_chars(s: &[char]) -> (body: Vec<char>)
    ensures
        body@ == table_body(s@),
{
    let t = trimmed(s);
    let start: usize = if t.len() > 0 && t[0] == '|' {
        1
    } else {
        0
    };
    let end: usize = if t.len() > start && t[t.len() - 1] == '|' {
        t.len() - 1
    } else {
        t.len()
    };
    let body = crate::text::sub_vec(t.as_slice(), start, end);
    assert(body@ =~= table_body(s@));
    body
}

/// The cells of a table row, each trimmed.
pub open spec fn table_cells(s: Seq<char>) -> Seq<Seq<char>> {
    split_on(table_body(s), '|').map_values(|c: Seq<char>| trim(c))
}

/// Splits a table row into its trimmed cells.
fn split_table_cells(s: &[char]) -> (cells: Vec<Vec<char>>)
    ensures
        cells@.map_values(|v: Vec<char>| v@) == table_cells(s@),
{
    let body = table_body_chars(s);
    let pieces = split_chars(body.as_slice(), '|');
    let ghost ps = split_on(table_body(s@), '|');
    let mut cells: Vec<Vec<char>> = Vec::new();
    let mut i: usize = 0;
    while i < pieces.len()
        invariant
            i <= pieces@.len(),
            pieces@.map_values(|v: Vec<char>| v@) == ps,
            ps == split_on(table_body(s@), '|'),
            cells@.map_values(|v: Vec<char>| v@) == ps.take(i as int).map_values(|c: Seq<char>| trim(c)),
        decreases pieces@.len() - i,
    {
        let ghost before = cells@.map_values(|v: Vec<char>| v@);
        let c = trimmed(pieces[i].as_slice());
        let ghost cv = c@;
        assert(cv == trim(ps[i as int]));
        cells.push(c);
        assert(cells@.map_values(|v: Vec<char>| v@) =~= before.push(cv));
        i = i + 1;
        assert(ps.take(i as int).map_values(|c: Seq<char>| trim(c)) =~= ps.take(i - 1).map_values(
            |c: Seq<char>| trim(c),
        ).push(cv));
    }
    assert(ps.take(pieces@.len() as int) =~= ps);
    cells
}

/// A cell of a separator row: dashes, colons and spaces, at least one dash.
pub open spec fn is_separator_cell(c: Seq<char>) -> bool {
    &&& c.len() > 0
    &&& forall|j: int| 0 <= j < c.len() ==> c[j] == '-' || c[j] == ':' || c[j] == ' '
    &&& c.contains('-')
}

/// The row under a table header: every cell a separator cell.
pub open spec fn spec_is_separator_row(s: Seq<char>) -> bool {
    &&& table_body(s).len() > 0
    &&& forall|k: int| 0 <= k < table_cells(s).len() ==> is_separator_cell(#[trigger] table_cells(s)[k])
}

fn is_separator_cell_chars(c: &[char]) -> (b: bool)
    ensures
        b == is_separator_cell(c@),
{
    if c.len() == 0 {
        return false;
    }
    let mut has_dash = false;
    let mut i: usize = 0;
    while i < c.len()
        invariant
            i <= c@.len(),
            forall|j: int| 0 <= j < i ==> c@[j] == '-' || c@[j] == ':' || c@[j] == ' ',
            has_dash == c@.take(i as int).contains('-'),
        decreases c@.len() - i,
    {
        let ch = c[i];
        if !(ch == '-' || ch == ':' || ch == ' ') {
            return false;
        }
        proof {
            let t = c@.take(i as int);
            assert(c@.take(i + 1) =~= t.push(ch));
            if t.contains('-') {
                let k = choose|k: int| 0 <= k < t.len() && #[trigger] t[k] == '-';
                assert(t.push(ch)[k] == '-');
            }
            if ch == '-' {
                assert(t.push(ch)[i as int] == '-');
            }
            if t.push(ch).contains('-') {
                let k = choose|k: int| 0 <= k < t.push(ch).len() && #[trigger] t.push(ch)[k] == '-';
                if k < i {
                    assert(t[k] == '-');
                }
            }
        }
        has_dash = has_dash || ch == '-';
        i = i + 1;
    }
    assert(c@.take(c@.len() as int) =~= c@);
    has_dash
}

/// Whether the row separates a table header from its data.
fn is_separator_row(s: &[char]) -> (b: bool)
    ensures
        b == spec_is_separator_row(s@),
{
    let body = table_body_chars(s);
    if body.len() == 0 {
        return false;
    }
    let cells = split_table_cells(s);
    let ghost cs = table_cells(s@);
    let mut i: usize = 0;
    while i < cells.len()
        invariant
            i <= cells@.len(),
            cells@.map_values(|v: Vec<char>| v@) == cs,
            cs == table_cells(s@),
            forall|k: int| 0 <= k < i ==> is_separator_cell(#[trigger] cs[k]),
        decreases cells@.len() - i,
    {
        if !is_separator_cell_chars(cells[i].as_slice()) {
            assert(cs[i as int] == cells@[i as int]@);
            return false;
        }
        assert(cs[i as int] == cells@[i as int]@);
        i = i + 1;
    }
    true
}

/// An ATX heading: one or more hashes and a space, five or more counting
/// as level 4; its level and the text after the space.
pub open spec fn spec_parse_heading_prefix(s: Seq<char>) -> Option<(u8, Seq<char>)> {
    let n = leading_run_end(s, '#', 0);
    if 1 <= n < s.len() && s[n] == ' ' {
        Some(
            (
                if n >= 4 {
                    4u8
                } else {
                    n as u8
                },
                s.skip(n + 1),
            ),
        )
    } else {
        None
    }
}

/// Parses an ATX heading prefix: the level and where the text starts.
fn parse_heading_prefix(s: &[char]) -> (h: Option<(u8, usize)>)
    ensures
        h is None <==> spec_parse_heading_prefix(s@) is None,
        h matches Some((level, start)) ==> start <= s@.len() && spec_parse_heading_prefix(s@) == Some(
            (level, s@.skip(start as int)),
        ),
{
    let mut i: usize = 0;
    while i < s.len() && s[i] == '#'
        invariant
            i <= s@.len(),
            leading_run_end(s@, '#', 0) == leading_run_end(s@, '#', i as int),
        decreases s@.len() - i,
    {
        i = i + 1;
    }
    assert(leading_run_end(s@, '#', 0) == i);
    if i >= 1 && i < s.len() && s[i] == ' ' {
        let level: u8 = if i >= 4 {
            4
        } else {
            i as u8
        };
        Some((level, i + 1))
    } else {
        None
    }
}

/// An ASCII digit.
pub open spec fn is_ascii_digit(c: char) -> bool {
    '0' <= c <= '9'
}

/// The first position at or after `i` that does not hold an ASCII digit
/// (the length when there is none).
pub open spec fn first_non_digit_from(s: Seq<char>, i: int) -> int
    decreases s.len() - i,
{
    if i < 0 || i >= s.len() {
        s.len() as int
    } else if !is_ascii_digit(s[i]) {
        i
    } else {
        first_non_digit_from(s, i + 1)
    }
}

/// An ordered list item: one to three digits, `. `, then the text. A line
/// of digits only is no list item.
pub open spec fn spec_split_numbered_list(s: Seq<char>) -> Option<(Seq<char>, Seq<char>)> {
    let end = first_non_digit_from(s, 0);
    if end == s.len() || end == 0 || end > 3 {
        None
    } else if starts_with(s.skip(end), seq!['.', ' ']) {
        Some((s.take(end), s.skip(end + 2)))
    } else {
        None
    }
}

/// Splits an ordered list item into its number and text.
fn split_numbered_list(s: &[char]) -> (m: Option<(usize, usize)>)
    ensures
        m is None <==> spec_split_numbered_list(s@) is None,
        m matches Some((end, start)) ==> end < start <= s@.len() && spec_split_numbered_list(s@)
            == Some((s@.take(end as int), s@.skip(start as int))),
{
    let mut i: usize = 0;
    while i < s.len() && '0' <= s[i] && s[i] <= '9'
        invariant
            i <= s@.len(),
            first_non_digit_from(s@, 0) == first_non_digit_from(s@, i as int),
        decreases s@.len() - i,
    {
        i = i + 1;
    }
    if i == s.len() || i == 0 || i > 3 {
        return None;
    }
    let dot_space = ['.', ' '];
    assert(dot_space@ =~= seq!['.', ' ']);
    let rest = slice_subrange(s, i, s.len());
    assert(rest@ =~= s@.skip(i as int));
    if !has_prefix(rest, dot_space.as_slice()) {
        return None;
    }
    Some((i, i + 2))
}

/// Where the data rows of a table with `cols` columns stop, from row `i`:
/// at the first row that is blank, holds fewer than two `|`, or has
/// another number of cells.
pub open spec fn table_rows_end(lines: Seq<Seq<char>>, i: int, cols: nat) -> int
    decreases lines.len() - i,
{
    if i < 0 || i >= lines.len() {
        i
    } else {
        let row = trim(lines[i]);
        if row.len() == 0 || count_char(row, '|') < 2 || table_cells(row).len() != cols {
            i
        } else {
            table_rows_end(lines, i + 1, cols)
        }
    }
}

pub proof fn lemma_table_rows_end_bounds(lines: Seq<Seq<char>>, i: int, cols: nat)
    ensures
        i <= table_rows_end(lines, i, cols),
        0 <= i <= lines.len() ==> table_rows_end(lines, i, cols) <= lines.len(),
    decreases lines.len() - i,
{
    if !(i < 0 || i >= lines.len()) {
        lemma_table_rows_end_bounds(lines, i + 1, cols);
    }
}

/// The cells of the rows `start..end`.
pub open spec fn table_rows(lines: Seq<Seq<char>>, start: int, end: int) -> Seq<Seq<Seq<char>>> {
    Seq::new((end - start) as nat, |k: int| table_cells(trim(lines[start + k])))
}

/// The detail lines of a row for its cells `1..n`: `  header：cell` for
/// each non-empty cell.
pub open spec fn detail_blocks(headers: Seq<Seq<char>>, row: Seq<Seq<char>>, n: int) -> Seq<
    MdBlockView,
>
    decreases n,
{
    if n <= 1 {
        Seq::empty()
    } else {
        let prev = detail_blocks(headers, row, n - 1);
        let cell = row[n - 1];
        if cell.len() == 0 {
            prev
        } else {
            prev.push(
                MdBlockView::Paragraph(seq![' ', ' '] + headers[n - 1] + seq!['\u{ff1a}'] + cell),
            )
        }
    }
}

/// A table row as blocks: its first cell as a label, a detail line per
/// other non-empty cell, and a blank line.
pub open spec fn row_blocks(headers: Seq<Seq<char>>, row: Seq<Seq<char>>) -> Seq<MdBlockView> {
    seq![MdBlockView::Paragraph(row[0])] + detail_blocks(headers, row, row.len() as int) + seq![
        MdBlockView::Blank,
    ]
}

/// The line a table row gives for its column `ci`, if any: for a non-empty
/// cell, the column's own header, a fullwidth colon and the cell, indented
/// by two spaces.
pub open spec fn column_detail(headers: Seq<Seq<char>>, row: Seq<Seq<char>>) -> spec_fn(int) -> Option<
    MdBlockView,
> {
    |ci: int|
        if row[ci].len() > 0 {
            Some(MdBlockView::Paragraph(seq![' ', ' '] + headers[ci] + seq!['\u{ff1a}'] + row[ci]))
        } else {
            None
        }
}

/// The columns `1..n` in order.
pub open spec fn later_columns(n: int) -> Seq<int> {
    Seq::new((n - 1) as nat, |k: int| k + 1)
}

proof fn lemma_detail_blocks_by_column(headers: Seq<Seq<char>>, row: Seq<Seq<char>>, n: int)
    requires
        1 <= n <= row.len(),
    ensures
        detail_blocks(headers, row, n) == later_columns(n).filter_map(column_detail(headers, row)),
    decreases n,
{
    let cols = later_columns(n);
    if n == 1 {
        assert(cols =~= Seq::<int>::empty());
    } else {
        lemma_detail_blocks_by_column(headers, row, n - 1);
        assert(cols.drop_last() =~= later_columns(n - 1));
        assert(cols.last() == n - 1);
        let prev = detail_blocks(headers, row, n - 1);
        if row[n - 1].len() > 0 {
            let par = MdBlockView::Paragraph(seq![' ', ' '] + headers[n - 1] + seq!['\u{ff1a}'] + row[n - 1]);
            assert((column_detail(headers, row))(n - 1) == Some(par));
            assert(prev.push(par) =~= prev + seq![par]);
        } else {
            assert((column_detail(headers, row))(n - 1) is None);
        }
    }
}

/// A table row reads as its first cell, then, for each later column in
/// order whose cell is not empty, a detail line naming that column's own
/// header and its cell, then a blank line.
pub proof fn law_table_row_details_name_their_columns(headers: Seq<Seq<char>>, row: Seq<Seq<char>>)
    requires
        row.len() >= 1,
    ensures
        row_blocks(headers, row) == seq![MdBlockView::Paragraph(row[0])] + later_columns(
            row.len() as int,
        ).filter_map(column_detail(headers, row)) + seq![MdBlockView::Blank],
{
    lemma_detail_blocks_by_column(headers, row, row.len() as int);
}

/// The blocks of all data rows.
pub open spec fn rows_blocks(headers: Seq<Seq<char>>, rows: Seq<Seq<Seq<char>>>) -> Seq<MdBlockView>
    decreases rows.len(),
{
    if rows.len() == 0 {
        Seq::empty()
    } else {
        rows_blocks(headers, rows.drop_last()) + row_blocks(headers, rows.last())
    }
}

/// A pipe table at `start`: a header row of at least two cells, a
/// separator row of as many cells, and at least one data row of as many
/// cells. The table becomes one label paragraph per row with its other
/// cells as `header：value` lines (a narrow overlay cannot draw a grid);
/// also how many lines it spans.
pub open spec fn spec_try_parse_pipe_table(lines: Seq<Seq<char>>, start: int) -> Option<
    (Seq<MdBlockView>, int),
> {
    if start < 0 || start + 2 > lines.len() {
        None
    } else {
        let header = trim(lines[start]);
        let sep = trim(lines[start + 1]);
        let headers = table_cells(header);
        if count_char(header, '|') < 2 || !spec_is_separator_row(sep) {
            None
        } else if headers.len() != table_cells(sep).len() || headers.len() < 2 {
            None
        } else {
            let end = table_rows_end(lines, start + 2, headers.len());
            if end == start + 2 {
                None
            } else {
                Some((rows_blocks(headers, table_rows(lines, start + 2, end)), end - start))
            }
        }
    }
}

/// The views of a list of character vectors.
pub open spec fn lines_view(v: Seq<Vec<char>>) -> Seq<Seq<char>> {
    v.map_values(|l: Vec<char>| l@)
}

/// The blocks of one table row.
fn push_row_blocks(out: &mut Vec<MdBlock>, headers: &Vec<Vec<char>>, row: &Vec<Vec<char>>)
    requires
        row@.len() >= 1,
        row@.len() <= headers@.len(),
    ensures
        blocks_view(final(out)@) == blocks_view(old(out)@) + row_blocks(
            lines_view(headers@),
            lines_view(row@),
        ),
{
    let ghost hv = lines_view(headers@);
    let ghost rv = lines_view(row@);
    let ghost start = blocks_view(out@);
    out.push(MdBlock::Paragraph(chars_to_string(row[0].as_slice())));
    assert(blocks_view(out@) =~= start + seq![MdBlockView::Paragraph(rv[0])] + detail_blocks(hv, rv, 1));
    let mut ci: usize = 1;
    while ci < row.len()
        invariant
            1 <= ci <= row@.len() <= headers@.len(),
            hv == lines_view(headers@),
            rv == lines_view(row@),
            blocks_view(out@) == start + seq![MdBlockView::Paragraph(rv[0])] + detail_blocks(
                hv,
                rv,
                ci as int,
            ),
        decreases row@.len() - ci,
    {
        let cell = &row[ci];
        assert(cell@ == rv[ci as int]);
        if cell.len() > 0 {
            let mut text: Vec<char> = Vec::new();
            text.push(' ');
            text.push(' ');
            crate::text::push_all(&mut text, headers[ci].as_slice());
            text.push('\u{ff1a}');
            crate::text::push_all(&mut text, cell.as_slice());
            assert(text@ =~= seq![' ', ' '] + hv[ci as int] + seq!['\u{ff1a}'] + rv[ci as int]);
            let ghost before = blocks_view(out@);
            let block = MdBlock::Paragraph(chars_to_string(text.as_slice()));
            let ghost bv = block@;
            out.push(block);
            assert(blocks_view(out@) =~= before.push(bv));
        }
        ci = ci + 1;
    }
    let ghost before = blocks_view(out@);
    out.push(MdBlock::Blank);
    assert(blocks_view(out@) =~= before.push(MdBlockView::Blank));
}

/// Parses a pipe table starting at line `start`: its blocks and how many
/// lines it spans.
fn try_parse_pipe_table(lines: &Vec<Vec<char>>, start: usize) -> (t: Option<(Vec<MdBlock>, usize)>)
    requires
        start <= lines@.len(),
    ensures
        t is None <==> spec_try_parse_pipe_table(lines_view(lines@), start as int) is None,
        t matches Some((blocks, consumed)) ==> spec_try_parse_pipe_table(
            lines_view(lines@),
            start as int,
        ) == Some((blocks_view(blocks@), consumed as int)),
{
    let ghost lv = lines_view(lines@);
    if lines.len() < 2 || start > lines.len() - 2 {
        return None;
    }
    let header = trimmed(lines[start].as_slice());
    assert(lines@[start as int]@ == lv[start as int]);
    assert(lines@[start + 1]@ == lv[start + 1]);
    let sep = trimmed(lines[start + 1].as_slice());
    if count_pipes(header.as_slice()) < 2 || !is_separator_row(sep.as_slice()) {
        return None;
    }
    let headers = split_table_cells(header.as_slice());
    let sep_cells = split_table_cells(sep.as_slice());
    if headers.len() != sep_cells.len() || headers.len() < 2 {
        return None;
    }
    let col_count = headers.len();
    let mut rows: Vec<Vec<Vec<char>>> = Vec::new();
    let mut end = start + 2;
    proof {
        lemma_table_rows_end_bounds(lv, (start + 2) as int, col_count as nat);
    }
    while end < lines.len()
        invariant_except_break
            lv == lines_view(lines@),
            start + 2 <= end <= lines@.len(),
            table_rows_end(lv, (start + 2) as int, col_count as nat) == table_rows_end(
                lv,
                end as int,
                col_count as nat,
            ),
            rows@.len() == end - start - 2,
            forall|k: int|
                0 <= k < rows@.len() ==> lines_view(#[trigger] rows@[k]@) == table_cells(
                    trim(lv[start + 2 + k]),
                ),
            forall|k: int| 0 <= k < rows@.len() ==> (#[trigger] rows@[k])@.len() == col_count,
        ensures
            lv == lines_view(lines@),
            start + 2 <= end <= lines@.len(),
            table_rows_end(lv, (start + 2) as int, col_count as nat) == end,
            rows@.len() == end - start - 2,
            forall|k: int|
                0 <= k < rows@.len() ==> lines_view(#[trigger] rows@[k]@) == table_cells(
                    trim(lv[start + 2 + k]),
                ),
            forall|k: int| 0 <= k < rows@.len() ==> (#[trigger] rows@[k])@.len() == col_count,
        decreases lines@.len() - end,
    {
        assert(lines@[end as int]@ == lv[end as int]);
        let row = trimmed(lines[end].as_slice());
        if row.len() == 0 || count_pipes(row.as_slice()) < 2 {
            break;
        }
        let cells = split_table_cells(row.as_slice());
        if cells.len() != col_count {
            break;
        }
        rows.push(cells);
        end = end + 1;
    }
    if rows.len() == 0 {
        return None;
    }
    let ghost hv = lines_view(headers@);
    let ghost all_rows = table_rows(lv, (start + 2) as int, end as int);
    let mut blocks: Vec<MdBlock> = Vec::new();
    let mut r: usize = 0;
    assert(blocks_view(blocks@) =~= rows_blocks(hv, all_rows.take(0)));
    while r < rows.len()
        invariant
            r <= rows@.len(),
            rows@.len() == all_rows.len(),
            hv == lines_view(headers@),
            headers@.len() == col_count,
            col_count >= 2,
            all_rows == table_rows(lv, (start + 2) as int, end as int),
            forall|k: int| 0 <= k < rows@.len() ==> lines_view(#[trigger] rows@[k]@) == all_rows[k],
            forall|k: int| 0 <= k < rows@.len() ==> (#[trigger] rows@[k])@.len() == col_count,
            blocks_view(blocks@) == rows_blocks(hv, all_rows.take(r as int)),
        decreases rows@.len() - r,
    {
        assert(all_rows.take(r + 1).drop_last() =~= all_rows.take(r as int));
        assert(lines_view(rows@[r as int]@) == all_rows[r as int]);
        push_row_blocks(&mut blocks, &headers, &rows[r]);
        r = r + 1;
    }
    assert(all_rows.take(rows@.len() as int) =~= all_rows);
    Some((blocks, end - start))
}

/// The lowercase mapping of `s` as `str::to_lowercase` computes it
/// (Unicode `Lowercase` mapping; it depends on `s` alone).
pub uninterp spec fn lowercase(s: Seq<char>) -> Seq<char>;

/// `str::to_lowercase`; the result is named `lowercase` and nothing more is
/// claimed of it.
#[verifier::external_body]
fn str_to_lowercase(s: &str) -> (out: String)
    ensures
        out@ == lowercase(s@),
{
    s.to_lowercase()
}

/// The lowercase form of the characters `s`.
fn to_lowercase(s: &[char]) -> (out: Vec<char>)
    ensures
        out@ == lowercase(s@),
{
    let text = chars_to_string(s);
    let lower = str_to_lowercase(text.as_str());
    str_to_chars(lower.as_str())
}

/// The first position at or after `i` that does not hold `c`.
pub open spec fn leading_run_end(s: Seq<char>, c: char, i: int) -> int
    decreases s.len() - i,
{
    if i < 0 || i >= s.len() {
        s.len() as int
    } else if s[i] != c {
        i
    } else {
        leading_run_end(s, c, i + 1)
    }
}

/// `s` without its leading run of `c` (as `str::trim_start_matches`).
pub open spec fn strip_leading(s: Seq<char>, c: char) -> Seq<char> {
    s.skip(leading_run_end(s, c, 0))
}

proof fn lemma_leading_run_end_bounds(s: Seq<char>, c: char, i: int)
    requires
        0 <= i <= s.len(),
    ensures
        i <= leading_run_end(s, c, i) <= s.len(),
    decreases s.len() - i,
{
    if i < s.len() && s[i] == c {
        lemma_leading_run_end_bounds(s, c, i + 1);
    }
}

fn strip_leading_chars(s: &[char], c: char) -> (out: Vec<char>)
    ensures
        out@ == strip_leading(s@, c),
{
    let mut i: usize = 0;
    while i < s.len() && s[i] == c
        invariant
            i <= s@.len(),
            leading_run_end(s@, c, 0) == leading_run_end(s@, c, i as int),
        decreases s@.len() - i,
    {
        i = i + 1;
    }
    crate::text::sub_vec(s, i, s.len())
}

/// A fence line: three backticks or three tildes.
pub open spec fn is_fence(ts: Seq<char>) -> bool {
    starts_with(ts, seq!['`', '`', '`']) || starts_with(ts, seq!['~', '~', '~'])
}

/// The language tag of an opening fence: its info string, lowercased.
pub open spec fn fence_lang(ts: Seq<char>) -> Seq<char> {
    lowercase(trim(strip_leading(strip_leading(ts, '`'), '~')))
}

/// A language tag whose lines are coloured as a diff.
pub open spec fn is_diff_lang(lang: Seq<char>) -> bool {
    lang == seq!['d', 'i', 'f', 'f'] || lang == seq!['p', 'a', 't', 'c', 'h']
}

/// A line of a fenced block in language `lang`.
pub open spec fn code_line(line: Seq<char>, lang: Seq<char>) -> MdBlockView {
    MdBlockView::CodeLine {
        text: line,
        diff: if is_diff_lang(lang) {
            spec_classify_diff_line(line)
        } else {
            DiffKind::Plain
        },
        lang,
    }
}

/// Every character of `s` is `c`.
pub open spec fn all_chars(s: Seq<char>, c: char) -> bool {
    forall|j: int| 0 <= j < s.len() ==> s[j] == c
}

/// A horizontal rule: three or more of one of `-`, `*`, `_`, nothing else.
pub open spec fn is_rule(tight: Seq<char>) -> bool {
    tight.len() >= 3 && (all_chars(tight, '-') || all_chars(tight, '*') || all_chars(tight, '_'))
}

/// A line outside fences and tables, its leading whitespace removed: blank,
/// rule, heading, quote, bulleted or numbered list item, or paragraph.
pub open spec fn spec_line_block(ts: Seq<char>) -> MdBlockView {
    if ts.len() == 0 {
        MdBlockView::Blank
    } else if is_rule(trim_end(ts)) {
        MdBlockView::Hr
    } else {
        match spec_parse_heading_prefix(ts) {
            Some((level, text)) => MdBlockView::Heading { level, text },
            None => if starts_with(ts, seq!['>', ' ']) {
                MdBlockView::Quote(ts.skip(2))
            } else if ts == seq!['>'] {
                MdBlockView::Quote(Seq::empty())
            } else if starts_with(ts, seq!['-', ' ']) || starts_with(ts, seq!['*', ' '])
                || starts_with(ts, seq!['+', ' ']) {
                MdBlockView::ListItem { marker: seq!['\u{2022}', ' '], text: ts.skip(2) }
            } else {
                match spec_split_numbered_list(ts) {
                    Some((num, text)) => MdBlockView::ListItem {
                        marker: num + seq!['.', ' '],
                        text,
                    },
                    None => MdBlockView::Paragraph(ts),
                }
            },
        }
    }
}

fn all_same(s: &[char], c: char) -> (b: bool)
    ensures
        b == all_chars(s@, c),
{
    let mut i: usize = 0;
    while i < s.len()
        invariant
            i <= s@.len(),
            forall|j: int| 0 <= j < i ==> s@[j] == c,
        decreases s@.len() - i,
    {
        if s[i] != c {
            return false;
        }
        i = i + 1;
    }
    true
}

/// The block of a line outside fences and tables (leading whitespace
/// already removed).
fn line_block(ts: &[char]) -> (b: MdBlock)
    ensures
        b@ == spec_line_block(ts@),
{
    if ts.len() == 0 {
        return MdBlock::Blank;
    }
    let tight = trimmed_end(ts);
    if tight.len() >= 3 && (all_same(tight.as_slice(), '-') || all_same(tight.as_slice(), '*')
        || all_same(tight.as_slice(), '_')) {
        return MdBlock::Hr;
    }
    if let Some((level, start)) = parse_heading_prefix(ts) {
        return MdBlock::Heading {
            level,
            text: chars_to_string(slice_subrange(ts, start, ts.len())),
        };
    }
    let quote = ['>', ' '];
    let dash = ['-', ' '];
    let star = ['*', ' '];
    let plus = ['+', ' '];
    assert(quote@ =~= seq!['>', ' ']);
    assert(dash@ =~= seq!['-', ' ']);
    assert(star@ =~= seq!['*', ' ']);
    assert(plus@ =~= seq!['+', ' ']);
    if has_prefix(ts, quote.as_slice()) {
        let rest = slice_subrange(ts, 2, ts.len());
        assert(rest@ =~= ts@.skip(2));
        return MdBlock::Quote(chars_to_string(rest));
    }
    if ts.len() == 1 && ts[0] == '>' {
        assert(ts@ =~= seq!['>']);
        return MdBlock::Quote(String::new());
    }
    assert(ts@ != seq!['>'] ==> !(ts@.len() == 1 && ts@[0] == '>'));
    if has_prefix(ts, dash.as_slice()) || has_prefix(ts, star.as_slice()) || has_prefix(
        ts,
        plus.as_slice(),
    ) {
        let rest = slice_subrange(ts, 2, ts.len());
        assert(rest@ =~= ts@.skip(2));
        let bullet = ['\u{2022}', ' '];
        assert(bullet@ =~= seq!['\u{2022}', ' ']);
        return MdBlock::ListItem {
            marker: chars_to_string(bullet.as_slice()),
            text: chars_to_string(rest),
        };
    }
    if let Some((end, start)) = split_numbered_list(ts) {
        let mut marker = crate::text::sub_vec(ts, 0, end);
        marker.push('.');
        marker.push(' ');
        assert(marker@ =~= ts@.take(end as int) + seq!['.', ' ']);
        let rest = slice_subrange(ts, start, ts.len());
        assert(rest@ =~= ts@.skip(start as int));
        return MdBlock::ListItem {
            marker: chars_to_string(marker.as_slice()),
            text: chars_to_string(rest),
        };
    }
    MdBlock::Paragraph(chars_to_string(ts))
}

pub proof fn lemma_table_consumes(lines: Seq<Seq<char>>, start: int)
    ensures
        spec_try_parse_pipe_table(lines, start) matches Some((blocks, consumed)) ==> 0 < consumed
            && start + consumed <= lines.len(),
{
    if 0 <= start && start + 2 <= lines.len() {
        let headers = table_cells(trim(lines[start]));
        lemma_table_rows_end_bounds(lines, start + 2, headers.len());
    }
}

/// The blocks of `lines` from line `i`, `fence` holding the language of the
/// open code fence, if any. Outside fences a pipe table is tried first; a
/// fence line opens or closes a fence and yields no block.
pub open spec fn blocks_from(lines: Seq<Seq<char>>, i: int, fence: Option<Seq<char>>) -> Seq<
    MdBlockView,
>
    decreases lines.len() - i,
{
    if i < 0 || i >= lines.len() {
        Seq::empty()
    } else {
        let table = if fence is None {
            spec_try_parse_pipe_table(lines, i)
        } else {
            None
        };
        proof {
            lemma_table_consumes(lines, i);
        }
        match table {
            Some((blocks, consumed)) => blocks + blocks_from(lines, i + consumed, fence),
            None => {
                let line = lines[i];
                let ts = crate::text::trim_start(line);
                if is_fence(ts) {
                    blocks_from(
                        lines,
                        i + 1,
                        if fence is Some {
                            None
                        } else {
                            Some(fence_lang(ts))
                        },
                    )
                } else {
                    match fence {
                        Some(lang) => seq![code_line(line, lang)] + blocks_from(lines, i + 1, fence),
                        None => seq![spec_line_block(ts)] + blocks_from(lines, i + 1, fence),
                    }
                }
            },
        }
    }
}

/// The blocks of a chat message.
pub open spec fn spec_parse_markdown_blocks(content: Seq<char>) -> Seq<MdBlockView> {
    blocks_from(split_on(content, '\n'), 0, None)
}

/// The open fence's language, as characters.
pub open spec fn fence_view(fence: Option<Vec<char>>) -> Option<Seq<char>> {
    match fence {
        Some(v) => Some(v@),
        None => None,
    }
}

/// Splits a chat message into blocks.
pub fn parse_markdown_blocks(content: &str) -> (blocks: Vec<MdBlock>)
    ensures
        blocks_view(blocks@) == spec_parse_markdown_blocks(content@),
{
    let chars = str_to_chars(content);
    let lines = split_chars(chars.as_slice(), '\n');
    let ghost lv = lines_view(lines@);
    let ghost total = blocks_from(lv, 0, None);
    let mut out: Vec<MdBlock> = Vec::new();
    let mut fence: Option<Vec<char>> = None;
    let mut i: usize = 0;
    let fence3 = ['`', '`', '`'];
    let tilde3 = ['~', '~', '~'];
    let diff = ['d', 'i', 'f', 'f'];
    let patch = ['p', 'a', 't', 'c', 'h'];
    assert(fence3@ =~= seq!['`', '`', '`']);
    assert(tilde3@ =~= seq!['~', '~', '~']);
    assert(diff@ =~= seq!['d', 'i', 'f', 'f']);
    assert(patch@ =~= seq!['p', 'a', 't', 'c', 'h']);
    assert(blocks_view(out@) + blocks_from(lv, 0, fence_view(fence)) =~= total);
    while i < lines.len()
        invariant
            i <= lines@.len(),
            lv == lines_view(lines@),
            lv == split_on(content@, '\n'),
            total == blocks_from(lv, 0, None),
            fence3@ == seq!['`', '`', '`'],
            tilde3@ == seq!['~', '~', '~'],
            diff@ == seq!['d', 'i', 'f', 'f'],
            patch@ == seq!['p', 'a', 't', 'c', 'h'],
            blocks_view(out@) + blocks_from(lv, i as int, fence_view(fence)) == total,
        decreases lines@.len() - i,
    {
        proof {
            lemma_table_consumes(lv, i as int);
        }
        if fence.is_none() {
            if let Some((table_blocks, consumed)) = try_parse_pipe_table(&lines, i) {
                let ghost before = blocks_view(out@);
                let mut tb = table_blocks;
                let ghost tbv = blocks_view(tb@);
                out.append(&mut tb);
                assert(blocks_view(out@) =~= before + tbv);
                assert(blocks_view(out@) + blocks_from(lv, i + consumed, fence_view(fence)) =~= total);
                i = i + consumed;
                continue;
            }
        }
        let line = &lines[i];
        assert(line@ == lv[i as int]);
        let ts = trimmed_start(line.as_slice());
        let ghost before = blocks_view(out@);
        if has_prefix(ts.as_slice(), fence3.as_slice()) || has_prefix(ts.as_slice(), tilde3.as_slice()) {
            if fence.is_some() {
                fence = None;
            } else {
                let a = strip_leading_chars(ts.as_slice(), '`');
                let b = strip_leading_chars(a.as_slice(), '~');
                let c = trimmed(b.as_slice());
                fence = Some(to_lowercase(c.as_slice()));
            }
            i = i + 1;
            continue;
        }
        match &fence {
            Some(lang) => {
                let is_diff = crate::text::chars_eq(lang.as_slice(), diff.as_slice())
                    || crate::text::chars_eq(lang.as_slice(), patch.as_slice());
                let kind = if is_diff {
                    classify_diff_line(line.as_slice())
                } else {
                    DiffKind::Plain
                };
                let block = MdBlock::CodeLine {
                    text: chars_to_string(line.as_slice()),
                    diff: kind,
                    lang: chars_to_string(lang.as_slice()),
                };
                let ghost bv = block@;
                assert(bv == code_line(lv[i as int], lang@));
                out.push(block);
                assert(blocks_view(out@) =~= before.push(bv));
            },
            None => {
                let block = line_block(ts.as_slice());
                let ghost bv = block@;
                out.push(block);
                assert(blocks_view(out@) =~= before.push(bv));
            },
        }
        i = i + 1;
    }
    assert(blocks_view(out@) =~= total);
    out
}

// ---------------------------------------------------------------------------
// Word wrapping by display width.
// ---------------------------------------------------------------------------

/// Punctuation that must not start a line (kinsoku): fullwidth and ASCII
/// closing punctuation and brackets.
pub open spec fn is_no_line_start_char(c: char) -> bool {
    c == '：' || c == '，' || c == '。' || c == '、' || c == '；' || c == '？' || c == '！'
        || c == '）' || c == '】' || c == '》' || c == '」' || c == '』' || c == '〉' || c == '〕'
        || c == '…' || c == '‥' || c == '～' || c == ')' || c == ']' || c == '}' || c == '.'
        || c == ',' || c == ':' || c == ';' || c == '?' || c == '!'
}

/// A grapheme that must not start a line: its first character is such
/// punctuation.
pub open spec fn spec_is_cjk_no_line_start(g: Seq<char>) -> bool {
    g.len() > 0 && is_no_line_start_char(g[0])
}

/// Whether the grapheme `g` must not start a line.
pub fn is_cjk_no_line_start(g: &str) -> (b: bool)
    ensures
        b == spec_is_cjk_no_line_start(g@),
{
    let chars = str_to_chars(g);
    if chars.len() == 0 {
        return false;
    }
    let c = chars[0];
    c == '：' || c == '，' || c == '。' || c == '、' || c == '；' || c == '？' || c == '！'
        || c == '）' || c == '】' || c == '》' || c == '」' || c == '』' || c == '〉' || c == '〕'
        || c == '…' || c == '‥' || c == '～' || c == ')' || c == ']' || c == '}' || c == '.'
        || c == ',' || c == ':' || c == ';' || c == '?' || c == '!'
}

/// A grapheme of spaces and tabs only.
pub open spec fn is_blank(g: Seq<char>) -> bool {
    forall|j: int| 0 <= j < g.len() ==> g[j] == ' ' || g[j] == '\t'
}

fn is_blank_str(g: &str) -> (b: bool)
    ensures
        b == is_blank(g@),
{
    let chars = str_to_chars(g);
    let mut i: usize = 0;
    while i < chars.len()
        invariant
            i <= chars@.len(),
            chars@ == g@,
            forall|j: int| 0 <= j < i ==> chars@[j] == ' ' || chars@[j] == '\t',
        decreases chars@.len() - i,
    {
        if !(chars[i] == ' ' || chars[i] == '\t') {
            return false;
        }
        i = i + 1;
    }
    true
}

/// A run of graphemes of one span that are all blank or all not, with its
/// display width.
pub struct WrapToken {
    pub text: Seq<char>,
    pub style: InlineStyle,
    pub width: int,
    pub is_ws: bool,
}

pub open spec fn make_token(text: Seq<char>, style: InlineStyle, is_ws: bool) -> WrapToken {
    WrapToken { text, style, width: column_width(text) as int, is_ws }
}

/// The tokens of the graphemes `gs` from `i` on, `buf` being the pending
/// run and `buf_ws` whether it is blank (none before the first grapheme).
pub open spec fn group_graphemes(
    gs: Seq<Seq<char>>,
    i: int,
    buf: Seq<char>,
    buf_ws: Option<bool>,
    style: InlineStyle,
) -> Seq<WrapToken>
    decreases gs.len() - i,
{
    if i < 0 || i >= gs.len() {
        if buf.len() > 0 {
            seq![
                make_token(
                    buf,
                    style,
                    match buf_ws {
                        Some(b) => b,
                        None => false,
                    },
                ),
            ]
        } else {
            Seq::empty()
        }
    } else {
        let g = gs[i];
        let g_ws = is_blank(g);
        match buf_ws {
            Some(prev) => if prev == g_ws {
                group_graphemes(gs, i + 1, buf + g, buf_ws, style)
            } else {
                seq![make_token(buf, style, prev)] + group_graphemes(gs, i + 1, g, Some(g_ws), style)
            },
            None => group_graphemes(gs, i + 1, buf + g, Some(g_ws), style),
        }
    }
}

/// The tokens of one span.
pub open spec fn span_tokens(span: SpanView) -> Seq<WrapToken> {
    group_graphemes(grapheme_clusters(span.text), 0, Seq::empty(), None, span.style)
}

/// The tokens of all spans, in order.
pub open spec fn all_tokens(spans: Seq<SpanView>) -> Seq<WrapToken>
    decreases spans.len(),
{
    if spans.len() == 0 {
        Seq::empty()
    } else {
        all_tokens(spans.drop_last()) + span_tokens(spans.last())
    }
}

/// Lines wrapped so far, the line being filled, and its width.
#[verifier::ext_equal]
pub struct WrapState {
    pub lines: Seq<Seq<SpanView>>,
    pub current: Seq<SpanView>,
    pub current_w: int,
}

/// Ends the line being filled, if it holds anything.
pub open spec fn end_line(st: WrapState) -> WrapState {
    if st.current.len() > 0 {
        WrapState { lines: st.lines.push(st.current), current: Seq::empty(), current_w: 0 }
    } else {
        st
    }
}

/// Places one token: blank tokens are dropped at the start of a line; a
/// token that does not fit ends the line (and is dropped if blank); a
/// non-blank token wider than the line is not split but stands whole on a
/// line of its own, which it overflows.
pub open spec fn place_token(st: WrapState, t: WrapToken, width: int) -> WrapState {
    let breaks = st.current_w + t.width > width && st.current.len() > 0;
    if st.current_w == 0 && t.is_ws {
        st
    } else if breaks && t.is_ws {
        end_line(st)
    } else if !t.is_ws && t.width > width {
        WrapState {
            lines: end_line(st).lines.push(seq![SpanView { text: t.text, style: t.style }]),
            current: Seq::empty(),
            current_w: 0,
        }
    } else {
        let st1 = if breaks {
            end_line(st)
        } else {
            st
        };
        WrapState {
            current: merge(st1.current, SpanView { text: t.text, style: t.style }),
            current_w: st1.current_w + t.width,
            ..st1
        }
    }
}

/// Places the tokens from `i` on.
pub open spec fn place_all(st: WrapState, tokens: Seq<WrapToken>, i: int, width: int) -> WrapState
    decreases tokens.len() - i,
{
    if i < 0 || i >= tokens.len() {
        st
    } else {
        place_all(place_token(st, tokens[i], width), tokens, i + 1, width)
    }
}

/// The lines of `spans` wrapped to `width` columns (no wrapping at width
/// 0): at least one line, possibly empty.
pub open spec fn spec_wrap_segments(spans: Seq<SpanView>, width: int) -> Seq<Seq<SpanView>> {
    if width == 0 {
        seq![spans]
    } else {
        let st = place_all(
            WrapState { lines: Seq::empty(), current: Seq::empty(), current_w: 0 },
            all_tokens(spans),
            0,
            width,
        );
        let lines = if st.current.len() > 0 {
            st.lines.push(st.current)
        } else {
            st.lines
        };
        if lines.len() == 0 {
            seq![Seq::empty()]
        } else {
            lines
        }
    }
}

/// The views of wrapped lines.
pub open spec fn wrapped_view(v: Seq<Vec<InlineSpan>>) -> Seq<Seq<SpanView>> {
    v.map_values(|l: Vec<InlineSpan>| spans_view(l@))
}

/// A token of the wrapper.
struct Token {
    text: String,
    style: InlineStyle,
    width: usize,
    is_ws: bool,
}

spec fn token_view(t: Token) -> WrapToken {
    WrapToken { text: t.text@, style: t.style, width: t.width as int, is_ws: t.is_ws }
}

spec fn tokens_view(v: Seq<Token>) -> Seq<WrapToken> {
    v.map_values(|t: Token| token_view(t))
}

fn push_token(tokens: &mut Vec<Token>, text: String, style: InlineStyle, is_ws: bool)
    ensures
        tokens_view(final(tokens)@) == tokens_view(old(tokens)@).push(make_token(text@, style, is_ws)),
{
    let w = unicode_column_width(text.as_str());
    let ghost before = tokens_view(tokens@);
    let t = Token { text, style, width: w, is_ws };
    let ghost tv = token_view(t);
    tokens.push(t);
    assert(tokens_view(tokens@) =~= before.push(tv));
}

/// Appends the tokens of `span` to `tokens`.
fn span_tokens_into(tokens: &mut Vec<Token>, span: &InlineSpan)
    ensures
        tokens_view(final(tokens)@) == tokens_view(old(tokens)@) + span_tokens(span@),
{
    let gs = graphemes(span.text.as_str());
    let ghost gv = strings_view(gs@);
    let ghost start = tokens_view(tokens@);
    let style = span.style;
    let mut buf = String::new();
    let mut buf_ws: Option<bool> = None;
    let mut j: usize = 0;
    assert(start + group_graphemes(gv, 0, buf@, buf_ws, style) =~= start + span_tokens(span@));
    while j < gs.len()
        invariant
            j <= gs@.len(),
            gv == strings_view(gs@),
            gv == grapheme_clusters(span@.text),
            style == span@.style,
            tokens_view(tokens@) + group_graphemes(gv, j as int, buf@, buf_ws, style) == start
                + span_tokens(span@),
        decreases gs@.len() - j,
    {
        let g = &gs[j];
        assert(g@ == gv[j as int]);
        let g_ws = is_blank_str(g.as_str());
        match buf_ws {
            Some(prev) => {
                if prev == g_ws {
                    buf.append(g.as_str());
                } else {
                    let ghost tv = tokens_view(tokens@);
                    let done = buf;
                    push_token(tokens, done, style, prev);
                    assert(tokens_view(tokens@) + group_graphemes(gv, j + 1, g@, Some(g_ws), style)
                        =~= tv + (seq![make_token(done@, style, prev)] + group_graphemes(
                        gv,
                        j + 1,
                        g@,
                        Some(g_ws),
                        style,
                    )));
                    buf = String::new();
                    buf.append(g.as_str());
                    assert(buf@ =~= g@);
                    buf_ws = Some(g_ws);
                }
            },
            None => {
                buf.append(g.as_str());
                buf_ws = Some(g_ws);
            },
        }
        j = j + 1;
    }
    if !buf.as_str().is_empty() {
        let ws = match buf_ws {
            Some(b) => b,
            None => false,
        };
        let ghost tv = tokens_view(tokens@);
        let ghost bv = buf@;
        push_token(tokens, buf, style, ws);
        assert(tokens_view(tokens@) =~= tv + seq![make_token(bv, style, ws)]);
    } else {
        assert(tokens_view(tokens@) =~= tokens_view(tokens@) + Seq::<WrapToken>::empty());
    }
}

/// `x`, capped at `cap`.
pub open spec fn capped(x: int, cap: int) -> int {
    if x < cap {
        x
    } else {
        cap
    }
}

/// The wrapper's state: finished lines, the line being filled, and its
/// width.
spec fn wrap_view(lines: Seq<Vec<InlineSpan>>, current: Seq<InlineSpan>, w: int) -> WrapState {
    WrapState { lines: wrapped_view(lines), current: spans_view(current), current_w: w }
}

/// Ends the line being filled, if it holds anything; whether it did.
fn end_current_line(lines: &mut Vec<Vec<InlineSpan>>, current: &mut Vec<InlineSpan>) -> (ended: bool)
    ensures
        ended == (old(current)@.len() > 0),
        ended ==> wrapped_view(final(lines)@) == wrapped_view(old(lines)@).push(
            spans_view(old(current)@),
        ) && final(current)@.len() == 0,
        !ended ==> final(lines)@ == old(lines)@ && final(current)@ == old(current)@,
{
    if current.len() == 0 {
        return false;
    }
    let mut done: Vec<InlineSpan> = Vec::new();
    std::mem::swap(&mut done, current);
    let ghost before = wrapped_view(lines@);
    let ghost dv = spans_view(done@);
    lines.push(done);
    assert(wrapped_view(lines@) =~= before.push(dv));
    true
}

/// Adds a line holding one span.
fn push_single_line(lines: &mut Vec<Vec<InlineSpan>>, text: String, style: InlineStyle)
    ensures
        wrapped_view(final(lines)@) == wrapped_view(old(lines)@).push(
            seq![SpanView { text: text@, style }],
        ),
{
    let ghost before = wrapped_view(lines@);
    let mut one: Vec<InlineSpan> = Vec::new();
    one.push(InlineSpan { text, style });
    let ghost ov = spans_view(one@);
    assert(ov =~= seq![SpanView { text: text@, style }]);
    lines.push(one);
    assert(wrapped_view(lines@) =~= before.push(ov));
}

/// A copy of `span`.
fn copy_span(span: &InlineSpan) -> (c: InlineSpan)
    ensures
        c@ == span@,
{
    InlineSpan { text: span.text.clone(), style: span.style }
}

/// Word-wraps styled spans to lines of at most `width` columns. Lines
/// break at whitespace; blank runs are dropped at line starts and where a
/// line breaks. A word wider than the line is not split: it stands whole on
/// a line of its own, which it overflows. Width 0 leaves the spans on one
/// line.
pub fn wrap_segments(segments: &[InlineSpan], width: usize) -> (lines: Vec<Vec<InlineSpan>>)
    ensures
        wrapped_view(lines@) == spec_wrap_segments(spans_view(segments@), width as int),
{
    let ghost sv = spans_view(segments@);
    if width == 0 {
        let mut copy: Vec<InlineSpan> = Vec::new();
        let mut i: usize = 0;
        while i < segments.len()
            invariant
                i <= segments@.len(),
                sv == spans_view(segments@),
                spans_view(copy@) == sv.take(i as int),
            decreases segments@.len() - i,
        {
            let ghost before = spans_view(copy@);
            let c = copy_span(&segments[i]);
            copy.push(c);
            assert(spans_view(copy@) =~= before.push(sv[i as int]));
            assert(sv.take(i + 1) =~= sv.take(i as int).push(sv[i as int]));
            i = i + 1;
        }
        assert(sv.take(segments@.len() as int) =~= sv);
        let mut out: Vec<Vec<InlineSpan>> = Vec::new();
        let ghost cv = spans_view(copy@);
        out.push(copy);
        assert(wrapped_view(out@) =~= seq![cv]);
        return out;
    }
    let mut tokens: Vec<Token> = Vec::new();
    let mut i: usize = 0;
    while i < segments.len()
        invariant
            i <= segments@.len(),
            sv == spans_view(segments@),
            tokens_view(tokens@) == all_tokens(sv.take(i as int)),
        decreases segments@.len() - i,
    {
        assert(sv.take(i + 1).drop_last() =~= sv.take(i as int));
        span_tokens_into(&mut tokens, &segments[i]);
        i = i + 1;
    }
    assert(sv.take(segments@.len() as int) =~= sv);
    let ghost toks = tokens_view(tokens@);
    let ghost final_st = place_all(
        WrapState { lines: Seq::empty(), current: Seq::empty(), current_w: 0 },
        toks,
        0,
        width as int,
    );
    let cap: u128 = width as u128 + 1;
    let mut lines: Vec<Vec<InlineSpan>> = Vec::new();
    let mut current: Vec<InlineSpan> = Vec::new();
    let mut cc: u128 = 0;
    let ghost mut cw: int = 0;
    assert(wrapped_view(lines@) =~= Seq::<Seq<SpanView>>::empty());
    assert(spans_view(current@) =~= Seq::<SpanView>::empty());
    let mut k: usize = 0;
    while k < tokens.len()
        invariant
            k <= tokens@.len(),
            toks == tokens_view(tokens@),
            width > 0,
            cap == width + 1,
            cw >= 0,
            cc == capped(cw, cap as int),
            place_all(wrap_view(lines@, current@, cw), toks, k as int, width as int) == final_st,
        decreases tokens@.len() - k,
    {
        let tok = &tokens[k];
        let ghost tv = toks[k as int];
        assert(tv == token_view(*tok));
        let ghost st = wrap_view(lines@, current@, cw);
        let breaks = cc + tok.width as u128 > width as u128 && current.len() > 0;
        assert(breaks == (cw + tv.width > width && st.current.len() > 0));
        if cc == 0 && tok.is_ws {
            assert(cw == 0);
            assert(wrap_view(lines@, current@, cw) =~= place_token(st, tv, width as int));
        } else if breaks && tok.is_ws {
            if end_current_line(&mut lines, &mut current) {
                cc = 0;
                proof {
                    cw = 0;
                }
            }
            assert(wrap_view(lines@, current@, cw) =~= place_token(st, tv, width as int));
        } else if !tok.is_ws && tok.width > width {
            end_current_line(&mut lines, &mut current);
            assert(wrapped_view(lines@) == end_line(st).lines);
            push_single_line(&mut lines, tok.text.clone(), tok.style);
            cc = 0;
            proof {
                cw = 0;
            }
            assert(spans_view(current@) =~= Seq::<SpanView>::empty());
        } else {
            if breaks {
                if end_current_line(&mut lines, &mut current) {
                    cc = 0;
                    proof {
                        cw = 0;
                    }
                }
            }
            assert(wrap_view(lines@, current@, cw) =~= (if breaks {
                end_line(st)
            } else {
                st
            }));
            merge_push(&mut current, InlineSpan { text: tok.text.clone(), style: tok.style });
            let sum = cc + tok.width as u128;
            cc = if sum < cap {
                sum
            } else {
                cap
            };
            proof {
                cw = cw + tv.width;
            }
            assert(wrap_view(lines@, current@, cw).current =~= place_token(st, tv, width as int).current);
            assert(wrap_view(lines@, current@, cw).lines =~= place_token(st, tv, width as int).lines);
            assert(wrap_view(lines@, current@, cw).current_w == place_token(st, tv, width as int).current_w);
        }
        assert(wrap_view(lines@, current@, cw) =~= place_token(st, tv, width as int));
        k = k + 1;
    }
    if current.len() > 0 {
        let ghost before = wrapped_view(lines@);
        let ghost cv = spans_view(current@);
        lines.push(current);
        assert(wrapped_view(lines@) =~= before.push(cv));
    }
    if lines.len() == 0 {
        lines.push(Vec::new());
        assert(wrapped_view(lines@) =~= seq![Seq::<SpanView>::empty()]);
    }
    lines
}


// ---------------------------------------------------------------------------
// What wrapping keeps.
// ---------------------------------------------------------------------------

/// `s` without its spaces and tabs.
pub open spec fn without_blanks(s: Seq<char>) -> Seq<char>
    decreases s.len(),
{
    if s.len() == 0 {
        Seq::empty()
    } else if s.last() == ' ' || s.last() == '\t' {
        without_blanks(s.drop_last())
    } else {
        without_blanks(s.drop_last()).push(s.last())
    }
}

/// The text of wrapped lines, one after another.
pub open spec fn lines_text(lines: Seq<Seq<SpanView>>) -> Seq<char>
    decreases lines.len(),
{
    if lines.len() == 0 {
        Seq::empty()
    } else {
        lines_text(lines.drop_last()) + plain_text(lines.last())
    }
}

/// The text placed so far: the finished lines, then the line being filled.
spec fn state_text(st: WrapState) -> Seq<char> {
    lines_text(st.lines) + plain_text(st.current)
}

/// The texts of tokens.
spec fn token_texts(ts: Seq<WrapToken>) -> Seq<Seq<char>> {
    ts.map_values(|t: WrapToken| t.text)
}

proof fn lemma_without_blanks_append(a: Seq<char>, b: Seq<char>)
    ensures
        without_blanks(a + b) == without_blanks(a) + without_blanks(b),
    decreases b.len(),
{
    if b.len() == 0 {
        assert(a + b =~= a);
        assert(without_blanks(a) + without_blanks(b) =~= without_blanks(a));
    } else {
        lemma_without_blanks_append(a, b.drop_last());
        assert((a + b).drop_last() =~= a + b.drop_last());
        assert((a + b).last() == b.last());
        if !(b.last() == ' ' || b.last() == '\t') {
            assert(without_blanks(a) + without_blanks(b) =~= (without_blanks(a) + without_blanks(
                b.drop_last(),
            )).push(b.last()));
        }
    }
}

proof fn lemma_without_blanks_of_blank(g: Seq<char>)
    requires
        is_blank(g),
    ensures
        without_blanks(g) == Seq::<char>::empty(),
    decreases g.len(),
{
    if g.len() > 0 {
        assert(g.last() == g[g.len() - 1]);
        lemma_without_blanks_of_blank(g.drop_last());
    }
}

proof fn lemma_concat_all_append(a: Seq<Seq<char>>, b: Seq<Seq<char>>)
    ensures
        concat_all(a + b) == concat_all(a) + concat_all(b),
    decreases b.len(),
{
    if b.len() == 0 {
        assert(a + b =~= a);
        assert(concat_all(a) + concat_all(b) =~= concat_all(a));
    } else {
        lemma_concat_all_append(a, b.drop_last());
        assert((a + b).drop_last() =~= a + b.drop_last());
        assert((a + b).last() == b.last());
        assert(concat_all(a) + concat_all(b) =~= (concat_all(a) + concat_all(b.drop_last())) + b.last());
    }
}

proof fn lemma_concat_all_single(x: Seq<char>)
    ensures
        concat_all(seq![x]) == x,
{
    let s = seq![x];
    assert(s.drop_last() =~= Seq::<Seq<char>>::empty());
    assert(s.last() == x);
    assert(concat_all(s.drop_last()) == Seq::<char>::empty());
    assert(Seq::<char>::empty() + x =~= x);
}

proof fn lemma_plain_text_single(sv: SpanView)
    ensures
        plain_text(seq![sv]) == sv.text,
{
    let s = seq![sv];
    assert(s.drop_last() =~= Seq::<SpanView>::empty());
    assert(s.last() == sv);
    assert(plain_text(s.drop_last()) == Seq::<char>::empty());
    assert(Seq::<char>::empty() + sv.text =~= sv.text);
}

proof fn lemma_lines_text_single(line: Seq<SpanView>)
    ensures
        lines_text(seq![line]) == plain_text(line),
{
    let s = seq![line];
    assert(s.drop_last() =~= Seq::<Seq<SpanView>>::empty());
    assert(s.last() == line);
    assert(lines_text(s.drop_last()) == Seq::<char>::empty());
    assert(Seq::<char>::empty() + plain_text(line) =~= plain_text(line));
}

proof fn lemma_concat_all_first(s: Seq<Seq<char>>)
    requires
        s.len() > 0,
    ensures
        concat_all(s) == s[0] + concat_all(s.skip(1)),
{
    assert(s =~= seq![s[0]] + s.skip(1));
    lemma_concat_all_append(seq![s[0]], s.skip(1));
    lemma_concat_all_single(s[0]);
}

proof fn lemma_merge_text(out: Seq<SpanView>, span: SpanView)
    ensures
        plain_text(merge(out, span)) == plain_text(out) + span.text,
{
    if span.text.len() == 0 {
        assert(plain_text(out) + span.text =~= plain_text(out));
    } else if out.len() > 0 && out.last().style == span.style {
        let joined = SpanView { text: out.last().text + span.text, style: span.style };
        assert(out.drop_last().push(joined).drop_last() =~= out.drop_last());
        assert(plain_text(out) + span.text =~= plain_text(out.drop_last()) + joined.text);
    } else {
        assert(out.push(span).drop_last() =~= out);
    }
}

proof fn lemma_end_line_text(st: WrapState)
    ensures
        state_text(end_line(st)) == state_text(st),
        end_line(st).current.len() == 0,
{
    if st.current.len() > 0 {
        assert(st.lines.push(st.current).drop_last() =~= st.lines);
        assert(Seq::<SpanView>::empty().len() == 0);
        assert(plain_text(Seq::<SpanView>::empty()) == Seq::<char>::empty());
        assert(lines_text(st.lines.push(st.current)) + Seq::<char>::empty() =~= lines_text(st.lines)
            + plain_text(st.current));
    }
}

/// The text of the lines `lines` with one more line `line` of one span.
proof fn lemma_push_line_text(st: WrapState, text: Seq<char>, style: InlineStyle)
    requires
        st.current.len() == 0,
    ensures
        state_text(WrapState { lines: st.lines.push(seq![SpanView { text, style }]), ..st })
            == state_text(st) + text,
{
    let sv = SpanView { text, style };
    assert(st.lines.push(seq![sv]).drop_last() =~= st.lines);
    lemma_plain_text_single(sv);
    assert(st.current =~= Seq::<SpanView>::empty());
}

proof fn lemma_place_token_text(st: WrapState, t: WrapToken, width: int)
    requires
        t.is_ws ==> is_blank(t.text),
    ensures
        without_blanks(state_text(place_token(st, t, width))) == without_blanks(state_text(st))
            + without_blanks(t.text),
{
    let breaks = st.current_w + t.width > width && st.current.len() > 0;
    lemma_end_line_text(st);
    if t.is_ws {
        lemma_without_blanks_of_blank(t.text);
        assert(without_blanks(state_text(st)) + without_blanks(t.text) =~= without_blanks(state_text(st)));
    }
    if st.current_w == 0 && t.is_ws {
    } else if breaks && t.is_ws {
    } else if !t.is_ws && t.width > width {
        let e = end_line(st);
        lemma_push_line_text(e, t.text, t.style);
        assert(state_text(place_token(st, t, width)) == state_text(
            WrapState { lines: e.lines.push(seq![SpanView { text: t.text, style: t.style }]), ..e },
        ));
        lemma_without_blanks_append(state_text(st), t.text);
    } else {
        let st1 = if breaks {
            end_line(st)
        } else {
            st
        };
        assert(state_text(st1) == state_text(st));
        lemma_merge_text(st1.current, SpanView { text: t.text, style: t.style });
        assert(state_text(place_token(st, t, width)) =~= state_text(st1) + t.text);
        lemma_without_blanks_append(state_text(st), t.text);
    }
}

proof fn lemma_place_all_text(st: WrapState, ts: Seq<WrapToken>, i: int, width: int)
    requires
        0 <= i <= ts.len(),
        forall|k: int| 0 <= k < ts.len() && (#[trigger] ts[k]).is_ws ==> is_blank(ts[k].text),
    ensures
        without_blanks(state_text(place_all(st, ts, i, width))) == without_blanks(state_text(st))
            + without_blanks(concat_all(token_texts(ts.skip(i)))),
    decreases ts.len() - i,
{
    if i == ts.len() {
        assert(token_texts(ts.skip(i)) =~= Seq::<Seq<char>>::empty());
        assert(without_blanks(state_text(st)) + without_blanks(Seq::<char>::empty()) =~= without_blanks(
            state_text(st),
        ));
    } else {
        let next = place_token(st, ts[i], width);
        lemma_place_token_text(st, ts[i], width);
        lemma_place_all_text(next, ts, i + 1, width);
        let texts = token_texts(ts.skip(i));
        lemma_concat_all_first(texts);
        assert(texts.skip(1) =~= token_texts(ts.skip(i + 1)));
        assert(texts[0] == ts[i].text);
        lemma_without_blanks_append(ts[i].text, concat_all(token_texts(ts.skip(i + 1))));
        assert(without_blanks(state_text(st)) + without_blanks(concat_all(texts)) =~= (without_blanks(
            state_text(st),
        ) + without_blanks(ts[i].text)) + without_blanks(concat_all(token_texts(ts.skip(i + 1)))));
    }
}

proof fn lemma_group_graphemes(
    gs: Seq<Seq<char>>,
    i: int,
    buf: Seq<char>,
    buf_ws: Option<bool>,
    style: InlineStyle,
)
    requires
        0 <= i <= gs.len(),
        buf_ws is None ==> buf.len() == 0,
        buf_ws == Some(true) ==> is_blank(buf),
    ensures
        ({
            let ts = group_graphemes(gs, i, buf, buf_ws, style);
            &&& forall|k: int| 0 <= k < ts.len() && (#[trigger] ts[k]).is_ws ==> is_blank(ts[k].text)
            &&& concat_all(token_texts(ts)) == buf + concat_all(gs.skip(i))
        }),
    decreases gs.len() - i,
{
    let ts = group_graphemes(gs, i, buf, buf_ws, style);
    if i == gs.len() {
        assert(gs.skip(i) =~= Seq::<Seq<char>>::empty());
        if buf.len() > 0 {
            assert(token_texts(ts) =~= seq![buf]);
            lemma_concat_all_single(buf);
        } else {
            assert(token_texts(ts) =~= Seq::<Seq<char>>::empty());
        }
        assert(buf + concat_all(gs.skip(i)) =~= buf);
    } else {
        let g = gs[i];
        let g_ws = is_blank(g);
        lemma_concat_all_first(gs.skip(i));
        assert(gs.skip(i).skip(1) =~= gs.skip(i + 1));
        assert(gs.skip(i)[0] == g);
        match buf_ws {
            Some(prev) => if prev == g_ws {
                lemma_group_graphemes(gs, i + 1, buf + g, buf_ws, style);
                assert(buf + concat_all(gs.skip(i)) =~= (buf + g) + concat_all(gs.skip(i + 1)));
            } else {
                let tok = make_token(buf, style, prev);
                let rest = group_graphemes(gs, i + 1, g, Some(g_ws), style);
                lemma_group_graphemes(gs, i + 1, g, Some(g_ws), style);
                assert(ts == seq![tok] + rest);
                assert(token_texts(ts) =~= seq![buf] + token_texts(rest));
                lemma_concat_all_append(seq![buf], token_texts(rest));
                lemma_concat_all_single(buf);
                assert(buf + concat_all(gs.skip(i)) =~= buf + (g + concat_all(gs.skip(i + 1))));
                assert forall|k: int| 0 <= k < ts.len() && (#[trigger] ts[k]).is_ws implies is_blank(
                    ts[k].text,
                ) by {
                    if k > 0 {
                        assert(ts[k] == rest[k - 1]);
                    }
                }
            },
            None => {
                lemma_group_graphemes(gs, i + 1, buf + g, Some(g_ws), style);
                assert(buf + g =~= g);
                assert(buf + concat_all(gs.skip(i)) =~= (buf + g) + concat_all(gs.skip(i + 1)));
            },
        }
    }
}

proof fn lemma_all_tokens(spans: Seq<SpanView>)
    requires
        forall|k: int| 0 <= k < spans.len() ==> concat_all(grapheme_clusters(#[trigger] spans[k].text)) == spans[k].text,
    ensures
        forall|k: int|
            0 <= k < all_tokens(spans).len() && (#[trigger] all_tokens(spans)[k]).is_ws ==> is_blank(
                all_tokens(spans)[k].text,
            ),
        concat_all(token_texts(all_tokens(spans))) == plain_text(spans),
    decreases spans.len(),
{
    if spans.len() > 0 {
        let front = all_tokens(spans.drop_last());
        let last = span_tokens(spans.last());
        assert forall|k: int| 0 <= k < spans.drop_last().len() implies concat_all(
            grapheme_clusters(#[trigger] spans.drop_last()[k].text),
        ) == spans.drop_last()[k].text by {
            assert(spans.drop_last()[k] == spans[k]);
        }
        lemma_all_tokens(spans.drop_last());
        let gs = grapheme_clusters(spans.last().text);
        assert(spans.last() == spans[spans.len() - 1]);
        lemma_group_graphemes(gs, 0, Seq::empty(), None, spans.last().style);
        assert(gs.skip(0) =~= gs);
        assert(concat_all(gs) == spans.last().text);
        assert(token_texts(front + last) =~= token_texts(front) + token_texts(last));
        lemma_concat_all_append(token_texts(front), token_texts(last));
        assert(Seq::<char>::empty() + concat_all(gs) =~= concat_all(gs));
        let all = all_tokens(spans);
        assert(all == front + last);
        assert forall|k: int| 0 <= k < all.len() && (#[trigger] all[k]).is_ws implies is_blank(
            all[k].text,
        ) by {
            if k < front.len() {
                assert(all[k] == front[k]);
            } else {
                assert(all[k] == last[k - front.len()]);
            }
        }
    } else {
        assert(token_texts(all_tokens(spans)) =~= Seq::<Seq<char>>::empty());
    }
}

/// Wrapping loses no visible text: spaces and tabs may go (at the start of
/// a line and where a line breaks), every other character of the spans
/// stays, in order, across the wrapped lines. This rests on the grapheme
/// clusters of each span concatenating back to its text, which the
/// segmentation wrapper states of every text it splits.
pub proof fn law_wrapping_keeps_visible_text(spans: Seq<SpanView>, width: int)
    requires
        width >= 0,
        forall|k: int| 0 <= k < spans.len() ==> concat_all(grapheme_clusters(#[trigger] spans[k].text)) == spans[k].text,
    ensures
        without_blanks(lines_text(spec_wrap_segments(spans, width))) == without_blanks(plain_text(spans)),
{
    if width == 0 {
        lemma_lines_text_single(spans);
    } else {
        let st0 = WrapState { lines: Seq::empty(), current: Seq::empty(), current_w: 0 };
        let ts = all_tokens(spans);
        lemma_all_tokens(spans);
        lemma_place_all_text(st0, ts, 0, width);
        assert(ts.skip(0) =~= ts);
        assert(state_text(st0) =~= Seq::<char>::empty());
        assert(without_blanks(Seq::<char>::empty()) == Seq::<char>::empty());
        let st = place_all(st0, ts, 0, width);
        let lines = if st.current.len() > 0 {
            st.lines.push(st.current)
        } else {
            st.lines
        };
        if st.current.len() > 0 {
            assert(st.lines.push(st.current).drop_last() =~= st.lines);
        } else {
            assert(st.current =~= Seq::<SpanView>::empty());
            assert(state_text(st) =~= lines_text(st.lines));
        }
        assert(lines_text(lines) == state_text(st));
        if lines.len() == 0 {
            lemma_lines_text_single(Seq::<SpanView>::empty());
            assert(lines_text(lines) =~= Seq::<char>::empty());
        }
        assert(without_blanks(Seq::<char>::empty()) + without_blanks(plain_text(spans)) =~= without_blanks(
            plain_text(spans),
        ));
    }
}

} // verus!

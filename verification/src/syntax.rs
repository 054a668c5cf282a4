//! Syntax highlighting of fenced code blocks with syntect, with diff lines
//! and unknown languages shown as plain code.

use vstd::prelude::*;
use crate::markdown::{DiffKind, InlineSpan, InlineStyle, SpanView, plain_text, spans_view};
use crate::text::{chars_to_string, str_to_chars};
use crate::width::concat_all;

verus! {

#[verifier::external_type_specification]
#[verifier::external_body]
pub struct ExSyntaxSet(syntect::parsing::SyntaxSet);

#[verifier::external_type_specification]
#[verifier::external_body]
pub struct ExSyntaxReference(syntect::parsing::SyntaxReference);

#[verifier::external_type_specification]
#[verifier::external_body]
pub struct ExTheme(syntect::highlighting::Theme);

#[verifier::external_type_specification]
#[verifier::external_body]
pub struct ExHighlightLines<'a>(syntect::easy::HighlightLines<'a>);

#[verifier::external_type_specification]
#[verifier::external_body]
pub struct ExSyntectError(syntect::Error);

/// A highlighted piece of a line: its foreground colour and text.
pub struct HighlightRegion {
    pub r: u8,
    pub g: u8,
    pub b: u8,
    pub text: String,
}

/// A highlighted piece as plain values: red, green, blue, text.
pub open spec fn region_view(r: HighlightRegion) -> (u8, u8, u8, Seq<char>) {
    (r.r, r.g, r.b, r.text@)
}

/// The pieces as plain values.
pub open spec fn regions_view(rs: Seq<HighlightRegion>) -> Seq<(u8, u8, u8, Seq<char>)> {
    rs.map_values(|r: HighlightRegion| region_view(r))
}

/// The texts of regions.
pub open spec fn region_texts(regions: Seq<(u8, u8, u8, Seq<char>)>) -> Seq<Seq<char>> {
    regions.map_values(|r: (u8, u8, u8, Seq<char>)| r.3)
}

/// Whether syntect's bundled syntax definitions (`load_defaults_newlines`)
/// know the language token `lang` (`find_syntax_by_token`: by file
/// extension, else by name); it depends on `lang` alone.
pub uninterp spec fn default_syntax_known(lang: Seq<char>) -> bool;

/// What syntect's `HighlightLines::highlight_line` gives for `line` in the
/// bundled syntax of `lang` and the bundled `base16-ocean.dark` theme,
/// after the lines `before` were fed to the same highlighter: the pieces
/// with their foreground colours, or none when it returns an error. It
/// depends on these alone.
pub uninterp spec fn default_highlight(lang: Seq<char>, before: Seq<Seq<char>>, line: Seq<char>) -> Option<
    Seq<(u8, u8, u8, Seq<char>)>,
>;

/// The syntax definitions and colour theme code blocks are highlighted
/// with: syntect's bundled definitions and its `base16-ocean.dark` theme.
/// Only `load` builds one.
pub struct DefaultSyntax {
    set: syntect::parsing::SyntaxSet,
    theme: syntect::highlighting::Theme,
}

/// `SyntaxSet::load_defaults_newlines`: the bundled syntax definitions.
#[verifier::external_body]
fn load_default_syntax_set() -> syntect::parsing::SyntaxSet {
    syntect::parsing::SyntaxSet::load_defaults_newlines()
}

/// `ThemeSet::load_defaults`, its `base16-ocean.dark` theme (which the
/// bundled theme dump always holds).
#[verifier::external_body]
fn load_default_theme() -> syntect::highlighting::Theme {
    syntect::highlighting::ThemeSet::load_defaults().themes.remove("base16-ocean.dark").expect(
        "built-in theme must exist",
    )
}

impl DefaultSyntax {
    /// Loads the bundled syntax definitions and theme.
    pub fn load() -> DefaultSyntax {
        DefaultSyntax { set: load_default_syntax_set(), theme: load_default_theme() }
    }
}

/// The syntax found for a language token, with the token.
pub struct FoundSyntax<'a> {
    syntax: &'a syntect::parsing::SyntaxReference,
    lang: Ghost<Seq<char>>,
}

impl<'a> FoundSyntax<'a> {
    /// The language token it was found for.
    pub closed spec fn lang(&self) -> Seq<char> {
        self.lang@
    }
}

/// `SyntaxSet::find_syntax_by_token` on the bundled definitions: a syntax
/// exactly when they know `lang` (named `default_syntax_known`).
#[verifier::external_body]
fn find_syntax_by_token<'a>(defaults: &'a DefaultSyntax, lang: &str) -> (found: Option<FoundSyntax<'a>>)
    ensures
        found is Some <==> default_syntax_known(lang@),
        found matches Some(f) ==> f.lang() == lang@,
{
    match defaults.set.find_syntax_by_token(lang) {
        Some(syntax) => Some(FoundSyntax { syntax, lang: Ghost(lang@) }),
        None => None,
    }
}

/// A highlighter for one code block, with its language and the lines fed
/// to it so far.
pub struct CodeHighlighter<'a> {
    h: syntect::easy::HighlightLines<'a>,
    lang: Ghost<Seq<char>>,
    fed: Ghost<Seq<Seq<char>>>,
}

impl<'a> CodeHighlighter<'a> {
    /// Its language token.
    pub closed spec fn lang(&self) -> Seq<char> {
        self.lang@
    }

    /// The lines fed to it so far.
    pub closed spec fn fed(&self) -> Seq<Seq<char>> {
        self.fed@
    }
}

/// `HighlightLines::new`: a fresh highlighter for `found` in the bundled
/// theme.
#[verifier::external_body]
fn new_highlighter<'a>(found: &FoundSyntax, defaults: &'a DefaultSyntax) -> (h: CodeHighlighter<'a>)
    ensures
        h.lang() == found.lang(),
        h.fed() == Seq::<Seq<char>>::empty(),
{
    CodeHighlighter {
        h: syntect::easy::HighlightLines::new(found.syntax, &defaults.theme),
        lang: Ghost(found.lang@),
        fed: Ghost(Seq::empty()),
    }
}

/// `HighlightLines::highlight_line` with the bundled definitions: the
/// styled pieces of the next line with their foreground colours, named
/// `default_highlight` of the language, the lines fed before and this
/// line (an error is named `None` there). The crate documents (and its
/// iterator does) that the pieces concatenate to the line.
#[verifier::external_body]
fn highlight_line(h: &mut CodeHighlighter, line: &str, defaults: &DefaultSyntax) -> (regions: Result<
    Vec<HighlightRegion>,
    syntect::Error,
>)
    ensures
        final(h).lang() == old(h).lang(),
        final(h).fed() == old(h).fed().push(line@),
        regions is Ok <==> default_highlight(old(h).lang(), old(h).fed(), line@) is Some,
        regions matches Ok(rs) ==> default_highlight(old(h).lang(), old(h).fed(), line@) == Some(
            regions_view(rs@),
        ),
        regions matches Ok(rs) ==> concat_all(region_texts(regions_view(rs@))) == line@,
{
    let r = h.h.highlight_line(line, &defaults.set).map(
        |v| v.into_iter().map(|(style, text)| HighlightRegion {
            r: style.foreground.r,
            g: style.foreground.g,
            b: style.foreground.b,
            text: String::from(text),
        }).collect(),
    );
    h.fed = Ghost(h.fed@.push(line@));
    r
}

/// `s` without its trailing newlines (as `trim_end_matches('\n')`).
pub open spec fn strip_newlines_end(s: Seq<char>) -> Seq<char>
    decreases s.len(),
{
    if s.len() > 0 && s.last() == '\n' {
        strip_newlines_end(s.drop_last())
    } else {
        s
    }
}

/// The spans of highlighted regions from `i` on: each region without
/// trailing newlines, empty ones dropped, in its colour.
pub open spec fn region_spans(regions: Seq<(u8, u8, u8, Seq<char>)>) -> Seq<SpanView>
    decreases regions.len(),
{
    if regions.len() == 0 {
        Seq::empty()
    } else {
        let r = regions.last();
        let t = strip_newlines_end(r.3);
        region_spans(regions.drop_last()) + if t.len() > 0 {
            seq![SpanView { text: t, style: InlineStyle::Highlighted(r.0, r.1, r.2) }]
        } else {
            Seq::empty()
        }
    }
}

/// The spans of a highlighted line: the regions' spans, or one empty code
/// span when there are none.
pub open spec fn spec_regions_to_spans(regions: Seq<(u8, u8, u8, Seq<char>)>) -> Seq<SpanView> {
    if region_spans(regions).len() == 0 {
        seq![SpanView { text: Seq::empty(), style: InlineStyle::Code }]
    } else {
        region_spans(regions)
    }
}

fn strip_newlines_end_chars(s: &[char]) -> (out: Vec<char>)
    ensures
        out@ == strip_newlines_end(s@),
{
    let mut end = s.len();
    assert(s@.take(s@.len() as int) =~= s@);
    while end > 0 && s[end - 1] == '\n'
        invariant
            end <= s@.len(),
            strip_newlines_end(s@) == strip_newlines_end(s@.take(end as int)),
        decreases end,
    {
        assert(s@.take(end as int).drop_last() =~= s@.take(end - 1));
        end = end - 1;
    }
    crate::text::sub_vec(s, 0, end)
}

/// Turns highlighted regions into spans.
pub fn regions_to_spans(regions: &[HighlightRegion]) -> (spans: Vec<InlineSpan>)
    ensures
        spans_view(spans@) == spec_regions_to_spans(regions_view(regions@)),
{
    let ghost rv = regions_view(regions@);
    let mut spans: Vec<InlineSpan> = Vec::new();
    let mut i: usize = 0;
    while i < regions.len()
        invariant
            i <= regions@.len(),
            rv == regions_view(regions@),
            spans_view(spans@) == region_spans(rv.take(i as int)),
        decreases regions@.len() - i,
    {
        assert(rv.take(i + 1).drop_last() =~= rv.take(i as int));
        assert(rv.take(i + 1).last() == region_view(regions@[i as int]));
        let r = &regions[i];
        let chars = str_to_chars(r.text.as_str());
        let t = strip_newlines_end_chars(chars.as_slice());
        if t.len() > 0 {
            let ghost before = spans_view(spans@);
            let span = InlineSpan { text: chars_to_string(t.as_slice()), style: InlineStyle::Highlighted(r.r, r.g, r.b) };
            let ghost sv = span@;
            spans.push(span);
            assert(spans_view(spans@) =~= before + seq![sv]);
        } else {
            assert(spans_view(spans@) =~= spans_view(spans@) + Seq::<SpanView>::empty());
        }
        i = i + 1;
    }
    assert(rv.take(regions@.len() as int) =~= rv);
    if spans.len() == 0 {
        spans.push(InlineSpan { text: String::new(), style: InlineStyle::Code });
        assert(spans_view(spans@) =~= seq![SpanView { text: Seq::empty(), style: InlineStyle::Code }]);
    }
    spans
}

/// A line of a code block with its diff colouring, shown as it is.
pub open spec fn code_span(text: Seq<char>) -> Seq<SpanView> {
    seq![SpanView { text, style: InlineStyle::Code }]
}

/// The lines of a code block as plain code.
pub fn fallback(lines: &[(String, DiffKind)]) -> (out: Vec<(Vec<InlineSpan>, DiffKind)>)
    ensures
        out@.len() == lines@.len(),
        forall|i: int|
            0 <= i < lines@.len() ==> spans_view((#[trigger] out@[i]).0@) == code_span(lines@[i].0@)
                && out@[i].1 == lines@[i].1,
{
    let mut out: Vec<(Vec<InlineSpan>, DiffKind)> = Vec::new();
    let mut i: usize = 0;
    while i < lines.len()
        invariant
            i <= lines@.len(),
            out@.len() == i,
            forall|k: int|
                0 <= k < i ==> spans_view((#[trigger] out@[k]).0@) == code_span(lines@[k].0@) && out@[k].1
                    == lines@[k].1,
        decreases lines@.len() - i,
    {
        let (text, diff) = &lines[i];
        let mut v: Vec<InlineSpan> = Vec::new();
        v.push(InlineSpan { text: text.clone(), style: InlineStyle::Code });
        assert(spans_view(v@) =~= code_span(text@));
        out.push((v, *diff));
        i = i + 1;
    }
    out
}

/// The lines of a code block as plain values.
pub open spec fn code_lines_view(lines: Seq<(String, DiffKind)>) -> Seq<(Seq<char>, DiffKind)> {
    lines.map_values(|l: (String, DiffKind)| (l.0@, l.1))
}

/// The lines fed to the highlighter before line `i`: the plain lines (not
/// added, removed or hunk lines), each with its newline.
pub open spec fn fed_before(lines: Seq<(Seq<char>, DiffKind)>, i: int) -> Seq<Seq<char>>
    decreases i,
{
    if i <= 0 {
        Seq::empty()
    } else if lines[i - 1].1 == DiffKind::Plain {
        fed_before(lines, i - 1).push(lines[i - 1].0.push('\n'))
    } else {
        fed_before(lines, i - 1)
    }
}

/// The spans of line `i` of a code block in language `lang`: plain code
/// for a diff line or a language the bundled definitions do not know;
/// otherwise the spans of syntect's pieces for the line and its newline,
/// after the plain lines before it, or plain code when syntect fails.
pub open spec fn spec_highlighted_line(lang: Seq<char>, lines: Seq<(Seq<char>, DiffKind)>, i: int) -> Seq<
    SpanView,
> {
    let text = lines[i].0;
    if !default_syntax_known(lang) || lines[i].1 != DiffKind::Plain {
        code_span(text)
    } else {
        match default_highlight(lang, fed_before(lines, i), text.push('\n')) {
            Some(rs) => spec_regions_to_spans(rs),
            None => code_span(text),
        }
    }
}

/// Highlights the lines of a code block in language `lang` with the bundled
/// syntax definitions and theme.
pub fn highlight_code_block(defaults: &DefaultSyntax, lines: &[(String, DiffKind)], lang: &str) -> (out: Vec<
    (Vec<InlineSpan>, DiffKind),
>)
    ensures
        out@.len() == lines@.len(),
        forall|i: int|
            0 <= i < lines@.len() ==> (#[trigger] out@[i]).1 == lines@[i].1 && spans_view(out@[i].0@)
                == spec_highlighted_line(lang@, code_lines_view(lines@), i),
{
    let ghost lv = code_lines_view(lines@);
    let found = match find_syntax_by_token(defaults, lang) {
        Some(f) => f,
        None => {
            let out = fallback(lines);
            assert forall|i: int| 0 <= i < lines@.len() implies (#[trigger] out@[i]).1 == lines@[i].1
                && spans_view(out@[i].0@) == spec_highlighted_line(lang@, lv, i) by {
                assert(lv[i] == (lines@[i].0@, lines@[i].1));
            }
            return out;
        },
    };
    let mut h = new_highlighter(&found, defaults);
    let mut out: Vec<(Vec<InlineSpan>, DiffKind)> = Vec::new();
    let mut i: usize = 0;
    while i < lines.len()
        invariant
            i <= lines@.len(),
            lv == code_lines_view(lines@),
            default_syntax_known(lang@),
            h.lang() == lang@,
            h.fed() == fed_before(lv, i as int),
            out@.len() == i,
            forall|k: int|
                0 <= k < i ==> (#[trigger] out@[k]).1 == lines@[k].1 && spans_view(out@[k].0@)
                    == spec_highlighted_line(lang@, lv, k),
        decreases lines@.len() - i,
    {
        let (text, diff) = &lines[i];
        assert(lv[i as int] == (text@, *diff));
        if *diff != DiffKind::Plain {
            let mut v: Vec<InlineSpan> = Vec::new();
            v.push(InlineSpan { text: text.clone(), style: InlineStyle::Code });
            assert(spans_view(v@) =~= code_span(text@));
            out.push((v, *diff));
            assert(fed_before(lv, i + 1) == fed_before(lv, i as int));
        } else {
            let mut with_nl = text.clone();
            vstd::string::StringExecFns::append(&mut with_nl, "\n");
            proof {
                reveal_strlit("\n");
                assert(with_nl@ =~= text@.push('\n'));
            }
            match highlight_line(&mut h, with_nl.as_str(), defaults) {
                Ok(regions) => {
                    let spans = regions_to_spans(regions.as_slice());
                    out.push((spans, *diff));
                },
                Err(_) => {
                    let mut v: Vec<InlineSpan> = Vec::new();
                    v.push(InlineSpan { text: text.clone(), style: InlineStyle::Code });
                    assert(spans_view(v@) =~= code_span(text@));
                    out.push((v, *diff));
                },
            }
            assert(fed_before(lv, i + 1) == fed_before(lv, i as int).push(text@.push('\n')));
        }
        i = i + 1;
    }
    out
}

proof fn lemma_no_newline_strip(ts: Seq<Seq<char>>)
    requires
        !concat_all(ts).contains('\n'),
    ensures
        concat_all(ts.map_values(|t: Seq<char>| strip_newlines_end(t))) == concat_all(ts),
    decreases ts.len(),
{
    if ts.len() > 0 {
        let last = ts.last();
        assert(concat_all(ts) == concat_all(ts.drop_last()) + last);
        assert(!concat_all(ts.drop_last()).contains('\n')) by {
            if concat_all(ts.drop_last()).contains('\n') {
                let k = choose|k: int| 0 <= k < concat_all(ts.drop_last()).len() && concat_all(ts.drop_last())[k] == '\n';
                assert(concat_all(ts)[k] == '\n');
            }
        }
        lemma_no_newline_strip(ts.drop_last());
        if last.len() > 0 {
            assert(concat_all(ts)[concat_all(ts).len() - 1] == last.last());
        }
        assert(strip_newlines_end(last) == last);
        assert(ts.map_values(|t: Seq<char>| strip_newlines_end(t)).drop_last() =~= ts.drop_last().map_values(
            |t: Seq<char>| strip_newlines_end(t),
        ));
    }
}

proof fn lemma_final_newline_strip(ts: Seq<Seq<char>>, u: Seq<char>)
    requires
        concat_all(ts) == u.push('\n'),
        !u.contains('\n'),
    ensures
        concat_all(ts.map_values(|t: Seq<char>| strip_newlines_end(t))) == u,
    decreases ts.len(),
{
    let stripped = ts.map_values(|t: Seq<char>| strip_newlines_end(t));
    if ts.len() == 0 {
        assert(u.push('\n').len() > 0);
    } else {
        let last = ts.last();
        let prev = ts.drop_last();
        assert(concat_all(ts) == concat_all(prev) + last);
        assert(stripped.drop_last() =~= prev.map_values(|t: Seq<char>| strip_newlines_end(t)));
        if last.len() == 0 {
            assert(concat_all(prev) =~= u.push('\n'));
            lemma_final_newline_strip(prev, u);
            assert(strip_newlines_end(last) == last);
            assert(concat_all(stripped) =~= u);
        } else {
            let body = last.drop_last();
            assert(last.last() == '\n') by {
                assert(concat_all(ts)[concat_all(ts).len() - 1] == last.last());
            }
            assert(concat_all(prev) + body =~= u) by {
                assert((concat_all(prev) + last).drop_last() =~= concat_all(prev) + body);
            }
            assert(!concat_all(prev).contains('\n')) by {
                if concat_all(prev).contains('\n') {
                    let k = choose|k: int| 0 <= k < concat_all(prev).len() && concat_all(prev)[k] == '\n';
                    assert(u[k] == '\n');
                }
            }
            assert(strip_newlines_end(body) == body) by {
                if body.len() > 0 && body.last() == '\n' {
                    assert(u[concat_all(prev).len() + body.len() - 1] == '\n');
                }
            }
            assert(strip_newlines_end(last) == strip_newlines_end(body));
            lemma_no_newline_strip(prev);
            assert(concat_all(stripped) == concat_all(stripped.drop_last()) + stripped.last());
        }
    }
}

proof fn lemma_region_spans_text(regions: Seq<(u8, u8, u8, Seq<char>)>)
    ensures
        plain_text(region_spans(regions)) == concat_all(region_texts(regions).map_values(
            |t: Seq<char>| strip_newlines_end(t),
        )),
    decreases regions.len(),
{
    if regions.len() > 0 {
        lemma_region_spans_text(regions.drop_last());
        let r = regions.last();
        let t = strip_newlines_end(r.3);
        let prev = region_spans(regions.drop_last());
        assert(region_texts(regions.drop_last()).map_values(|t: Seq<char>| strip_newlines_end(t))
            =~= region_texts(regions).map_values(|t: Seq<char>| strip_newlines_end(t)).drop_last());
        if t.len() > 0 {
            let spans = prev + seq![SpanView { text: t, style: InlineStyle::Highlighted(r.0, r.1, r.2) }];
            assert(spans.drop_last() =~= prev);
        } else {
            assert(prev + Seq::<SpanView>::empty() =~= prev);
        }
    }
}

/// Highlighting keeps a line's text: the spans of a line without line
/// breaks, highlighted from regions that cover it and its newline, read
/// back the line.
pub proof fn law_highlighting_keeps_text(regions: Seq<(u8, u8, u8, Seq<char>)>, line: Seq<char>)
    requires
        concat_all(region_texts(regions)) == line.push('\n'),
        !line.contains('\n'),
    ensures
        plain_text(spec_regions_to_spans(regions)) == line,
{
    lemma_region_spans_text(regions);
    lemma_final_newline_strip(region_texts(regions), line);
    if region_spans(regions).len() == 0 {
        let e = seq![SpanView { text: Seq::<char>::empty(), style: InlineStyle::Code }];
        assert(e.drop_last() =~= Seq::<SpanView>::empty());
        assert(plain_text(e) =~= Seq::<char>::empty());
        assert(plain_text(Seq::<SpanView>::empty()) == Seq::<char>::empty());
    }
}

} // verus!

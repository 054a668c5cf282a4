//! Layout of the chat overlay's input line and labels by terminal display
//! width: word-wise cursor movement, truncation, hard wrapping of the
//! prompt and input with the cursor's place, and padding.

use vstd::prelude::*;
use vstd::utf8::{encode_scalar, encode_utf8};
use vstd::string::StringExecFns;
use crate::text::{byte_len, chars_to_string, char_is_whitespace, is_whitespace, str_byte_len, str_to_chars};
use crate::width::{
    column_width, concat_all, grapheme_clusters, graphemes, strings_view, unicode_column_width,
};

verus! {

// ---------------------------------------------------------------------------
// Byte offsets.
// ---------------------------------------------------------------------------

/// The number of UTF-8 bytes of `c` (as `char::len_utf8`).
pub(crate) fn char_len_utf8(c: char) -> (n: usize)
    ensures
        n == encode_scalar(c as u32).len(),
{
    let v = c as u32;
    proof {
        vstd::utf8::char_is_scalar(c);
    }
    if v < 0x80 {
        1
    } else if v < 0x800 {
        2
    } else if v < 0x10000 {
        3
    } else {
        4
    }
}

pub proof fn lemma_encode_utf8_push(s: Seq<char>, c: char)
    ensures
        encode_utf8(s.push(c)) == encode_utf8(s) + encode_scalar(c as u32),
    decreases s.len(),
{
    if s.len() == 0 {
        assert(s.push(c).drop_first() =~= Seq::<char>::empty());
        assert(encode_utf8(Seq::<char>::empty()) =~= Seq::<u8>::empty());
        assert(encode_utf8(s.push(c)) =~= encode_scalar(c as u32));
    } else {
        assert(s.push(c).drop_first() =~= s.drop_first().push(c));
        lemma_encode_utf8_push(s.drop_first(), c);
        assert(encode_utf8(s.push(c)) =~= encode_utf8(s) + encode_scalar(c as u32));
    }
}

pub proof fn lemma_byte_len_concat(a: Seq<char>, b: Seq<char>)
    ensures
        encode_utf8(a + b).len() == encode_utf8(a).len() + encode_utf8(b).len(),
    decreases b.len(),
{
    if b.len() == 0 {
        assert(a + b =~= a);
    } else {
        lemma_byte_len_concat(a, b.drop_last());
        assert(a + b =~= (a + b.drop_last()).push(b.last()));
        assert(b =~= b.drop_last().push(b.last()));
        lemma_encode_utf8_push(a + b.drop_last(), b.last());
        lemma_encode_utf8_push(b.drop_last(), b.last());
    }
}

proof fn lemma_encode_utf8_prefix_len(s: Seq<char>, i: int)
    requires
        0 <= i <= s.len(),
    ensures
        encode_utf8(s.take(i)).len() <= encode_utf8(s).len(),
    decreases s.len() - i,
{
    if i < s.len() {
        assert(s.take(i + 1) =~= s.take(i).push(s[i]));
        lemma_encode_utf8_push(s.take(i), s[i]);
        lemma_encode_utf8_prefix_len(s, i + 1);
    } else {
        assert(s.take(i) =~= s);
    }
}

/// The byte offset of character `char_idx` of `s`; the length of `s` in
/// bytes when it has no such character.
pub open spec fn spec_char_to_byte_pos(s: Seq<char>, char_idx: int) -> int {
    let k = if char_idx < s.len() {
        char_idx
    } else {
        s.len() as int
    };
    encode_utf8(s.take(k)).len() as int
}

/// The byte offset of the character at `char_idx` in `s`.
pub fn char_to_byte_pos(s: &str, char_idx: usize) -> (pos: usize)
    ensures
        pos == spec_char_to_byte_pos(s@, char_idx as int),
{
    let chars = str_to_chars(s);
    let total = str_byte_len(s);
    let mut pos: usize = 0;
    let mut i: usize = 0;
    assert(chars@.take(0) =~= Seq::<char>::empty());
    while i < chars.len() && i < char_idx
        invariant
            i <= chars@.len(),
            i <= char_idx,
            chars@ == s@,
            total == encode_utf8(s@).len(),
            pos == encode_utf8(chars@.take(i as int)).len(),
        decreases chars@.len() - i,
    {
        assert(chars@.take(i + 1) =~= chars@.take(i as int).push(chars@[i as int]));
        proof {
            lemma_encode_utf8_push(chars@.take(i as int), chars@[i as int]);
            lemma_encode_utf8_prefix_len(chars@, i + 1);
        }
        pos = pos + char_len_utf8(chars[i]);
        i = i + 1;
    }
    proof {
        if i == chars@.len() {
            assert(chars@.take(i as int) =~= chars@);
        }
    }
    pos
}

// ---------------------------------------------------------------------------
// Word movement.
// ---------------------------------------------------------------------------

/// Moving left from `i` over whitespace, then over the word before it.
pub open spec fn skip_back_ws(s: Seq<char>, i: int) -> int
    decreases i,
{
    if i > 0 && i <= s.len() && is_whitespace(s[i - 1]) {
        skip_back_ws(s, i - 1)
    } else {
        i
    }
}

pub open spec fn skip_back_word(s: Seq<char>, i: int) -> int
    decreases i,
{
    if i > 0 && i <= s.len() && !is_whitespace(s[i - 1]) {
        skip_back_word(s, i - 1)
    } else {
        i
    }
}

/// The previous word boundary from `cursor` (macOS Option+Left): trailing
/// whitespace is skipped, then the word before it.
pub open spec fn spec_prev_word_pos(s: Seq<char>, cursor: int) -> int {
    let start = if cursor < s.len() {
        cursor
    } else {
        s.len() as int
    };
    skip_back_word(s, skip_back_ws(s, start))
}

pub open spec fn skip_fwd_ws(s: Seq<char>, i: int) -> int
    decreases s.len() - i,
{
    if 0 <= i < s.len() && is_whitespace(s[i]) {
        skip_fwd_ws(s, i + 1)
    } else {
        i
    }
}

pub open spec fn skip_fwd_word(s: Seq<char>, i: int) -> int
    decreases s.len() - i,
{
    if 0 <= i < s.len() && !is_whitespace(s[i]) {
        skip_fwd_word(s, i + 1)
    } else {
        i
    }
}

/// The next word boundary from `cursor` (macOS Option+Right): leading
/// whitespace is skipped, then the word after it.
pub open spec fn spec_next_word_pos(s: Seq<char>, cursor: int) -> int {
    let start = if cursor < s.len() {
        cursor
    } else {
        s.len() as int
    };
    skip_fwd_word(s, skip_fwd_ws(s, start))
}

proof fn lemma_skip_back_bounds(s: Seq<char>, i: int)
    requires
        0 <= i <= s.len(),
    ensures
        0 <= skip_back_ws(s, i) <= i,
        0 <= skip_back_word(s, i) <= i,
    decreases i,
{
    if i > 0 {
        lemma_skip_back_bounds(s, i - 1);
    }
}

proof fn lemma_skip_fwd_bounds(s: Seq<char>, i: int)
    requires
        0 <= i <= s.len(),
    ensures
        i <= skip_fwd_ws(s, i) <= s.len(),
        i <= skip_fwd_word(s, i) <= s.len(),
    decreases s.len() - i,
{
    if i < s.len() {
        lemma_skip_fwd_bounds(s, i + 1);
    }
}

/// The previous word boundary lies between the start and the cursor.
pub proof fn lemma_prev_word_pos_bounds(s: Seq<char>, cursor: int)
    requires
        0 <= cursor,
    ensures
        0 <= spec_prev_word_pos(s, cursor) <= cursor,
        spec_prev_word_pos(s, cursor) <= s.len(),
{
    let start = if cursor < s.len() {
        cursor
    } else {
        s.len() as int
    };
    lemma_skip_back_bounds(s, start);
    lemma_skip_back_bounds(s, skip_back_ws(s, start));
}

proof fn lemma_skip_fwd_props(s: Seq<char>, i: int)
    requires
        0 <= i <= s.len(),
    ensures
        forall|k: int| i <= k < skip_fwd_ws(s, i) ==> is_whitespace(#[trigger] s[k]),
        skip_fwd_ws(s, i) < s.len() ==> !is_whitespace(s[skip_fwd_ws(s, i)]),
        forall|k: int| i <= k < skip_fwd_word(s, i) ==> !is_whitespace(#[trigger] s[k]),
        skip_fwd_word(s, i) < s.len() ==> is_whitespace(s[skip_fwd_word(s, i)]),
    decreases s.len() - i,
{
    if i < s.len() {
        lemma_skip_fwd_props(s, i + 1);
    }
}

/// Option+Right moves to the end of the next word: from the cursor (or the
/// end of the text) it passes whitespace first and then only word
/// characters, and it stops either at the end of the text or on the
/// whitespace right after a word. So when the cursor is on a word, it stops
/// at the end of that word.
pub proof fn law_next_word_pos_ends_the_next_word(s: Seq<char>, cursor: int)
    requires
        0 <= cursor,
    ensures
        ({
            let start = if cursor < s.len() {
                cursor
            } else {
                s.len() as int
            };
            let r = spec_next_word_pos(s, cursor);
            &&& start <= r <= s.len()
            &&& forall|j: int, k: int|
                start <= j <= k < r && is_whitespace(#[trigger] s[k]) ==> is_whitespace(#[trigger] s[j])
            &&& r < s.len() ==> is_whitespace(s[r]) && start < r && !is_whitespace(s[r - 1])
        }),
        cursor < s.len() && !is_whitespace(s[cursor]) ==> (forall|k: int|
            cursor <= k < spec_next_word_pos(s, cursor) ==> !is_whitespace(#[trigger] s[k])) && (
        spec_next_word_pos(s, cursor) == s.len() || is_whitespace(s[spec_next_word_pos(s, cursor)])),
{
    let start = if cursor < s.len() {
        cursor
    } else {
        s.len() as int
    };
    let m = skip_fwd_ws(s, start);
    lemma_skip_fwd_bounds(s, start);
    lemma_skip_fwd_bounds(s, m);
    lemma_skip_fwd_props(s, start);
    lemma_skip_fwd_props(s, m);
    let r = spec_next_word_pos(s, cursor);
    assert(r == skip_fwd_word(s, m));
    assert forall|j: int, k: int| start <= j <= k < r && is_whitespace(#[trigger] s[k]) implies is_whitespace(
        #[trigger] s[j],
    ) by {
        if k >= m {
            assert(!is_whitespace(s[k]));
        }
    }
    if r < s.len() {
        assert(m < s.len());
        assert(!is_whitespace(s[m]));
        assert(skip_fwd_word(s, m) == skip_fwd_word(s, m + 1));
        lemma_skip_fwd_bounds(s, m + 1);
        assert(!is_whitespace(s[r - 1]));
    }
    if cursor < s.len() && !is_whitespace(s[cursor]) {
        assert(m == start);
    }
}

/// The next word boundary lies between the cursor (or the end) and the end.
pub proof fn lemma_next_word_pos_bounds(s: Seq<char>, cursor: int)
    requires
        0 <= cursor,
    ensures
        (if cursor < s.len() {
            cursor
        } else {
            s.len() as int
        }) <= spec_next_word_pos(s, cursor) <= s.len(),
{
    let start = if cursor < s.len() {
        cursor
    } else {
        s.len() as int
    };
    lemma_skip_fwd_bounds(s, start);
    lemma_skip_fwd_bounds(s, skip_fwd_ws(s, start));
}

/// The previous word boundary in `chars` from `cursor`.
pub fn prev_word_index(chars: &[char], cursor: usize) -> (pos: usize)
    ensures
        pos == spec_prev_word_pos(chars@, cursor as int),
        pos <= chars@.len(),
        pos <= cursor,
{
    let mut i: usize = if cursor < chars.len() {
        cursor
    } else {
        chars.len()
    };
    let ghost start = i as int;
    while i > 0 && char_is_whitespace(chars[i - 1])
        invariant
            i <= start <= chars@.len(),
            start <= cursor,
            skip_back_ws(chars@, start) == skip_back_ws(chars@, i as int),
        decreases i,
    {
        i = i - 1;
    }
    let ghost mid = i as int;
    while i > 0 && !char_is_whitespace(chars[i - 1])
        invariant
            i <= start <= chars@.len(),
            start <= cursor,
            skip_back_ws(chars@, start) == mid,
            skip_back_word(chars@, mid) == skip_back_word(chars@, i as int),
        decreases i,
    {
        i = i - 1;
    }
    i
}

/// The character index of the previous word boundary.
pub fn prev_word_pos(input: &str, cursor: usize) -> (pos: usize)
    ensures
        pos == spec_prev_word_pos(input@, cursor as int),
{
    let chars = str_to_chars(input);
    prev_word_index(chars.as_slice(), cursor)
}

/// The next word boundary in `chars` from `cursor`.
pub fn next_word_index(chars: &[char], cursor: usize) -> (pos: usize)
    ensures
        pos == spec_next_word_pos(chars@, cursor as int),
        pos <= chars@.len(),
{
    let mut i: usize = if cursor < chars.len() {
        cursor
    } else {
        chars.len()
    };
    let ghost start = i as int;
    while i < chars.len() && char_is_whitespace(chars[i])
        invariant
            i <= chars@.len(),
            skip_fwd_ws(chars@, start) == skip_fwd_ws(chars@, i as int),
        decreases chars@.len() - i,
    {
        i = i + 1;
    }
    let ghost mid = i as int;
    while i < chars.len() && !char_is_whitespace(chars[i])
        invariant
            i <= chars@.len(),
            skip_fwd_ws(chars@, start) == mid,
            skip_fwd_word(chars@, mid) == skip_fwd_word(chars@, i as int),
        decreases chars@.len() - i,
    {
        i = i + 1;
    }
    i
}

/// The character index of the next word boundary.
pub fn next_word_pos(input: &str, cursor: usize) -> (pos: usize)
    ensures
        pos == spec_next_word_pos(input@, cursor as int),
{
    let chars = str_to_chars(input);
    next_word_index(chars.as_slice(), cursor)
}

// ---------------------------------------------------------------------------
// Grapheme-wise layout.
// ---------------------------------------------------------------------------

pub proof fn lemma_concat_take_prefix(gs: Seq<Seq<char>>, i: int)
    requires
        0 <= i <= gs.len(),
    ensures
        concat_all(gs.take(i)).len() <= concat_all(gs).len(),
        concat_all(gs).take(concat_all(gs.take(i)).len() as int) == concat_all(gs.take(i)),
    decreases gs.len(),
{
    if i == gs.len() {
        assert(gs.take(i) =~= gs);
    } else {
        let rest = gs.drop_last();
        assert(gs.take(i) =~= rest.take(i));
        lemma_concat_take_prefix(rest, i);
        let p = concat_all(rest.take(i));
        assert(concat_all(gs) == concat_all(rest) + gs.last());
        assert((concat_all(rest) + gs.last()).take(p.len() as int) =~= concat_all(rest).take(
            p.len() as int,
        ));
    }
}

proof fn lemma_concat_take_step(gs: Seq<Seq<char>>, i: int)
    requires
        0 <= i < gs.len(),
    ensures
        concat_all(gs.take(i + 1)) == concat_all(gs.take(i)) + gs[i],
{
    assert(gs.take(i + 1).drop_last() =~= gs.take(i));
}

/// The total width of graphemes, each measured on its own.
pub open spec fn graphemes_width(gs: Seq<Seq<char>>) -> int
    decreases gs.len(),
{
    if gs.len() == 0 {
        0
    } else {
        graphemes_width(gs.drop_last()) + column_width(gs.last()) as int
    }
}

/// The graphemes from `i` on that still fit in `max` columns once `w` are
/// used, concatenated.
pub open spec fn truncate_from(gs: Seq<Seq<char>>, i: int, w: int, max: int) -> Seq<char>
    decreases gs.len() - i,
{
    if i < 0 || i >= gs.len() {
        Seq::empty()
    } else if w + column_width(gs[i]) > max {
        Seq::empty()
    } else {
        gs[i] + truncate_from(gs, i + 1, w + column_width(gs[i]), max)
    }
}

/// `s` cut to at most `max_cols` columns: the longest run of its leading
/// graphemes whose widths add up to at most `max_cols`.
pub open spec fn spec_truncate(s: Seq<char>, max_cols: int) -> Seq<char> {
    truncate_from(grapheme_clusters(s), 0, 0, max_cols)
}

/// Truncates `s` to at most `max_cols` terminal columns (wide characters
/// count two), at a grapheme boundary. The result is a prefix of `s`
/// whose graphemes take at most `max_cols` columns.
pub fn truncate(s: &str, max_cols: usize) -> (out: String)
    ensures
        out@ == spec_truncate(s@, max_cols as int),
        out@.len() <= s@.len(),
        s@.take(out@.len() as int) == out@,
        exists|k: int|
            0 <= k <= grapheme_clusters(s@).len() && out@ == concat_all(
                #[trigger] grapheme_clusters(s@).take(k),
            ) && graphemes_width(grapheme_clusters(s@).take(k)) <= max_cols,
{
    let gs = graphemes(s);
    let ghost gv = strings_view(gs@);
    let ghost total = spec_truncate(s@, max_cols as int);
    let mut out = String::new();
    let mut w: usize = 0;
    let mut i: usize = 0;
    assert(gv.take(0) =~= Seq::<Seq<char>>::empty());
    assert(out@ + truncate_from(gv, 0, 0, max_cols as int) =~= total);
    while i < gs.len()
        invariant_except_break
            i <= gs@.len(),
            gv == strings_view(gs@),
            gv == grapheme_clusters(s@),
            concat_all(gv) == s@,
            w <= max_cols,
            out@ == concat_all(gv.take(i as int)),
            w == graphemes_width(gv.take(i as int)),
            out@ + truncate_from(gv, i as int, w as int, max_cols as int) == total,
        ensures
            i <= gs@.len(),
            gv == grapheme_clusters(s@),
            concat_all(gv) == s@,
            out@ == concat_all(gv.take(i as int)),
            w == graphemes_width(gv.take(i as int)),
            w <= max_cols,
            out@ == total,
        decreases gs@.len() - i,
    {
        let g = &gs[i];
        assert(g@ == gv[i as int]);
        let gw = unicode_column_width(g.as_str());
        if gw > max_cols || w > max_cols - gw {
            assert(out@ + Seq::<char>::empty() =~= out@);
            break;
        }
        proof {
            lemma_concat_take_step(gv, i as int);
            assert(gv.take(i + 1).drop_last() =~= gv.take(i as int));
        }
        let ghost before = out@;
        out.append(g.as_str());
        assert(before + truncate_from(gv, i as int, w as int, max_cols as int) =~= out@
            + truncate_from(gv, i + 1, w + gw, max_cols as int));
        w = w + gw;
        i = i + 1;
    }
    proof {
        if i == gs@.len() {
            assert(out@ + Seq::<char>::empty() =~= out@);
        }
        lemma_concat_take_prefix(gv, i as int);
        assert(grapheme_clusters(s@).take(i as int) == gv.take(i as int));
    }
    out
}

/// The input box's rows and where the cursor is in them (row, and column
/// in display columns).
pub struct InputLayout {
    pub rows: Vec<String>,
    pub cursor_row: usize,
    pub cursor_col: usize,
}

/// Rows laid out so far, the row being filled and its width, how many
/// characters are placed, and the cursor once found.
#[verifier::ext_equal]
pub struct LayoutState {
    pub done: Seq<Seq<char>>,
    pub row: Seq<char>,
    pub row_w: int,
    pub pos: int,
    pub cursor: Option<(int, int)>,
}

/// Places grapheme `g`: it starts a new row when it does not fit the
/// non-empty current one. The cursor, at character `cursor_pos`, is found
/// at the first grapheme at or after it; when that grapheme starts a new
/// row, the cursor is at the start of that row.
pub open spec fn layout_step(st: LayoutState, g: Seq<char>, width: int, cursor_pos: int) -> LayoutState {
    let gw = column_width(g) as int;
    let need_wrap = st.row_w + gw > width && st.row.len() > 0;
    let cursor = if st.cursor is None && st.pos >= cursor_pos {
        if need_wrap {
            Some((st.done.len() + 1int, 0int))
        } else {
            Some((st.done.len() as int, st.row_w))
        }
    } else {
        st.cursor
    };
    if need_wrap {
        LayoutState { done: st.done.push(st.row), row: g, row_w: gw, pos: st.pos + g.len(), cursor }
    } else {
        LayoutState { row: st.row + g, row_w: st.row_w + gw, pos: st.pos + g.len(), cursor, ..st }
    }
}

pub open spec fn layout_from(
    st: LayoutState,
    gs: Seq<Seq<char>>,
    i: int,
    width: int,
    cursor_pos: int,
) -> LayoutState
    decreases gs.len() - i,
{
    if i < 0 || i >= gs.len() {
        st
    } else {
        layout_from(layout_step(st, gs[i], width, cursor_pos), gs, i + 1, width, cursor_pos)
    }
}

/// An input layout as characters.
#[verifier::ext_equal]
pub struct InputLayoutView {
    pub rows: Seq<Seq<char>>,
    pub cursor_row: int,
    pub cursor_col: int,
}

impl View for InputLayout {
    type V = InputLayoutView;

    open spec fn view(&self) -> InputLayoutView {
        InputLayoutView {
            rows: strings_view(self.rows@),
            cursor_row: self.cursor_row as int,
            cursor_col: self.cursor_col as int,
        }
    }
}

/// `prompt + input` hard-wrapped to `width` columns at grapheme
/// boundaries, with the cursor at character `cursor_chars` of `input`.
/// When the cursor ends up after a row exactly `width` wide, an empty row
/// is added for it. Width 0 gives one row and the cursor at its start.
pub open spec fn spec_layout_input(
    prompt: Seq<char>,
    input: Seq<char>,
    cursor_chars: int,
    width: int,
) -> InputLayoutView {
    if width == 0 {
        InputLayoutView { rows: seq![prompt + input], cursor_row: 0, cursor_col: 0 }
    } else {
        let cursor_pos = prompt.len() + if cursor_chars < input.len() {
            cursor_chars
        } else {
            input.len() as int
        };
        let st = layout_from(
            LayoutState { done: Seq::empty(), row: Seq::empty(), row_w: 0, pos: 0, cursor: None },
            grapheme_clusters(prompt + input),
            0,
            width,
            cursor_pos,
        );
        match st.cursor {
            Some((r, c)) => InputLayoutView { rows: st.done.push(st.row), cursor_row: r, cursor_col: c },
            None => if st.row_w >= width {
                InputLayoutView {
                    rows: st.done.push(st.row).push(Seq::empty()),
                    cursor_row: st.done.len() + 1int,
                    cursor_col: 0,
                }
            } else {
                InputLayoutView {
                    rows: st.done.push(st.row),
                    cursor_row: st.done.len() as int,
                    cursor_col: st.row_w,
                }
            },
        }
    }
}

/// The cursor found so far stands on a finished row or the current one,
/// within the width.
spec fn cursor_in_rows(st: LayoutState, width: int) -> bool {
    &&& st.row_w >= 0
    &&& st.row.len() == 0 ==> st.row_w == 0
    &&& st.cursor matches Some((r, c)) ==> 0 <= r <= st.done.len() && 0 <= c <= width
}

proof fn lemma_layout_from_cursor(st: LayoutState, gs: Seq<Seq<char>>, i: int, width: int, cursor_pos: int)
    requires
        width > 0,
        cursor_in_rows(st, width),
        forall|k: int| 0 <= k < gs.len() ==> (#[trigger] gs[k]).len() > 0,
    ensures
        cursor_in_rows(layout_from(st, gs, i, width, cursor_pos), width),
    decreases gs.len() - i,
{
    if !(i < 0 || i >= gs.len()) {
        assert(gs[i].len() > 0);
        lemma_layout_from_cursor(layout_step(st, gs[i], width, cursor_pos), gs, i + 1, width, cursor_pos);
    }
}

/// The cursor of the input layout stands on one of its rows, at most
/// `width` columns in (at the start when the width is 0). This rests on the
/// grapheme clusters of the text being non-empty, as the segmentation
/// wrapper states of every text it splits.
pub proof fn law_cursor_on_a_row(prompt: Seq<char>, input: Seq<char>, cursor_chars: int, width: int)
    requires
        width >= 0,
        forall|k: int|
            0 <= k < grapheme_clusters(prompt + input).len() ==> (#[trigger] grapheme_clusters(
                prompt + input,
            )[k]).len() > 0,
    ensures
        0 <= spec_layout_input(prompt, input, cursor_chars, width).cursor_row < spec_layout_input(
            prompt,
            input,
            cursor_chars,
            width,
        ).rows.len(),
        0 <= spec_layout_input(prompt, input, cursor_chars, width).cursor_col <= width,
{
    if width > 0 {
        let cursor_pos = prompt.len() + if cursor_chars < input.len() {
            cursor_chars
        } else {
            input.len() as int
        };
        let st0 = LayoutState { done: Seq::empty(), row: Seq::empty(), row_w: 0, pos: 0, cursor: None };
        lemma_layout_from_cursor(st0, grapheme_clusters(prompt + input), 0, width, cursor_pos);
    }
}

/// Hard-wraps the prompt and input for the input box and places the
/// cursor.
pub fn layout_input(prompt: &str, input: &str, cursor_chars: usize, width: usize) -> (layout:
    InputLayout)
    ensures
        layout@ == spec_layout_input(prompt@, input@, cursor_chars as int, width as int),
        concat_all(layout@.rows) == prompt@ + input@,
{
    let mut combined = String::new();
    combined.append(prompt);
    combined.append(input);
    if width == 0 {
        let mut rows: Vec<String> = Vec::new();
        let ghost cv = combined@;
        rows.push(combined);
        assert(strings_view(rows@) =~= seq![cv]);
        assert(seq![cv].drop_last() =~= Seq::<Seq<char>>::empty());
        assert(concat_all(Seq::<Seq<char>>::empty()) == Seq::<char>::empty());
        assert(concat_all(seq![cv]) =~= cv);
        assert(cv =~= prompt@ + input@);
        return InputLayout { rows, cursor_row: 0, cursor_col: 0 };
    }
    let prompt_chars = str_to_chars(prompt);
    let input_chars = str_to_chars(input);
    let combined_chars = str_to_chars(combined.as_str());
    assert(combined@ =~= prompt@ + input@);
    let total_len = combined_chars.len();
    let cursor_pos: usize = prompt_chars.len() + if cursor_chars < input_chars.len() {
        cursor_chars
    } else {
        input_chars.len()
    };
    let gs = graphemes(combined.as_str());
    let ghost gv = strings_view(gs@);
    let ghost final_st = layout_from(
        LayoutState { done: Seq::empty(), row: Seq::empty(), row_w: 0, pos: 0, cursor: None },
        gv,
        0,
        width as int,
        cursor_pos as int,
    );
    let mut done: Vec<String> = Vec::new();
    let mut row = String::new();
    let mut row_w: usize = 0;
    let mut pos: usize = 0;
    let mut cursor: Option<(usize, usize)> = None;
    let mut i: usize = 0;
    assert(gv.take(0) =~= Seq::<Seq<char>>::empty());
    assert(strings_view(done@) =~= Seq::<Seq<char>>::empty());
    while i < gs.len()
        invariant
            i <= gs@.len(),
            width > 0,
            gv == strings_view(gs@),
            concat_all(gv) == combined@,
            combined_chars@ == combined@,
            total_len == combined_chars@.len(),
            cursor_pos <= combined@.len(),
            done@.len() + (if row@.len() > 0 {
                1int
            } else {
                0int
            }) <= i,
            row@.len() == 0 ==> row_w == 0,
            forall|j: int| 0 <= j < gs@.len() ==> (#[trigger] gs@[j])@.len() > 0,
            pos as int == concat_all(gv.take(i as int)).len(),
            concat_all(strings_view(done@)) + row@ == concat_all(gv.take(i as int)),
            layout_from(
                LayoutState {
                    done: strings_view(done@),
                    row: row@,
                    row_w: row_w as int,
                    pos: pos as int,
                    cursor: match cursor {
                        Some((r, c)) => Some((r as int, c as int)),
                        None => None,
                    },
                },
                gv,
                i as int,
                width as int,
                cursor_pos as int,
            ) == final_st,
        decreases gs@.len() - i,
    {
        let g = &gs[i];
        assert(g@ == gv[i as int]);
        let gw = unicode_column_width(g.as_str());
        let ghost st = LayoutState {
            done: strings_view(done@),
            row: row@,
            row_w: row_w as int,
            pos: pos as int,
            cursor: match cursor {
                Some((r, c)) => Some((r as int, c as int)),
                None => None,
            },
        };
        let need_wrap = (gw > width || row_w > width - gw) && !row.as_str().is_empty();
        assert(need_wrap == (row_w + gw > width && row@.len() > 0));
        if cursor.is_none() && pos >= cursor_pos {
            if need_wrap {
                cursor = Some((done.len() + 1, 0));
            } else {
                cursor = Some((done.len(), row_w));
            }
        }
        let g_len = str_to_chars(g.as_str()).len();
        proof {
            lemma_concat_take_step(gv, i as int);
            lemma_concat_take_prefix(gv, i + 1);
            assert(concat_all(gv.take(i + 1)).len() == pos + g_len);
            assert(concat_all(gv).len() == combined_chars@.len());
        }
        if need_wrap {
            let ghost dv = strings_view(done@);
            let ghost rv = row@;
            let finished = row;
            done.push(finished);
            assert(strings_view(done@) =~= dv.push(rv));
            assert(strings_view(done@).drop_last() =~= dv);
            row = String::new();
            row.append(g.as_str());
            assert(row@ =~= g@);
            assert(concat_all(strings_view(done@)) + row@ =~= concat_all(dv) + rv + g@);
            row_w = gw;
        } else {
            let ghost rv = row@;
            row.append(g.as_str());
            assert(concat_all(strings_view(done@)) + row@ =~= concat_all(strings_view(done@)) + rv + g@);
            row_w = row_w + gw;
        }
        pos = pos + g_len;
        assert(LayoutState {
            done: strings_view(done@),
            row: row@,
            row_w: row_w as int,
            pos: pos as int,
            cursor: match cursor {
                Some((r, c)) => Some((r as int, c as int)),
                None => None,
            },
        } =~= layout_step(st, gv[i as int], width as int, cursor_pos as int));
        i = i + 1;
    }
    let ghost dv = strings_view(done@);
    assert(gv.take(gs@.len() as int) =~= gv);
    assert(concat_all(dv) + row@ == prompt@ + input@);
    let (cursor_row, cursor_col) = match cursor {
        Some((r, c)) => {
            let ghost rv = row@;
            done.push(row);
            assert(strings_view(done@) =~= dv.push(rv));
            assert(strings_view(done@).drop_last() =~= dv);
            (r, c)
        },
        None => {
            if row_w >= width {
                let ghost rv = row@;
                let n = done.len();
                done.push(row);
                done.push(String::new());
                assert(strings_view(done@) =~= dv.push(rv).push(Seq::empty()));
                assert(strings_view(done@).drop_last() =~= dv.push(rv));
                assert(dv.push(rv).drop_last() =~= dv);
                assert(concat_all(dv.push(rv)) == concat_all(dv) + rv);
                assert(dv.push(rv).push(Seq::<char>::empty()).drop_last() =~= dv.push(rv));
                assert(concat_all(dv.push(rv).push(Seq::<char>::empty())) =~= concat_all(dv.push(rv)) + Seq::<char>::empty());
                (n + 1, 0)
            } else {
                let ghost rv = row@;
                let n = done.len();
                done.push(row);
                assert(strings_view(done@) =~= dv.push(rv));
                assert(strings_view(done@).drop_last() =~= dv);
                (n, row_w)
            }
        },
    };
    InputLayout { rows: done, cursor_row, cursor_col }
}

/// The width of `s` measured character by character.
pub open spec fn chars_width(s: Seq<char>) -> int
    decreases s.len(),
{
    if s.len() == 0 {
        0
    } else {
        chars_width(s.drop_last()) + column_width(seq![s.last()]) as int
    }
}

/// The first character index at or after `i` whose preceding characters
/// span at least `col` columns (the length when none does).
pub open spec fn first_index_at_col(s: Seq<char>, col: int, i: int) -> int
    decreases s.len() - i,
{
    if i < 0 || i >= s.len() {
        s.len() as int
    } else if chars_width(s.take(i)) >= col {
        i
    } else {
        first_index_at_col(s, col, i + 1)
    }
}

/// The byte offset in `s` of the first character at or past visual column
/// `col` (the length of `s` when `s` is narrower).
pub open spec fn spec_byte_pos_at_visual_col(s: Seq<char>, col: int) -> int {
    byte_len(s.take(first_index_at_col(s, col, 0))) as int
}

/// The byte offset in `s` of visual column `col`.
pub fn byte_pos_at_visual_col(s: &str, col: usize) -> (pos: usize)
    ensures
        pos == spec_byte_pos_at_visual_col(s@, col as int),
{
    let chars = str_to_chars(s);
    let total = str_byte_len(s);
    let mut current: u128 = 0;
    let mut bytes: usize = 0;
    let mut i: usize = 0;
    assert(chars@.take(0) =~= Seq::<char>::empty());
    while i < chars.len()
        invariant
            i <= chars@.len(),
            chars@ == s@,
            total == byte_len(s@),
            current == chars_width(chars@.take(i as int)),
            current <= 2 * usize::MAX,
            i > 0 ==> chars_width(chars@.take(i - 1)) < col,
            bytes == byte_len(chars@.take(i as int)),
            first_index_at_col(s@, col as int, 0) == first_index_at_col(s@, col as int, i as int),
        decreases chars@.len() - i,
    {
        if current >= col as u128 {
            return bytes;
        }
        let one = [chars[i]];
        let text = chars_to_string(one.as_slice());
        assert(one@ =~= seq![chars@[i as int]]);
        let cw = unicode_column_width(text.as_str());
        assert(chars@.take(i + 1) =~= chars@.take(i as int).push(chars@[i as int]));
        assert(chars@.take(i + 1).drop_last() =~= chars@.take(i as int));
        proof {
            lemma_encode_utf8_push(chars@.take(i as int), chars@[i as int]);
            lemma_encode_utf8_prefix_len(chars@, i + 1);
        }
        current = current + cw as u128;
        bytes = bytes + char_len_utf8(chars[i]);
        i = i + 1;
    }
    assert(chars@.take(chars@.len() as int) =~= chars@);
    total
}

/// The index of the first character of `chars` at or past visual column
/// `col` (the length when `chars` is narrower).
pub fn visual_col_index(chars: &[char], col: usize) -> (k: usize)
    ensures
        k as int == first_index_at_col(chars@, col as int, 0),
        k <= chars@.len(),
{
    let mut current: u128 = 0;
    let mut i: usize = 0;
    assert(chars@.take(0) =~= Seq::<char>::empty());
    while i < chars.len()
        invariant
            i <= chars@.len(),
            current == chars_width(chars@.take(i as int)),
            current <= 2 * usize::MAX,
            i > 0 ==> chars_width(chars@.take(i - 1)) < col,
            first_index_at_col(chars@, col as int, 0) == first_index_at_col(chars@, col as int, i as int),
        decreases chars@.len() - i,
    {
        if current >= col as u128 {
            return i;
        }
        let one = [chars[i]];
        let text = chars_to_string(one.as_slice());
        assert(one@ =~= seq![chars@[i as int]]);
        let cw = unicode_column_width(text.as_str());
        assert(chars@.take(i + 1) =~= chars@.take(i as int).push(chars@[i as int]));
        assert(chars@.take(i + 1).drop_last() =~= chars@.take(i as int));
        current = current + cw as u128;
        i = i + 1;
    }
    i
}

/// `s` padded with spaces to `target_cols` columns, when narrower.
pub open spec fn spec_pad_to_visual_width(s: Seq<char>, target_cols: int) -> Seq<char> {
    let cur = column_width(s) as int;
    if cur >= target_cols {
        s
    } else {
        s + Seq::new((target_cols - cur) as nat, |i: int| ' ')
    }
}

/// Pads `s` on the right with spaces up to `target_cols` display columns
/// (counting columns, not characters).
pub fn pad_to_visual_width(s: &str, target_cols: usize) -> (out: String)
    ensures
        out@ == spec_pad_to_visual_width(s@, target_cols as int),
{
    let cur = unicode_column_width(s);
    let mut out = String::new();
    out.append(s);
    if cur >= target_cols {
        return out;
    }
    let n = target_cols - cur;
    let mut k: usize = 0;
    while k < n
        invariant
            k <= n,
            out@ == s@ + Seq::new(k as nat, |i: int| ' '),
        decreases n - k,
    {
        out.append(" ");
        proof {
            reveal_strlit(" ");
        }
        assert(out@ =~= s@ + Seq::new((k + 1) as nat, |i: int| ' '));
        k = k + 1;
    }
    out
}

} // verus!

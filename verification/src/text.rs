//! Character-level text helpers shared by the parsers: the model of `&str`
//! operations (trimming, splitting into lines, searching) over sequences of
//! characters, and their executable counterparts over `Vec<char>`.

use vstd::prelude::*;
use vstd::slice::*;
use vstd::std_specs::iter::IteratorSpec;
use vstd::utf8::encode_utf8;

verus! {

// ---------------------------------------------------------------------------
// Conversions between `str` and characters.
// ---------------------------------------------------------------------------

/// The characters of `s`, read one by one from `str::chars`.
pub fn str_to_chars(s: &str) -> (chars: Vec<char>)
    ensures
        chars@ == s@,
{
    broadcast use vstd::string::group_string_axioms;

    let mut it = s.chars();
    let mut out: Vec<char> = Vec::new();
    loop
        invariant
            it.obeys_prophetic_iter_laws(),
            it.decrease() is Some,
            out@ + it.remaining() == s@,
        ensures
            out@ == s@,
        decreases it.decrease()->0,
    {
        let ghost before = it.remaining();
        match it.next() {
            Some(c) => {
                out.push(c);
                assert(out@ + it.remaining() == s@) by {
                    assert(before == seq![c] + it.remaining());
                }
            },
            None => {
                assert(out@ + it.remaining() == out@);
                break;
            },
        }
    }
    out
}

/// `String::push`: appends `c` to `s`.
#[verifier::external_body]
fn push_char(s: &mut String, c: char)
    ensures
        final(s)@ == old(s)@.push(c),
{
    s.push(c);
}

/// A `String` holding `chars`, built one character at a time.
pub fn chars_to_string(chars: &[char]) -> (s: String)
    ensures
        s@ == chars@,
{
    let mut out = String::new();
    let mut i: usize = 0;
    while i < chars.len()
        invariant
            i <= chars@.len(),
            out@ == chars@.take(i as int),
        decreases chars@.len() - i,
    {
        push_char(&mut out, chars[i]);
        i = i + 1;
        assert(chars@.take(i as int) == chars@.take(i - 1).push(chars@[i - 1]));
    }
    assert(chars@.take(chars@.len() as int) == chars@);
    out
}

/// The number of UTF-8 bytes of `s`.
pub open spec fn byte_len(s: Seq<char>) -> nat {
    encode_utf8(s).len()
}

/// The length of `s` in bytes, that is of its UTF-8 encoding (which fits a
/// `usize`, as every `str` does).
pub fn str_byte_len(s: &str) -> (n: usize)
    ensures
        n as nat == byte_len(s@),
{
    let bytes = s.as_bytes();
    bytes.len()
}

/// The characters of `v` as a new vector.
pub fn to_vec(v: &[char]) -> (out: Vec<char>)
    ensures
        out@ == v@,
{
    slice_to_vec(v)
}

/// The characters from `start` to `end` as a new vector.
pub fn sub_vec(v: &[char], start: usize, end: usize) -> (out: Vec<char>)
    requires
        start <= end <= v@.len(),
    ensures
        out@ == v@.subrange(start as int, end as int),
{
    slice_to_vec(slice_subrange(v, start, end))
}

/// Appends `tail` to `out`.
pub fn push_all(out: &mut Vec<char>, tail: &[char])
    ensures
        final(out)@ == old(out)@ + tail@,
{
    let mut i: usize = 0;
    while i < tail.len()
        invariant
            i <= tail@.len(),
            out@ == old(out)@ + tail@.take(i as int),
        decreases tail@.len() - i,
    {
        out.push(tail[i]);
        i = i + 1;
        assert(tail@.take(i as int) == tail@.take(i - 1).push(tail@[i - 1]));
    }
    assert(tail@.take(tail@.len() as int) == tail@);
}

/// `a` and `b` hold the same characters.
pub fn chars_eq(a: &[char], b: &[char]) -> (eq: bool)
    ensures
        eq == (a@ == b@),
{
    if a.len() != b.len() {
        return false;
    }
    let mut i: usize = 0;
    while i < a.len()
        invariant
            a@.len() == b@.len(),
            i <= a@.len(),
            forall|j: int| 0 <= j < i ==> a@[j] == b@[j],
        decreases a@.len() - i,
    {
        if a[i] != b[i] {
            return false;
        }
        i = i + 1;
    }
    assert(a@ =~= b@);
    true
}

/// `s` equals the characters of the literal `lit`.
pub fn eq_str(s: &[char], lit: &str) -> (eq: bool)
    ensures
        eq == (s@ == lit@),
{
    let l = str_to_chars(lit);
    chars_eq(s, l.as_slice())
}

// ---------------------------------------------------------------------------
// Whitespace and trimming.
// ---------------------------------------------------------------------------

/// Unicode `White_Space`, as `char::is_whitespace` defines it.
pub open spec fn is_whitespace(c: char) -> bool {
    ||| ('\t' <= c <= '\r')
    ||| c == ' '
    ||| c == '\u{85}'
    ||| c == '\u{a0}'
    ||| c == '\u{1680}'
    ||| ('\u{2000}' <= c <= '\u{200a}')
    ||| c == '\u{2028}'
    ||| c == '\u{2029}'
    ||| c == '\u{202f}'
    ||| c == '\u{205f}'
    ||| c == '\u{3000}'
}

/// Whether `c` is whitespace.
pub fn char_is_whitespace(c: char) -> (ws: bool)
    ensures
        ws == is_whitespace(c),
{
    ('\t' <= c && c <= '\r') || c == ' ' || c == '\u{85}' || c == '\u{a0}' || c == '\u{1680}'
        || ('\u{2000}' <= c && c <= '\u{200a}') || c == '\u{2028}' || c == '\u{2029}' || c
        == '\u{202f}' || c == '\u{205f}' || c == '\u{3000}'
}

/// `s` without leading whitespace.
pub open spec fn trim_start(s: Seq<char>) -> Seq<char>
    decreases s.len(),
{
    if s.len() > 0 && is_whitespace(s[0]) {
        trim_start(s.drop_first())
    } else {
        s
    }
}

/// `s` without trailing whitespace.
pub open spec fn trim_end(s: Seq<char>) -> Seq<char>
    decreases s.len(),
{
    if s.len() > 0 && is_whitespace(s.last()) {
        trim_end(s.drop_last())
    } else {
        s
    }
}

/// `s` without leading and trailing whitespace.
pub open spec fn trim(s: Seq<char>) -> Seq<char> {
    trim_end(trim_start(s))
}

proof fn lemma_trim_start_skip(s: Seq<char>, i: int)
    requires
        0 <= i <= s.len(),
        forall|j: int| 0 <= j < i ==> is_whitespace(#[trigger] s[j]),
    ensures
        trim_start(s) == trim_start(s.skip(i)),
    decreases i,
{
    if i > 0 {
        assert(is_whitespace(s[0]));
        assert(s.drop_first().skip(i - 1) == s.skip(i));
        lemma_trim_start_skip(s.drop_first(), i - 1);
    } else {
        assert(s.skip(0) == s);
    }
}

proof fn lemma_trim_end_take(s: Seq<char>, i: int)
    requires
        0 <= i <= s.len(),
        forall|j: int| i <= j < s.len() ==> is_whitespace(#[trigger] s[j]),
    ensures
        trim_end(s) == trim_end(s.take(i)),
    decreases s.len() - i,
{
    if i < s.len() {
        assert(is_whitespace(s.last()));
        assert(s.drop_last().take(i) == s.take(i));
        lemma_trim_end_take(s.drop_last(), i);
    } else {
        assert(s.take(i) == s);
    }
}

/// Where the text of `s` starts once leading whitespace is skipped.
pub fn trim_start_index(s: &[char]) -> (start: usize)
    ensures
        start <= s@.len(),
        trim_start(s@) == s@.skip(start as int),
{
    let mut i: usize = 0;
    while i < s.len() && char_is_whitespace(s[i])
        invariant
            i <= s@.len(),
            forall|j: int| 0 <= j < i ==> is_whitespace(#[trigger] s@[j]),
        decreases s@.len() - i,
    {
        i = i + 1;
    }
    proof {
        lemma_trim_start_skip(s@, i as int);
    }
    i
}

/// Where the text of `s` ends once trailing whitespace is dropped.
pub fn trim_end_index(s: &[char]) -> (end: usize)
    ensures
        end <= s@.len(),
        trim_end(s@) == s@.take(end as int),
{
    let mut i: usize = s.len();
    while i > 0 && char_is_whitespace(s[i - 1])
        invariant
            i <= s@.len(),
            forall|j: int| i <= j < s@.len() ==> is_whitespace(#[trigger] s@[j]),
        decreases i,
    {
        i = i - 1;
    }
    proof {
        lemma_trim_end_take(s@, i as int);
        assert(s@.take(i as int).len() == 0 || !is_whitespace(s@.take(i as int).last()));
    }
    i
}

/// `s` without leading whitespace, as a new vector.
pub fn trimmed_start(s: &[char]) -> (out: Vec<char>)
    ensures
        out@ == trim_start(s@),
{
    let a = trim_start_index(s);
    sub_vec(s, a, s.len())
}

/// `s` without trailing whitespace, as a new vector.
pub fn trimmed_end(s: &[char]) -> (out: Vec<char>)
    ensures
        out@ == trim_end(s@),
{
    let b = trim_end_index(s);
    sub_vec(s, 0, b)
}

/// `s` without leading or trailing whitespace, as a new vector.
pub fn trimmed(s: &[char]) -> (out: Vec<char>)
    ensures
        out@ == trim(s@),
{
    let t = trimmed_start(s);
    trimmed_end(t.as_slice())
}

// ---------------------------------------------------------------------------
// Splitting.
// ---------------------------------------------------------------------------

/// The pieces of `s` between occurrences of `sep` (as `str::split` with a
/// character pattern): always at least one piece.
pub open spec fn split_on(s: Seq<char>, sep: char) -> Seq<Seq<char>>
    decreases s.len(),
{
    if s.len() == 0 {
        seq![Seq::empty()]
    } else {
        let p = split_on(s.drop_last(), sep);
        if s.last() == sep {
            p.push(Seq::empty())
        } else {
            p.update(p.len() - 1, p.last().push(s.last()))
        }
    }
}

pub proof fn lemma_split_on_nonempty(s: Seq<char>, sep: char)
    ensures
        split_on(s, sep).len() >= 1,
    decreases s.len(),
{
    if s.len() > 0 {
        lemma_split_on_nonempty(s.drop_last(), sep);
    }
}

/// Splits `s` at every `sep`.
pub fn split_chars(s: &[char], sep: char) -> (pieces: Vec<Vec<char>>)
    ensures
        pieces@.map_values(|v: Vec<char>| v@) == split_on(s@, sep),
{
    let mut pieces: Vec<Vec<char>> = Vec::new();
    let mut current: Vec<char> = Vec::new();
    let mut i: usize = 0;
    while i < s.len()
        invariant
            i <= s@.len(),
            pieces@.map_values(|v: Vec<char>| v@).push(current@) == split_on(s@.take(i as int), sep),
        decreases s@.len() - i,
    {
        proof {
            lemma_split_on_nonempty(s@.take(i as int), sep);
        }
        let ghost prev = split_on(s@.take(i as int), sep);
        assert(s@.take(i + 1).drop_last() == s@.take(i as int));
        assert(s@.take(i + 1).last() == s@[i as int]);
        let ghost before = pieces@.map_values(|v: Vec<char>| v@);
        if s[i] == sep {
            let done = current;
            let ghost done_view = done@;
            pieces.push(done);
            current = Vec::new();
            assert(pieces@.map_values(|v: Vec<char>| v@) =~= before.push(done_view));
            assert(pieces@.map_values(|v: Vec<char>| v@).push(current@) =~= prev.push(Seq::empty()));
        } else {
            current.push(s[i]);
            assert(pieces@.map_values(|v: Vec<char>| v@).push(current@) =~= prev.update(
                prev.len() - 1,
                prev.last().push(s@[i as int]),
            ));
        }
        i = i + 1;
    }
    assert(s@.take(s@.len() as int) == s@);
    let ghost before = pieces@.map_values(|v: Vec<char>| v@);
    let ghost cur = current@;
    pieces.push(current);
    assert(pieces@.map_values(|v: Vec<char>| v@) =~= before.push(cur));
    pieces
}

/// `s` with one trailing carriage return removed.
pub open spec fn strip_cr(s: Seq<char>) -> Seq<char> {
    if s.len() > 0 && s.last() == '\r' {
        s.drop_last()
    } else {
        s
    }
}

/// The lines of `s`, as `str::lines` yields them: split at `\n`, a `\r`
/// before the `\n` dropped, and no empty last line after a final newline.
pub open spec fn spec_lines(s: Seq<char>) -> Seq<Seq<char>> {
    let p = split_on(s, '\n');
    let n = p.len() as int;
    let kept = if p[n - 1].len() == 0 {
        n - 1
    } else {
        n
    };
    Seq::new(kept as nat, |i: int| if i < n - 1 { strip_cr(p[i]) } else { p[i] })
}

/// Splits `s` into lines.
pub fn lines(s: &[char]) -> (out: Vec<Vec<char>>)
    ensures
        out@.map_values(|v: Vec<char>| v@) == spec_lines(s@),
{
    let pieces = split_chars(s, '\n');
    proof {
        lemma_split_on_nonempty(s@, '\n');
    }
    let n = pieces.len();
    let kept = if pieces[n - 1].len() == 0 {
        n - 1
    } else {
        n
    };
    let mut out: Vec<Vec<char>> = Vec::new();
    let mut i: usize = 0;
    while i < kept
        invariant
            n == pieces@.len(),
            n >= 1,
            kept <= n,
            i <= kept,
            pieces@.map_values(|v: Vec<char>| v@) == split_on(s@, '\n'),
            kept as int == (if split_on(s@, '\n')[n - 1].len() == 0 {
                n - 1
            } else {
                n as int
            }),
            out@.map_values(|v: Vec<char>| v@) == spec_lines(s@).take(i as int),
        decreases kept - i,
    {
        let piece = &pieces[i];
        assert(piece@ == split_on(s@, '\n')[i as int]);
        let ghost before = out@.map_values(|v: Vec<char>| v@);
        let line = if i + 1 < n && piece.len() > 0 && piece[piece.len() - 1] == '\r' {
            sub_vec(piece.as_slice(), 0, piece.len() - 1)
        } else {
            to_vec(piece.as_slice())
        };
        assert(line@ == spec_lines(s@)[i as int]);
        let ghost lv = line@;
        out.push(line);
        assert(out@.map_values(|v: Vec<char>| v@) =~= before.push(lv));
        i = i + 1;
        assert(out@.map_values(|v: Vec<char>| v@) =~= spec_lines(s@).take(i as int));
    }
    assert(spec_lines(s@).take(kept as int) == spec_lines(s@));
    out
}

// ---------------------------------------------------------------------------
// Searching.
// ---------------------------------------------------------------------------

/// `pat` occurs in `s` at `i`.
pub open spec fn occurs_at(s: Seq<char>, pat: Seq<char>, i: int) -> bool {
    0 <= i && i + pat.len() <= s.len() && s.subrange(i, i + pat.len()) == pat
}

/// The first position at or after `i` where `pat` occurs in `s`.
pub open spec fn find_from(s: Seq<char>, pat: Seq<char>, i: int) -> Option<int>
    decreases s.len() + 1 - i,
{
    if i < 0 || i + pat.len() > s.len() {
        None
    } else if occurs_at(s, pat, i) {
        Some(i)
    } else {
        find_from(s, pat, i + 1)
    }
}

/// The first position where `pat` occurs in `s` (as `str::find`).
pub open spec fn spec_find(s: Seq<char>, pat: Seq<char>) -> Option<int> {
    find_from(s, pat, 0)
}

/// `s` starts with `pat`.
pub open spec fn starts_with(s: Seq<char>, pat: Seq<char>) -> bool {
    pat.len() <= s.len() && s.take(pat.len() as int) == pat
}

/// Whether `pat` occurs in `s` at `i`.
pub fn matches_at(s: &[char], pat: &[char], i: usize) -> (m: bool)
    ensures
        m == occurs_at(s@, pat@, i as int),
{
    if i > s.len() || pat.len() > s.len() - i {
        return false;
    }
    let mut j: usize = 0;
    while j < pat.len()
        invariant
            i + pat.len() <= s.len(),
            i + pat@.len() <= s@.len(),
            j <= pat@.len(),
            forall|k: int| 0 <= k < j ==> s@[i + k] == pat@[k],
        decreases pat@.len() - j,
    {
        let k = i + j;
        if s[k] != pat[j] {
            assert(s@.subrange(i as int, i + pat@.len())[j as int] != pat@[j as int]);
            return false;
        }
        j = j + 1;
    }
    assert(s@.subrange(i as int, i + pat@.len()) =~= pat@);
    true
}

/// Whether `s` starts with `pat`.
pub fn has_prefix(s: &[char], pat: &[char]) -> (b: bool)
    ensures
        b == starts_with(s@, pat@),
{
    let m = matches_at(s, pat, 0);
    assert(s@.take(pat@.len() as int) == s@.subrange(0, pat@.len() as int));
    m
}

/// Whether `s` starts with the literal `lit`.
pub fn has_prefix_str(s: &[char], lit: &str) -> (b: bool)
    ensures
        b == starts_with(s@, lit@),
{
    let l = str_to_chars(lit);
    has_prefix(s, l.as_slice())
}

/// The first position where `pat` occurs in `s`.
pub fn find(s: &[char], pat: &[char]) -> (pos: Option<usize>)
    ensures
        pos matches Some(p) ==> spec_find(s@, pat@) == Some(p as int),
        pos is None ==> spec_find(s@, pat@) is None,
{
    if pat.len() > s.len() {
        return None;
    }
    let last = s.len() - pat.len();
    let mut i: usize = 0;
    loop
        invariant
            last + pat@.len() == s@.len(),
            i <= last,
            find_from(s@, pat@, 0) == find_from(s@, pat@, i as int),
        decreases last - i,
    {
        if matches_at(s, pat, i) {
            return Some(i);
        }
        if i == last {
            assert(find_from(s@, pat@, i + 1) is None);
            return None;
        }
        i = i + 1;
    }
}

/// Whether `c` occurs in `s`.
pub fn contains_char(s: &[char], c: char) -> (b: bool)
    ensures
        b == s@.contains(c),
{
    let mut i: usize = 0;
    while i < s.len()
        invariant
            i <= s@.len(),
            forall|j: int| 0 <= j < i ==> s@[j] != c,
        decreases s@.len() - i,
    {
        if s[i] == c {
            assert(s@[i as int] == c);
            return true;
        }
        i = i + 1;
    }
    false
}

/// `s` split at the first occurrence of `pat`, without it (as
/// `str::split_once`).
pub open spec fn split_once(s: Seq<char>, pat: Seq<char>) -> Option<(Seq<char>, Seq<char>)> {
    match spec_find(s, pat) {
        Some(i) => Some((s.take(i), s.skip(i + pat.len()))),
        None => None,
    }
}

/// Splits `s` at the first occurrence of `pat`.
pub fn split_once_at(s: &[char], pat: &[char]) -> (parts: Option<(Vec<char>, Vec<char>)>)
    ensures
        parts matches Some((a, b)) ==> split_once(s@, pat@) == Some((a@, b@)),
        parts is None ==> split_once(s@, pat@) is None,
{
    match find(s, pat) {
        Some(i) => {
            proof {
                lemma_find_from_occurs(s@, pat@, 0);
            }
            assert(i + pat@.len() <= s@.len());
            assert(i + pat.len() <= s.len());
            let after = i + pat.len();
            Some((sub_vec(s, 0, i), sub_vec(s, after, s.len())))
        },
        None => None,
    }
}

pub proof fn lemma_find_from_occurs(s: Seq<char>, pat: Seq<char>, i: int)
    ensures
        find_from(s, pat, i) matches Some(k) ==> i <= k && occurs_at(s, pat, k),
    decreases s.len() + 1 - i,
{
    if !(i < 0 || i + pat.len() > s.len()) && !occurs_at(s, pat, i) {
        lemma_find_from_occurs(s, pat, i + 1);
    }
}

} // verus!

verus! {

// ---------------------------------------------------------------------------
// Decimal numbers.
// ---------------------------------------------------------------------------

/// The digit character for `d < 10`.
pub open spec fn digit_char(d: nat) -> char {
    (('0' as nat) + d) as char
}

/// The decimal digits of `n`, as `{}` formats it.
pub open spec fn decimal(n: nat) -> Seq<char>
    decreases n,
{
    if n < 10 {
        seq![digit_char(n)]
    } else {
        decimal(n / 10).push(digit_char(n % 10))
    }
}

/// A signed number as `{}` formats it.
pub open spec fn signed_decimal(i: int) -> Seq<char> {
    if i < 0 {
        seq!['-'] + decimal((-i) as nat)
    } else {
        decimal(i as nat)
    }
}

/// The decimal digits of `n`.
pub fn decimal_chars(n: u64) -> (out: Vec<char>)
    ensures
        out@ == decimal(n as nat),
    decreases n,
{
    let d = (n % 10) as u8;
    let c = ((48u8 + d) as char);
    assert(c == digit_char((n % 10) as nat));
    if n < 10 {
        let mut v: Vec<char> = Vec::new();
        v.push(c);
        v
    } else {
        let mut v = decimal_chars(n / 10);
        v.push(c);
        v
    }
}

/// `i` as `{}` formats it.
pub fn signed_decimal_chars(i: i64) -> (out: Vec<char>)
    ensures
        out@ == signed_decimal(i as int),
{
    if i < 0 {
        let mag: u64 = if i == i64::MIN {
            9223372036854775808u64
        } else {
            (-i) as u64
        };
        let digits = decimal_chars(mag);
        let mut v: Vec<char> = Vec::new();
        v.push('-');
        push_all(&mut v, digits.as_slice());
        v
    } else {
        decimal_chars(i as u64)
    }
}


// ---------------------------------------------------------------------------
// Joining.
// ---------------------------------------------------------------------------

/// `parts` with `sep` between each two (as `[String]::join`).
pub open spec fn join_with(parts: Seq<Seq<char>>, sep: Seq<char>) -> Seq<char>
    decreases parts.len(),
{
    if parts.len() == 0 {
        Seq::empty()
    } else if parts.len() == 1 {
        parts[0]
    } else {
        join_with(parts.drop_last(), sep) + sep + parts.last()
    }
}

/// Joins `parts` with `sep`.
pub fn join_strings(parts: &[String], sep: &str) -> (out: String)
    ensures
        out@ == join_with(parts@.map_values(|s: String| s@), sep@),
{
    let ghost pv = parts@.map_values(|s: String| s@);
    let mut out = String::new();
    let mut i: usize = 0;
    while i < parts.len()
        invariant
            i <= parts@.len(),
            pv == parts@.map_values(|s: String| s@),
            out@ == join_with(pv.take(i as int), sep@),
        decreases parts@.len() - i,
    {
        assert(pv.take(i + 1).drop_last() =~= pv.take(i as int));
        assert(pv.take(i + 1).last() == parts@[i as int]@);
        if i > 0 {
            out.append(sep);
        } else {
            assert(pv.take(1) =~= seq![pv[0]]);
        }
        out.append(parts[i].as_str());
        i = i + 1;
    }
    assert(pv.take(parts@.len() as int) =~= pv);
    out
}

/// The decimal digits of `n`, as a `String`.
pub fn decimal_string(n: u64) -> (s: String)
    ensures
        s@ == decimal(n as nat),
{
    let d = decimal_chars(n);
    chars_to_string(d.as_slice())
}

/// The decimal digits of `i` with a sign when negative, as a `String`.
pub fn signed_decimal_string(i: i64) -> (s: String)
    ensures
        s@ == signed_decimal(i as int),
{
    let d = signed_decimal_chars(i);
    chars_to_string(d.as_slice())
}

/// `Option<String>` by its view.
pub open spec fn opt_string_view(s: Option<String>) -> Option<Seq<char>> {
    match s {
        Some(t) => Some(t@),
        None => None,
    }
}

} // verus!

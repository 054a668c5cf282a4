//! Update checks: comparing release versions, reading the release tag out of
//! a redirect URL, the proxy that `curl` should use, when to check and which
//! instance notifies. Fetching releases, sleeping and notifying are left to
//! the caller.

use vstd::prelude::*;
use vstd::string::StringExecFns;
use std::cmp::Ordering;
use crate::proxy::{ProxyEntry, proxy_lines, read_proxy_settings, is_digit};
use crate::text::{
    chars_eq, chars_to_string, contains_char, has_prefix_str, spec_lines, split_chars, split_on,
    starts_with, str_to_chars, sub_vec, trim, trimmed,
};

verus! {

/// `s` without any leading `v` or `V`.
pub open spec fn trim_leading_v(s: Seq<char>) -> Seq<char>
    decreases s.len(),
{
    if s.len() > 0 && (s[0] == 'v' || s[0] == 'V') {
        trim_leading_v(s.drop_first())
    } else {
        s
    }
}

/// `s` without any leading `c`.
pub open spec fn trim_leading(s: Seq<char>, c: char) -> Seq<char>
    decreases s.len(),
{
    if s.len() > 0 && s[0] == c {
        trim_leading(s.drop_first(), c)
    } else {
        s
    }
}

/// How many digits `s` starts with.
pub open spec fn leading_digit_count(s: Seq<char>) -> nat
    decreases s.len(),
{
    if s.len() > 0 && is_digit(s[0]) {
        1 + leading_digit_count(s.drop_first())
    } else {
        0
    }
}

/// The numbers of the dot-separated parts: each part's leading digits as
/// `u64` reads them.
pub open spec fn part_numbers(parts: Seq<Seq<char>>) -> Option<Seq<nat>>
    decreases parts.len(),
{
    if parts.len() == 0 {
        Some(Seq::empty())
    } else {
        match part_numbers(parts.drop_last()) {
            None => None,
            Some(nums) => {
                let digits = parts.last().take(leading_digit_count(parts.last()) as int);
                if digits.len() > 0 && crate::proxy::digits_value(digits) <= u64::MAX {
                    Some(nums.push(crate::proxy::digits_value(digits)))
                } else {
                    None
                }
            },
        }
    }
}

/// The numbers of a version string: whitespace and leading `v`/`V` dropped,
/// then the leading digits of each dot-separated part. `None` when a part
/// has no leading digit or a number does not fit in 64 bits.
pub open spec fn spec_version_numbers(version: Seq<char>) -> Option<Seq<nat>> {
    part_numbers(split_on(trim_leading_v(trim(version)), '.'))
}

/// The `i`-th number of `s`, or 0 past its end.
pub open spec fn number_at(s: Seq<nat>, i: int) -> nat {
    if 0 <= i < s.len() {
        s[i]
    } else {
        0
    }
}

/// Compares number lists from position `i` on, the shorter one padded with
/// zeros: -1, 0 or 1.
pub open spec fn compare_numbers_from(l: Seq<nat>, r: Seq<nat>, i: int) -> int
    decreases l.len() + r.len() - i,
{
    if i < 0 || (i >= l.len() && i >= r.len()) {
        0
    } else if number_at(l, i) < number_at(r, i) {
        -1
    } else if number_at(l, i) > number_at(r, i) {
        1
    } else {
        compare_numbers_from(l, r, i + 1)
    }
}

/// The ordering that a comparison sign stands for.
pub open spec fn ordering_of(sign: int) -> Ordering {
    if sign < 0 {
        Ordering::Less
    } else if sign > 0 {
        Ordering::Greater
    } else {
        Ordering::Equal
    }
}

/// Numeric comparison of two versions; `None` when either does not parse.
pub open spec fn version_order(left: Seq<char>, right: Seq<char>) -> Option<Ordering> {
    match (spec_version_numbers(left), spec_version_numbers(right)) {
        (Some(l), Some(r)) => Some(ordering_of(compare_numbers_from(l, r, 0))),
        _ => None,
    }
}

/// `latest` is a newer release than `current`. A date-style version
/// (`20xx...-...`) never counts as newer than a semantic version; versions
/// that do not parse count as newer whenever they differ.
pub open spec fn spec_is_newer(latest: Seq<char>, current: Seq<char>) -> bool {
    let l = trim_leading(latest, 'v');
    let c = trim_leading(current, 'v');
    if starts_with(l, "20"@) && l.contains('-') && !starts_with(c, "20"@) {
        false
    } else {
        match version_order(l, c) {
            Some(o) => o == Ordering::Greater,
            None => l != c,
        }
    }
}

/// The values of `v` as naturals.
pub open spec fn nat_values(v: Seq<u64>) -> Seq<nat> {
    v.map_values(|x: u64| x as nat)
}

/// Drops leading `v`/`V`.
fn trimmed_leading_v(s: &[char]) -> (out: Vec<char>)
    ensures
        out@ == trim_leading_v(s@),
{
    let mut i: usize = 0;
    assert(s@.skip(0) == s@);
    while i < s.len() && (s[i] == 'v' || s[i] == 'V')
        invariant
            i <= s@.len(),
            trim_leading_v(s@) == trim_leading_v(s@.skip(i as int)),
        decreases s@.len() - i,
    {
        assert(s@.skip(i as int).drop_first() == s@.skip(i + 1));
        i = i + 1;
    }
    sub_vec(s, i, s.len())
}

/// Drops leading `c`.
fn trimmed_leading(s: &[char], c: char) -> (out: Vec<char>)
    ensures
        out@ == trim_leading(s@, c),
{
    let mut i: usize = 0;
    assert(s@.skip(0) == s@);
    while i < s.len() && s[i] == c
        invariant
            i <= s@.len(),
            trim_leading(s@, c) == trim_leading(s@.skip(i as int), c),
        decreases s@.len() - i,
    {
        assert(s@.skip(i as int).drop_first() == s@.skip(i + 1));
        i = i + 1;
    }
    sub_vec(s, i, s.len())
}

proof fn lemma_leading_digits(s: Seq<char>, i: int)
    requires
        0 <= i <= s.len(),
        forall|j: int| 0 <= j < i ==> is_digit(#[trigger] s[j]),
    ensures
        leading_digit_count(s) == i + leading_digit_count(s.skip(i)),
    decreases i,
{
    if i > 0 {
        assert(s.drop_first().skip(i - 1) == s.skip(i));
        lemma_leading_digits(s.drop_first(), i - 1);
    } else {
        assert(s.skip(0) == s);
    }
}

/// The value of the leading digits of `part`, `None` when there is no
/// leading digit or the value exceeds `u64`.
fn leading_number(part: &[char]) -> (n: Option<u64>)
    ensures
        ({
            let digits = part@.take(leading_digit_count(part@) as int);
            &&& n matches Some(v) ==> digits.len() > 0 && crate::proxy::digits_value(digits) == v
            &&& n is None ==> !(digits.len() > 0 && crate::proxy::digits_value(digits) <= u64::MAX)
        }),
{
    let mut i: usize = 0;
    let mut value: u64 = 0;
    let mut over = false;
    while i < part.len() && '0' <= part[i] && part[i] <= '9'
        invariant
            i <= part@.len(),
            forall|j: int| 0 <= j < i ==> is_digit(#[trigger] part@[j]),
            !over ==> value as nat == crate::proxy::digits_value(part@.take(i as int)),
            over ==> crate::proxy::digits_value(part@.take(i as int)) > u64::MAX,
        decreases part@.len() - i,
    {
        let ghost prefix = part@.take(i as int);
        let ghost next = part@.take(i + 1);
        assert(next.drop_last() == prefix);
        assert(next.last() == part@[i as int]);
        let digit = (part[i] as u64) - ('0' as u64);
        if !over {
            match value.checked_mul(10) {
                Some(m) => match m.checked_add(digit) {
                    Some(v) => {
                        value = v;
                    },
                    None => {
                        over = true;
                    },
                },
                None => {
                    over = true;
                },
            }
        }
        i = i + 1;
    }
    proof {
        lemma_leading_digits(part@, i as int);
        if i < part@.len() {
            assert(!is_digit(part@.skip(i as int)[0]));
        }
        assert(leading_digit_count(part@.skip(i as int)) == 0);
    }
    if i == 0 || over {
        None
    } else {
        Some(value)
    }
}

/// Reads the numbers of a version string such as `v0.1.10`.
pub fn parse_version_numbers(version: &str) -> (numbers: Option<Vec<u64>>)
    ensures
        numbers matches Some(v) ==> spec_version_numbers(version@) == Some(nat_values(v@)),
        numbers is None ==> spec_version_numbers(version@) is None,
{
    let chars = str_to_chars(version);
    let t = trimmed(chars.as_slice());
    let cleaned = trimmed_leading_v(t.as_slice());
    let parts = split_chars(cleaned.as_slice(), '.');
    let ghost ps = split_on(trim_leading_v(trim(version@)), '.');
    let mut out: Vec<u64> = Vec::new();
    let mut i: usize = 0;
    while i < parts.len()
        invariant
            i <= parts@.len(),
            parts@.map_values(|v: Vec<char>| v@) == ps,
            ps == split_on(trim_leading_v(trim(version@)), '.'),
            part_numbers(ps.take(i as int)) == Some(nat_values(out@)),
        decreases parts@.len() - i,
    {
        assert(ps.take(i + 1).drop_last() == ps.take(i as int));
        assert(ps.take(i + 1).last() == parts@[i as int]@);
        match leading_number(parts[i].as_slice()) {
            Some(v) => {
                let ghost before = out@;
                out.push(v);
                assert(nat_values(out@) =~= nat_values(before).push(v as nat));
            },
            None => {
                proof {
                    lemma_part_numbers_none(ps, i as int + 1);
                }
                return None;
            },
        }
        i = i + 1;
    }
    assert(ps.take(parts@.len() as int) == ps);
    Some(out)
}

proof fn lemma_part_numbers_none(parts: Seq<Seq<char>>, k: int)
    requires
        0 <= k <= parts.len(),
        part_numbers(parts.take(k)) is None,
    ensures
        part_numbers(parts) is None,
    decreases parts.len() - k,
{
    if k < parts.len() {
        assert(parts.take(k + 1).drop_last() == parts.take(k));
        lemma_part_numbers_none(parts, k + 1);
    } else {
        assert(parts.take(k) == parts);
    }
}

proof fn lemma_compare_reflexive(l: Seq<nat>, i: int)
    ensures
        compare_numbers_from(l, l, i) == 0,
    decreases l.len() + l.len() - i,
{
    if !(i < 0 || i >= l.len()) {
        lemma_compare_reflexive(l, i + 1);
    }
}

proof fn lemma_compare_antisymmetric(l: Seq<nat>, r: Seq<nat>, i: int)
    ensures
        compare_numbers_from(l, r, i) == -compare_numbers_from(r, l, i),
    decreases l.len() + r.len() - i,
{
    if !(i < 0 || (i >= l.len() && i >= r.len())) {
        lemma_compare_antisymmetric(l, r, i + 1);
    }
}

/// The law of version comparison: comparing the other way round gives the
/// opposite order (and equal versions compare equal both ways).
pub proof fn law_version_order_antisymmetric(a: Seq<char>, b: Seq<char>)
    ensures
        version_order(a, b) is None <==> version_order(b, a) is None,
        version_order(a, b) == Some(Ordering::Less) <==> version_order(b, a) == Some(Ordering::Greater),
        version_order(a, b) == Some(Ordering::Equal) <==> version_order(b, a) == Some(Ordering::Equal),
{
    match (spec_version_numbers(a), spec_version_numbers(b)) {
        (Some(l), Some(r)) => {
            lemma_compare_antisymmetric(l, r, 0);
        },
        _ => {},
    }
}

proof fn lemma_compare_unfold(l: Seq<nat>, r: Seq<nat>, i: int)
    requires
        i >= 0,
    ensures
        compare_numbers_from(l, r, i) == (if number_at(l, i) < number_at(r, i) {
            -1
        } else if number_at(l, i) > number_at(r, i) {
            1
        } else {
            compare_numbers_from(l, r, i + 1)
        }),
{
    if i >= l.len() && i >= r.len() {
        assert(compare_numbers_from(l, r, i + 1) == 0);
    }
}

proof fn lemma_compare_transitive(a: Seq<nat>, b: Seq<nat>, c: Seq<nat>, i: int)
    requires
        i >= 0,
    ensures
        compare_numbers_from(a, b, i) <= 0 && compare_numbers_from(b, c, i) <= 0 ==> compare_numbers_from(
            a,
            c,
            i,
        ) <= 0,
        compare_numbers_from(a, b, i) < 0 && compare_numbers_from(b, c, i) <= 0 ==> compare_numbers_from(
            a,
            c,
            i,
        ) < 0,
        compare_numbers_from(a, b, i) <= 0 && compare_numbers_from(b, c, i) < 0 ==> compare_numbers_from(
            a,
            c,
            i,
        ) < 0,
    decreases a.len() + b.len() + c.len() - i,
{
    if i >= a.len() && i >= b.len() && i >= c.len() {
        assert(compare_numbers_from(a, b, i) == 0);
        assert(compare_numbers_from(b, c, i) == 0);
        assert(compare_numbers_from(a, c, i) == 0);
    } else {
        lemma_compare_unfold(a, b, i);
        lemma_compare_unfold(b, c, i);
        lemma_compare_unfold(a, c, i);
        lemma_compare_transitive(a, b, c, i + 1);
    }
}

/// The law that version order is transitive: a version older than (or
/// equal to) one that is older than (or equal to) a third is older than
/// (or equal to) the third, and strictly older when either step is.
pub proof fn law_version_order_transitive(a: Seq<char>, b: Seq<char>, c: Seq<char>)
    requires
        version_order(a, b) is Some,
        version_order(b, c) is Some,
    ensures
        version_order(a, c) is Some,
        version_order(a, b) != Some(Ordering::Greater) && version_order(b, c) != Some(Ordering::Greater)
            ==> version_order(a, c) != Some(Ordering::Greater),
        version_order(a, b) == Some(Ordering::Less) && version_order(b, c) != Some(Ordering::Greater)
            ==> version_order(a, c) == Some(Ordering::Less),
        version_order(a, b) != Some(Ordering::Greater) && version_order(b, c) == Some(Ordering::Less)
            ==> version_order(a, c) == Some(Ordering::Less),
{
    let l = spec_version_numbers(a)->0;
    let m = spec_version_numbers(b)->0;
    let r = spec_version_numbers(c)->0;
    lemma_compare_transitive(l, m, r, 0);
}

/// The law that no version is newer than itself.
pub proof fn law_not_newer_than_itself(v: Seq<char>)
    ensures
        !spec_is_newer(v, v),
{
    let l = trim_leading(v, 'v');
    match spec_version_numbers(l) {
        Some(n) => {
            lemma_compare_reflexive(n, 0);
        },
        None => {},
    }
}

/// Compares number lists, the shorter padded with zeros: -1, 0 or 1.
fn compare_numbers(l: &[u64], r: &[u64]) -> (sign: i8)
    ensures
        sign as int == compare_numbers_from(nat_values(l@), nat_values(r@), 0),
{
    let max_len = if l.len() > r.len() {
        l.len()
    } else {
        r.len()
    };
    let mut i: usize = 0;
    while i < max_len
        invariant
            i <= max_len,
            max_len == if l@.len() > r@.len() { l@.len() } else { r@.len() },
            compare_numbers_from(nat_values(l@), nat_values(r@), 0) == compare_numbers_from(
                nat_values(l@),
                nat_values(r@),
                i as int,
            ),
        decreases max_len - i,
    {
        let a: u64 = if i < l.len() {
            l[i]
        } else {
            0
        };
        let b: u64 = if i < r.len() {
            r[i]
        } else {
            0
        };
        assert(a as nat == number_at(nat_values(l@), i as int));
        assert(b as nat == number_at(nat_values(r@), i as int));
        if a < b {
            return -1;
        }
        if a > b {
            return 1;
        }
        i = i + 1;
    }
    0
}

/// Compares two versions numerically, part by part.
pub fn compare_versions(left: &str, right: &str) -> (order: Option<Ordering>)
    ensures
        order == version_order(left@, right@),
{
    let l = parse_version_numbers(left)?;
    let r = parse_version_numbers(right)?;
    let sign = compare_numbers(l.as_slice(), r.as_slice());
    if sign < 0 {
        Some(Ordering::Less)
    } else if sign > 0 {
        Some(Ordering::Greater)
    } else {
        Some(Ordering::Equal)
    }
}

/// Whether the release `latest` is newer than the running `current`.
pub fn is_newer(latest: &str, current: &str) -> (newer: bool)
    ensures
        newer == spec_is_newer(latest@, current@),
{
    let lc = str_to_chars(latest);
    let cc = str_to_chars(current);
    let l = trimmed_leading(lc.as_slice(), 'v');
    let c = trimmed_leading(cc.as_slice(), 'v');
    if has_prefix_str(l.as_slice(), "20") && contains_char(l.as_slice(), '-') && !has_prefix_str(
        c.as_slice(),
        "20",
    ) {
        return false;
    }
    let ls = chars_to_string(l.as_slice());
    let cs = chars_to_string(c.as_slice());
    match compare_versions(ls.as_str(), cs.as_str()) {
        Some(Ordering::Greater) => true,
        Some(_) => false,
        None => !chars_eq(l.as_slice(), c.as_slice()),
    }
}


/// Enabled, with a non-empty host and port (the update checker's own,
/// looser, notion of a usable proxy).
pub open spec fn has_endpoint(e: ProxyEntry) -> bool {
    e.enabled && e.host.len() > 0 && e.port.len() > 0
}

/// The proxy URL that the update checker takes from `scutil --proxy`
/// output: HTTPS, else HTTP, else SOCKS (as `socks5h`), each only when
/// enabled with a non-empty host and port.
pub open spec fn spec_update_proxy(text: Seq<char>) -> Option<Seq<char>> {
    let s = proxy_lines(spec_lines(text));
    if has_endpoint(s.https) {
        Some("http://"@ + s.https.host + ":"@ + s.https.port)
    } else if has_endpoint(s.http) {
        Some("http://"@ + s.http.host + ":"@ + s.http.port)
    } else if has_endpoint(s.socks) {
        Some("socks5h://"@ + s.socks.host + ":"@ + s.socks.port)
    } else {
        None
    }
}

/// Parses `scutil --proxy` output for the update checker's `curl` calls.
pub fn parse_scutil_proxy(text: &str) -> (url: Option<String>)
    ensures
        url matches Some(u) ==> spec_update_proxy(text@) == Some(u@),
        url is None ==> spec_update_proxy(text@) is None,
{
    let s = read_proxy_settings(text);
    if s.https.enabled && s.https.host.len() > 0 && s.https.port.len() > 0 {
        return Some(s.https.url("http://"));
    }
    if s.http.enabled && s.http.host.len() > 0 && s.http.port.len() > 0 {
        return Some(s.http.url("http://"));
    }
    if s.socks.enabled && s.socks.host.len() > 0 && s.socks.port.len() > 0 {
        return Some(s.socks.url("socks5h://"));
    }
    None
}

/// The release tag at the end of the URL that `.../releases/latest`
/// redirects to: the text after the last `/`, when it is not empty.
pub open spec fn spec_tag_from_url(url: Seq<char>) -> Option<Seq<char>> {
    let parts = split_on(trim(url), '/');
    if parts.last().len() > 0 {
        Some(parts.last())
    } else {
        None
    }
}

/// Reads the release tag out of the effective URL of the redirect.
pub fn tag_from_effective_url(url: &str) -> (tag: Option<String>)
    ensures
        tag matches Some(t) ==> spec_tag_from_url(url@) == Some(t@),
        tag is None ==> spec_tag_from_url(url@) is None,
{
    let chars = str_to_chars(url);
    let t = trimmed(chars.as_slice());
    let parts = split_chars(t.as_slice(), '/');
    proof {
        crate::text::lemma_split_on_nonempty(trim(url@), '/');
    }
    let last = &parts[parts.len() - 1];
    assert(last@ == split_on(trim(url@), '/').last());
    if last.len() > 0 {
        Some(chars_to_string(last.as_slice()))
    } else {
        None
    }
}


// ---------------------------------------------------------------------------
// When to check, who notifies.
// ---------------------------------------------------------------------------

/// Seconds to wait before the first check when no earlier check is known.
pub const INITIAL_CHECK_DELAY_SECS: u64 = 3;

/// A duration of `secs` seconds and `nanos` nanoseconds, in nanoseconds.
pub open spec fn duration_nanos(secs: u64, nanos: u32) -> int {
    secs * 1_000_000_000 + nanos
}

/// How long to wait before the first online check, in nanoseconds: what is
/// left of the check interval since the last check (`elapsed`, when its
/// time is known), or the initial delay when none is left, none is known,
/// or the update UI is forced.
pub open spec fn spec_first_check_delay(interval_secs: u64, elapsed: Option<(u64, u32)>, force_ui: bool) -> int {
    let initial = INITIAL_CHECK_DELAY_SECS * 1_000_000_000;
    if force_ui {
        initial
    } else {
        match elapsed {
            None => initial,
            Some((s, n)) => {
                let left = interval_secs * 1_000_000_000 - duration_nanos(s, n);
                if left >= 0 {
                    left
                } else {
                    initial
                }
            },
        }
    }
}

/// The wait before the first online check, as seconds and nanoseconds.
pub fn first_check_delay(interval_secs: u64, elapsed: Option<(u64, u32)>, force_ui: bool) -> (delay: (
    u64,
    u32,
))
    requires
        elapsed matches Some((s, n)) ==> n < 1_000_000_000,
    ensures
        delay.1 < 1_000_000_000,
        duration_nanos(delay.0, delay.1) == spec_first_check_delay(interval_secs, elapsed, force_ui),
{
    if force_ui {
        return (INITIAL_CHECK_DELAY_SECS, 0);
    }
    match elapsed {
        None => (INITIAL_CHECK_DELAY_SECS, 0),
        Some((s, n)) => {
            if s > interval_secs || (s == interval_secs && n > 0) {
                (INITIAL_CHECK_DELAY_SECS, 0)
            } else if n == 0 {
                (interval_secs - s, 0)
            } else {
                (interval_secs - s - 1, 1_000_000_000 - n)
            }
        },
    }
}

/// The instance that shows update notifications: the first of the running
/// GUI instances (or any, when it is alone or the UI is forced).
pub open spec fn spec_is_primary_instance(force_ui: bool, socks: Seq<Seq<char>>, my_sock: Seq<char>) -> bool {
    force_ui || socks.len() == 0 || socks[0] == my_sock
}

/// Whether this instance (listening on `my_sock`) shows update
/// notifications, given the sockets of the running GUI instances in order.
pub fn is_primary_instance(force_ui: bool, socks: &[String], my_sock: &str) -> (primary: bool)
    ensures
        primary == spec_is_primary_instance(force_ui, socks@.map_values(|s: String| s@), my_sock@),
{
    if force_ui || socks.len() == 0 {
        return true;
    }
    let first = str_to_chars(socks[0].as_str());
    let mine = str_to_chars(my_sock);
    chars_eq(first.as_slice(), mine.as_slice())
}

/// The notification that `tag` can be installed.
pub fn update_available_message(tag: &str) -> (m: String)
    ensures
        m@ == tag@ + " is available. Click to update."@,
{
    let mut m = String::from_str(tag);
    m.append(" is available. Click to update.");
    m
}

/// How recent (in seconds) the marker of a finished update must be to be
/// announced.
pub const UPDATE_MARKER_MAX_AGE_SECS: u64 = 300;

/// What to announce after an update, from the marker file left by it: its
/// content (the version) when the marker is recent and not blank.
pub open spec fn spec_update_completed_notice(content: Option<Seq<char>>, age_secs: Option<u64>) -> Option<
    Seq<char>,
> {
    match (content, age_secs) {
        (Some(c), Some(age)) => if age < UPDATE_MARKER_MAX_AGE_SECS && trim(c).len() > 0 {
            Some("Successfully updated to "@ + trim(c) + "."@)
        } else {
            None
        },
        _ => None,
    }
}

/// The notice of a finished update, from the marker's content (when it
/// could be read) and age (when known).
pub fn update_completed_notice(content: Option<&str>, age_secs: Option<u64>) -> (notice: Option<
    String,
>)
    ensures
        notice is None <==> spec_update_completed_notice(
            crate::tools::opt_str_view(content),
            age_secs,
        ) is None,
        notice matches Some(n) ==> spec_update_completed_notice(
            crate::tools::opt_str_view(content),
            age_secs,
        ) == Some(n@),
{
    match (content, age_secs) {
        (Some(c), Some(age)) => {
            if age >= UPDATE_MARKER_MAX_AGE_SECS {
                return None;
            }
            let chars = str_to_chars(c);
            let t = trimmed(chars.as_slice());
            if t.len() == 0 {
                return None;
            }
            let mut m = String::from_str("Successfully updated to ");
            m.append(chars_to_string(t.as_slice()).as_str());
            m.append(".");
            Some(m)
        },
        _ => None,
    }
}

/// Whether the release cached by the last check is announced at startup:
/// only when update checks are enabled and it is newer than this build.
pub fn startup_notice_due(checks_enabled: bool, cached_tag: Option<&str>, current: &str) -> (due: bool)
    ensures
        due == (checks_enabled && match cached_tag {
            Some(t) => spec_is_newer(t@, current@),
            None => false,
        }),
{
    if !checks_enabled {
        return false;
    }
    match cached_tag {
        Some(t) => is_newer(t, current),
        None => false,
    }
}

/// What one round of the periodic update check does: the notification it
/// shows, if any, and whether the fetched release is recorded (which also
/// records the time of the check).
pub struct CheckRound {
    pub notify: Option<String>,
    pub record_release: bool,
}

/// One round of the periodic check: nothing when checks are disabled or
/// fetching the latest release failed; otherwise the release is recorded,
/// and the primary instance announces it when it is newer than this build
/// (or the update UI is forced).
pub open spec fn spec_check_round(
    checks_enabled: bool,
    latest_tag: Option<Seq<char>>,
    current: Seq<char>,
    force_ui: bool,
    socks: Seq<Seq<char>>,
    my_sock: Seq<char>,
) -> (Option<Seq<char>>, bool) {
    if !checks_enabled {
        (None, false)
    } else {
        match latest_tag {
            None => (None, false),
            Some(tag) => (
                if (spec_is_newer(tag, current) || force_ui) && spec_is_primary_instance(
                    force_ui,
                    socks,
                    my_sock,
                ) {
                    Some(tag + " is available. Click to update."@)
                } else {
                    None
                },
                true,
            ),
        }
    }
}

/// Decides one round of the periodic update check, from the tag of the
/// latest release (none when fetching it failed).
pub fn check_round(
    checks_enabled: bool,
    latest_tag: Option<&str>,
    current: &str,
    force_ui: bool,
    socks: &[String],
    my_sock: &str,
) -> (round: CheckRound)
    ensures
        ({
            let (n, r) = spec_check_round(
                checks_enabled,
                crate::tools::opt_str_view(latest_tag),
                current@,
                force_ui,
                socks@.map_values(|s: String| s@),
                my_sock@,
            );
            &&& crate::text::opt_string_view(round.notify) == n
            &&& round.record_release == r
        }),
{
    if !checks_enabled {
        return CheckRound { notify: None, record_release: false };
    }
    match latest_tag {
        None => CheckRound { notify: None, record_release: false },
        Some(tag) => {
            let announce = (is_newer(tag, current) || force_ui) && is_primary_instance(force_ui, socks, my_sock);
            let notify = if announce {
                Some(update_available_message(tag))
            } else {
                None
            };
            CheckRound { notify, record_release: true }
        },
    }
}
} // verus!

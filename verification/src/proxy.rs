//! System proxy settings: reading the output of `scutil --proxy` and turning
//! macOS proxy exceptions into the `NoProxy` syntax that HTTP clients expect.
//! Running `scutil` and touching the environment is left to the caller.

use vstd::prelude::*;
use crate::text::{
    chars_to_string, char_is_whitespace, contains_char, eq_str, has_prefix, is_whitespace, lines,
    push_all, spec_lines, split_chars, split_on, split_once, split_once_at, starts_with, str_to_chars,
    to_vec, trim, trimmed,
};
use vstd::slice::slice_subrange;
use crate::text::{find_from, lemma_split_on_nonempty, occurs_at, spec_find};

verus! {

/// One proxy kind as `scutil --proxy` reports it.
pub struct ProxyEntry {
    pub enabled: bool,
    pub host: Seq<char>,
    pub port: Seq<char>,
}

/// The three proxy kinds that matter, in order of preference.
pub struct ProxySettings {
    pub https: ProxyEntry,
    pub http: ProxyEntry,
    pub socks: ProxyEntry,
}

pub open spec fn no_proxy_entry() -> ProxyEntry {
    ProxyEntry { enabled: false, host: Seq::empty(), port: Seq::empty() }
}

pub open spec fn no_proxy_settings() -> ProxySettings {
    ProxySettings { https: no_proxy_entry(), http: no_proxy_entry(), socks: no_proxy_entry() }
}

/// The settings after one `Key : Value` line; other lines change nothing.
pub open spec fn proxy_line(s: ProxySettings, line: Seq<char>) -> ProxySettings {
    match split_once(trim(line), " : "@) {
        Some((k, v)) => {
            let key = trim(k);
            let val = trim(v);
            if key == "HTTPSEnable"@ {
                ProxySettings { https: ProxyEntry { enabled: val == "1"@, ..s.https }, ..s }
            } else if key == "HTTPSProxy"@ {
                ProxySettings { https: ProxyEntry { host: val, ..s.https }, ..s }
            } else if key == "HTTPSPort"@ {
                ProxySettings { https: ProxyEntry { port: val, ..s.https }, ..s }
            } else if key == "HTTPEnable"@ {
                ProxySettings { http: ProxyEntry { enabled: val == "1"@, ..s.http }, ..s }
            } else if key == "HTTPProxy"@ {
                ProxySettings { http: ProxyEntry { host: val, ..s.http }, ..s }
            } else if key == "HTTPPort"@ {
                ProxySettings { http: ProxyEntry { port: val, ..s.http }, ..s }
            } else if key == "SOCKSEnable"@ {
                ProxySettings { socks: ProxyEntry { enabled: val == "1"@, ..s.socks }, ..s }
            } else if key == "SOCKSProxy"@ {
                ProxySettings { socks: ProxyEntry { host: val, ..s.socks }, ..s }
            } else if key == "SOCKSPort"@ {
                ProxySettings { socks: ProxyEntry { port: val, ..s.socks }, ..s }
            } else {
                s
            }
        },
        None => s,
    }
}

/// The settings after reading `lines` in order (later lines win).
pub open spec fn proxy_lines(lines: Seq<Seq<char>>) -> ProxySettings
    decreases lines.len(),
{
    if lines.len() == 0 {
        no_proxy_settings()
    } else {
        proxy_line(proxy_lines(lines.drop_last()), lines.last())
    }
}

/// `c` is an ASCII digit.
pub open spec fn is_digit(c: char) -> bool {
    '0' <= c <= '9'
}

/// Every character of `s` is an ASCII digit.
pub open spec fn all_digits(s: Seq<char>) -> bool {
    forall|i: int| 0 <= i < s.len() ==> is_digit(#[trigger] s[i])
}

/// The number that the decimal digits `d` spell.
pub open spec fn digits_value(d: Seq<char>) -> nat
    decreases d.len(),
{
    if d.len() == 0 {
        0
    } else {
        digits_value(d.drop_last()) * 10 + (d.last() as nat - '0' as nat) as nat
    }
}

/// `s` as the `from_str` of an unsigned integer type whose largest value is
/// `max` reads it: an optional `+`, then at least one digit, and nothing
/// else, with a value of at most `max`.
pub open spec fn spec_parse_unsigned(s: Seq<char>, max: nat) -> Option<nat> {
    let d = if s.len() > 0 && s[0] == '+' {
        s.drop_first()
    } else {
        s
    };
    if d.len() > 0 && all_digits(d) && digits_value(d) <= max {
        Some(digits_value(d))
    } else {
        None
    }
}

/// `s` as `u16::from_str` reads it.
pub open spec fn spec_parse_u16(s: Seq<char>) -> Option<nat> {
    spec_parse_unsigned(s, 65535)
}

/// A usable port: a 16-bit number other than zero.
pub open spec fn spec_is_valid_port(s: Seq<char>) -> bool {
    spec_parse_u16(s) matches Some(p) && p > 0
}

/// A usable host: not empty, and no whitespace, `/` or `:` in it.
pub open spec fn spec_is_valid_host(s: Seq<char>) -> bool {
    &&& s.len() > 0
    &&& forall|i: int| 0 <= i < s.len() ==> !is_whitespace(#[trigger] s[i]) && s[i] != '/' && s[i] != ':'
}

/// The entry is enabled and names a usable host and port.
pub open spec fn usable(e: ProxyEntry) -> bool {
    e.enabled && spec_is_valid_host(e.host) && spec_is_valid_port(e.port)
}

/// The proxy URL that `scutil --proxy` output selects: HTTPS, else HTTP,
/// else SOCKS (as `socks5h`), each only when enabled with a usable endpoint.
pub open spec fn spec_parse_scutil_proxy(text: Seq<char>) -> Option<Seq<char>> {
    let s = proxy_lines(spec_lines(text));
    if usable(s.https) {
        Some("http://"@ + s.https.host + ":"@ + s.https.port)
    } else if usable(s.http) {
        Some("http://"@ + s.http.host + ":"@ + s.http.port)
    } else if usable(s.socks) {
        Some("socks5h://"@ + s.socks.host + ":"@ + s.socks.port)
    } else {
        None
    }
}

/// Parses `s` as an unsigned number of at most `max`.
pub fn parse_unsigned(s: &[char], max: u32) -> (value: Option<u32>)
    ensures
        value matches Some(v) ==> spec_parse_unsigned(s@, max as nat) == Some(v as nat),
        value is None ==> spec_parse_unsigned(s@, max as nat) is None,
{
    let start: usize = if s.len() > 0 && s[0] == '+' {
        1
    } else {
        0
    };
    let ghost d = if s@.len() > 0 && s@[0] == '+' {
        s@.drop_first()
    } else {
        s@
    };
    assert(d == s@.skip(start as int));
    if start >= s.len() {
        assert(d.len() == 0);
        return None;
    }
    let mut value: u32 = 0;
    let mut over = false;
    let mut i = start;
    while i < s.len()
        invariant
            start <= i <= s@.len(),
            d == s@.skip(start as int),
            spec_parse_unsigned(s@, max as nat) == (if d.len() > 0 && all_digits(d) && digits_value(d) <= max {
                Some(digits_value(d))
            } else {
                None
            }),
            all_digits(s@.subrange(start as int, i as int)),
            !over ==> value as nat == digits_value(s@.subrange(start as int, i as int)) && value <= max,
            over ==> digits_value(s@.subrange(start as int, i as int)) > max,
        decreases s@.len() - i,
    {
        let c = s[i];
        if !('0' <= c && c <= '9') {
            assert(!is_digit(d[i - start]));
            return None;
        }
        let ghost prefix = s@.subrange(start as int, i as int);
        let ghost next = s@.subrange(start as int, i + 1);
        assert(next.drop_last() == prefix);
        assert(next.last() == c);
        assert(all_digits(next));
        let digit = (c as u32) - ('0' as u32);
        if !over {
            let v: u64 = value as u64 * 10 + digit as u64;
            if v > max as u64 {
                over = true;
            } else {
                value = v as u32;
            }
        }
        i = i + 1;
    }
    assert(s@.subrange(start as int, s@.len() as int) == d);
    if over {
        None
    } else {
        Some(value)
    }
}

/// Parses `s` as a 16-bit unsigned number.
pub fn parse_u16(s: &[char]) -> (value: Option<u16>)
    ensures
        value matches Some(v) ==> spec_parse_u16(s@) == Some(v as nat),
        value is None ==> spec_parse_u16(s@) is None,
{
    match parse_unsigned(s, 65535) {
        Some(v) => Some(v as u16),
        None => None,
    }
}

/// Whether `s` is a usable port.
fn is_valid_port(s: &[char]) -> (valid: bool)
    ensures
        valid == spec_is_valid_port(s@),
{
    match parse_u16(s) {
        Some(p) => p > 0,
        None => false,
    }
}

/// Whether `s` is a usable host.
fn is_valid_host(s: &[char]) -> (valid: bool)
    ensures
        valid == spec_is_valid_host(s@),
{
    if s.len() == 0 {
        return false;
    }
    let mut i: usize = 0;
    while i < s.len()
        invariant
            i <= s@.len(),
            forall|j: int| 0 <= j < i ==> !is_whitespace(#[trigger] s@[j]) && s@[j] != '/' && s@[j] != ':',
        decreases s@.len() - i,
    {
        let c = s[i];
        if char_is_whitespace(c) || c == '/' || c == ':' {
            return false;
        }
        i = i + 1;
    }
    true
}

/// Exec form of one proxy kind.
pub(crate) struct Entry {
    pub(crate) enabled: bool,
    pub(crate) host: Vec<char>,
    pub(crate) port: Vec<char>,
}

impl Entry {
    pub(crate) open spec fn model(&self) -> ProxyEntry {
        ProxyEntry { enabled: self.enabled, host: self.host@, port: self.port@ }
    }

    fn new() -> (e: Entry)
        ensures
            e.model() == no_proxy_entry(),
    {
        Entry { enabled: false, host: Vec::new(), port: Vec::new() }
    }

    fn usable(&self) -> (u: bool)
        ensures
            u == usable(self.model()),
    {
        self.enabled && is_valid_host(self.host.as_slice()) && is_valid_port(self.port.as_slice())
    }

    pub(crate) fn url(&self, scheme: &str) -> (url: String)
        ensures
            url@ == scheme@ + self.host@ + ":"@ + self.port@,
    {
        let mut out = str_to_chars(scheme);
        push_all(&mut out, self.host.as_slice());
        let colon = str_to_chars(":");
        push_all(&mut out, colon.as_slice());
        push_all(&mut out, self.port.as_slice());
        chars_to_string(out.as_slice())
    }
}

/// The three proxy kinds read from `scutil --proxy` output.
pub(crate) struct Settings {
    pub(crate) https: Entry,
    pub(crate) http: Entry,
    pub(crate) socks: Entry,
}

impl Settings {
    pub(crate) open spec fn model(&self) -> ProxySettings {
        ProxySettings { https: self.https.model(), http: self.http.model(), socks: self.socks.model() }
    }
}

/// Reads every `Key : Value` line of `scutil --proxy` output.
pub(crate) fn read_proxy_settings(text: &str) -> (s: Settings)
    ensures
        s.model() == proxy_lines(spec_lines(text@)),
{
    let chars = str_to_chars(text);
    let all = lines(chars.as_slice());
    let ghost ls = spec_lines(text@);
    let mut https = Entry::new();
    let mut http = Entry::new();
    let mut socks = Entry::new();
    let sep = str_to_chars(" : ");
    let mut i: usize = 0;
    while i < all.len()
        invariant
            i <= all@.len(),
            all@.map_values(|v: Vec<char>| v@) == ls,
            sep@ == " : "@,
            (ProxySettings { https: https.model(), http: http.model(), socks: socks.model() })
                == proxy_lines(ls.take(i as int)),
        decreases all@.len() - i,
    {
        assert(ls.take(i + 1).drop_last() == ls.take(i as int));
        assert(ls.take(i + 1).last() == all@[i as int]@);
        let line = trimmed(all[i].as_slice());
        if let Some((k, v)) = split_once_at(line.as_slice(), sep.as_slice()) {
            let key = trimmed(k.as_slice());
            let val = trimmed(v.as_slice());
            let key = key.as_slice();
            if eq_str(key, "HTTPSEnable") {
                https.enabled = eq_str(val.as_slice(), "1");
            } else if eq_str(key, "HTTPSProxy") {
                https.host = val;
            } else if eq_str(key, "HTTPSPort") {
                https.port = val;
            } else if eq_str(key, "HTTPEnable") {
                http.enabled = eq_str(val.as_slice(), "1");
            } else if eq_str(key, "HTTPProxy") {
                http.host = val;
            } else if eq_str(key, "HTTPPort") {
                http.port = val;
            } else if eq_str(key, "SOCKSEnable") {
                socks.enabled = eq_str(val.as_slice(), "1");
            } else if eq_str(key, "SOCKSProxy") {
                socks.host = val;
            } else if eq_str(key, "SOCKSPort") {
                socks.port = val;
            }
        }
        i = i + 1;
    }
    assert(ls.take(all@.len() as int) == ls);
    Settings { https, http, socks }
}

/// Parses `scutil --proxy` output and returns the preferred proxy URL
/// (HTTPS, then HTTP, then SOCKS). `None` when no enabled proxy has a usable
/// host and port.
pub fn parse_scutil_proxy(text: &str) -> (url: Option<String>)
    ensures
        url matches Some(u) ==> spec_parse_scutil_proxy(text@) == Some(u@),
        url is None ==> spec_parse_scutil_proxy(text@) is None,
{
    let s = read_proxy_settings(text);
    if s.https.usable() {
        return Some(s.https.url("http://"));
    }
    if s.http.usable() {
        return Some(s.http.url("http://"));
    }
    if s.socks.usable() {
        return Some(s.socks.url("socks5h://"));
    }
    None
}

/// `s` repeated `n` times.
pub open spec fn repeat(s: Seq<char>, n: nat) -> Seq<char>
    decreases n,
{
    if n == 0 {
        Seq::empty()
    } else {
        repeat(s, (n - 1) as nat) + s
    }
}

/// The address part is a dotted IPv4 prefix: no `:`, and every dot-separated
/// part is a non-empty run of digits.
pub open spec fn is_dotted_ipv4(ip: Seq<char>) -> bool {
    let parts = split_on(ip, '.');
    &&& !ip.contains(':')
    &&& forall|i: int| 0 <= i < parts.len() ==> (#[trigger] parts[i]).len() > 0 && all_digits(parts[i])
}

/// A macOS proxy exception in `NoProxy` syntax: `*.domain` becomes
/// `.domain`, and an abbreviated CIDR such as `169.254/16` is padded with
/// zero octets to four (`169.254.0.0/16`). Anything else is kept as it is.
pub open spec fn spec_normalize_no_proxy_entry(entry: Seq<char>) -> Seq<char> {
    if starts_with(entry, "*."@) {
        "."@ + entry.skip(2)
    } else {
        match split_once(entry, "/"@) {
            None => entry,
            Some((ip, mask)) => {
                let n = split_on(ip, '.').len();
                if is_dotted_ipv4(ip) && n < 4 {
                    ip + repeat(".0"@, (4 - n) as nat) + "/"@ + mask
                } else {
                    entry
                }
            },
        }
    }
}

proof fn lemma_split_leading_sep(s: Seq<char>, sep: char)
    requires
        s.len() > 0,
        s[0] == sep,
    ensures
        split_on(s, sep).len() >= 2,
        split_on(s, sep)[0].len() == 0,
    decreases s.len(),
{
    if s.len() == 1 {
        assert(s.drop_last() =~= Seq::<char>::empty());
    } else {
        lemma_split_leading_sep(s.drop_last(), sep);
    }
}

proof fn lemma_split_pad_len(s: Seq<char>, m: nat)
    ensures
        split_on(s + repeat(".0"@, m), '.').len() == split_on(s, '.').len() + m,
    decreases m,
{
    reveal_strlit(".0");
    if m == 0 {
        assert(s + repeat(".0"@, 0) =~= s);
    } else {
        lemma_split_pad_len(s, (m - 1) as nat);
        let t = s + repeat(".0"@, (m - 1) as nat);
        assert(repeat(".0"@, m) == repeat(".0"@, (m - 1) as nat) + ".0"@);
        assert(s + repeat(".0"@, m) =~= t.push('.').push('0'));
        assert(t.push('.').push('0').drop_last() =~= t.push('.'));
        assert(t.push('.').drop_last() =~= t);
        lemma_split_on_nonempty(t, '.');
        assert(split_on(t.push('.'), '.') == split_on(t, '.').push(Seq::empty()));
        assert(split_on(t.push('.').push('0'), '.').len() == split_on(t.push('.'), '.').len());
    }
}

proof fn lemma_repeat_pad_chars(m: nat)
    ensures
        forall|i: int| 0 <= i < repeat(".0"@, m).len() ==> #[trigger] repeat(".0"@, m)[i] == '.' || repeat(".0"@, m)[i] == '0',
    decreases m,
{
    reveal_strlit(".0");
    if m > 0 {
        lemma_repeat_pad_chars((m - 1) as nat);
        let r = repeat(".0"@, (m - 1) as nat);
        assert(repeat(".0"@, m) == r + ".0"@);
        assert forall|i: int| 0 <= i < repeat(".0"@, m).len() implies #[trigger] repeat(".0"@, m)[i] == '.'
            || repeat(".0"@, m)[i] == '0' by {
            if i < r.len() {
                assert(repeat(".0"@, m)[i] == r[i]);
            }
        }
    }
}

proof fn lemma_find_slash_first(s: Seq<char>, j: int, k: int)
    requires
        0 <= j,
        find_from(s, "/"@, j) == Some(k),
    ensures
        forall|t: int| j <= t < k ==> s[t] != '/',
        0 <= k < s.len(),
        s[k] == '/',
    decreases s.len() + 1 - j,
{
    reveal_strlit("/");
    if occurs_at(s, "/"@, j) {
        assert(s.subrange(j, j + 1)[0] == s[j]);
    } else {
        assert(s.subrange(j, j + 1)[0] == s[j]);
        assert(s[j] != '/') by {
            if s[j] == '/' {
                assert(s.subrange(j, j + 1) =~= "/"@);
            }
        }
        lemma_find_slash_first(s, j + 1, k);
    }
}

proof fn lemma_find_slash_at(s: Seq<char>, a: int, j: int)
    requires
        0 <= j <= a < s.len(),
        s[a] == '/',
        forall|t: int| j <= t < a ==> s[t] != '/',
    ensures
        find_from(s, "/"@, j) == Some(a),
    decreases a - j,
{
    reveal_strlit("/");
    if j == a {
        assert(s.subrange(j, j + 1) =~= "/"@);
    } else {
        assert(s.subrange(j, j + 1)[0] == s[j]);
        lemma_find_slash_at(s, a, j + 1);
    }
}

/// The law of normalizing proxy exceptions: a normalized entry is already
/// in `NoProxy` syntax, so normalizing it again changes nothing.
pub proof fn law_normalize_no_proxy_entry_idempotent(entry: Seq<char>)
    ensures
        spec_normalize_no_proxy_entry(spec_normalize_no_proxy_entry(entry)) == spec_normalize_no_proxy_entry(
            entry,
        ),
{
    reveal_strlit("*.");
    reveal_strlit(".");
    reveal_strlit("/");
    reveal_strlit(".0");
    let n = spec_normalize_no_proxy_entry(entry);
    if starts_with(entry, "*."@) {
        assert(n[0] == '.');
        assert(!starts_with(n, "*."@)) by {
            if starts_with(n, "*."@) {
                assert(n.take(2)[0] == n[0]);
            }
        }
        match split_once(n, "/"@) {
            None => {},
            Some((ip, mask)) => {
                let i = spec_find(n, "/"@).unwrap();
                lemma_find_slash_first(n, 0, i);
                assert(ip == n.take(i));
                if i == 0 {
                    assert(ip =~= Seq::<char>::empty());
                    assert(split_on(ip, '.')[0].len() == 0);
                } else {
                    assert(ip[0] == '.');
                    lemma_split_leading_sep(ip, '.');
                }
                assert(!is_dotted_ipv4(ip));
            },
        }
    } else {
        match split_once(entry, "/"@) {
            None => {},
            Some((ip, mask)) => {
                let k = split_on(ip, '.').len();
                if is_dotted_ipv4(ip) && k < 4 {
                    let m = (4 - k) as nat;
                    let pad = repeat(".0"@, m);
                    let i = spec_find(entry, "/"@).unwrap();
                    lemma_find_slash_first(entry, 0, i);
                    assert(ip == entry.take(i));
                    lemma_split_on_nonempty(ip, '.');
                    assert(ip.len() > 0) by {
                        if ip.len() == 0 {
                            assert(split_on(ip, '.') =~= seq![Seq::<char>::empty()]);
                            assert(split_on(ip, '.')[0].len() > 0);
                        }
                    }
                    let ip2 = ip + pad;
                    assert(n =~= ip2 + "/"@ + mask);
                    // The first character is a digit, not `*`.
                    assert(split_on(ip, '.')[0].len() > 0);
                    assert(!starts_with(n, "*."@)) by {
                        lemma_split_first_piece_prefix(ip, '.');
                        if starts_with(n, "*."@) {
                            assert(n.take(2)[0] == n[0]);
                            assert(n[0] == ip[0]);
                            let first = split_on(ip, '.')[0];
                            assert(first[0] == ip.take(first.len() as int)[0]);
                            assert(is_digit(first[0]));
                        }
                    }
                    lemma_repeat_pad_chars(m);
                    assert forall|t: int| 0 <= t < ip2.len() implies ip2[t] != '/' by {
                        if t < ip.len() {
                            assert(ip2[t] == entry[t]);
                        } else {
                            assert(ip2[t] == pad[t - ip.len()]);
                        }
                    }
                    assert(n[ip2.len() as int] == '/');
                    lemma_find_slash_at(n, ip2.len() as int, 0);
                    assert(split_once(n, "/"@) == Some((n.take(ip2.len() as int), n.skip(ip2.len() + 1int))));
                    assert(n.take(ip2.len() as int) =~= ip2);
                    lemma_split_pad_len(ip, m);
                    assert(split_on(ip2, '.').len() == 4);
                }
            },
        }
    }
}

proof fn lemma_split_first_piece_prefix(s: Seq<char>, sep: char)
    ensures
        split_on(s, sep)[0].len() <= s.len(),
        split_on(s, sep)[0] == s.take(split_on(s, sep)[0].len() as int),
        split_on(s, sep).len() == 1 ==> split_on(s, sep)[0] == s,
    decreases s.len(),
{
    lemma_split_on_nonempty(s, sep);
    if s.len() == 0 {
        assert(s.take(0) =~= s);
    } else {
        lemma_split_first_piece_prefix(s.drop_last(), sep);
        lemma_split_on_nonempty(s.drop_last(), sep);
        let p = split_on(s.drop_last(), sep);
        let q = p[0];
        if s.last() == sep {
            assert(split_on(s, sep)[0] == q);
            assert(s.take(q.len() as int) =~= s.drop_last().take(q.len() as int));
        } else if p.len() == 1 {
            assert(split_on(s, sep)[0] == q.push(s.last()));
            assert(q == s.drop_last());
            assert(q.push(s.last()) =~= s);
            assert(s.take(s.len() as int) =~= s);
        } else {
            assert(split_on(s, sep)[0] == q);
            assert(s.take(q.len() as int) =~= s.drop_last().take(q.len() as int));
        }
    }
}

/// Converts a macOS proxy-exception entry into `NoProxy` syntax.
pub fn normalize_no_proxy_entry(entry: &str) -> (out: String)
    ensures
        out@ == spec_normalize_no_proxy_entry(entry@),
{
    let chars = str_to_chars(entry);
    let out = normalize_entry_chars(chars.as_slice());
    chars_to_string(out.as_slice())
}

/// Converts a macOS proxy-exception entry, as characters.
fn normalize_entry_chars(entry: &[char]) -> (out: Vec<char>)
    ensures
        out@ == spec_normalize_no_proxy_entry(entry@),
{
    let star = str_to_chars("*.");
    if has_prefix(entry, star.as_slice()) {
        let mut out = str_to_chars(".");
        proof {
            reveal_strlit("*.");
        }
        assert(star@.len() == 2);
        push_all(&mut out, slice_subrange(entry, 2, entry.len()));
        return out;
    }
    let slash = str_to_chars("/");
    let (ip, mask) = match split_once_at(entry, slash.as_slice()) {
        Some(parts) => parts,
        None => return to_vec(entry),
    };
    let octets = split_chars(ip.as_slice(), '.');
    let mut dotted = !contains_char(ip.as_slice(), ':');
    let mut i: usize = 0;
    while i < octets.len()
        invariant
            i <= octets@.len(),
            octets@.map_values(|v: Vec<char>| v@) == split_on(ip@, '.'),
            dotted == (!ip@.contains(':') && forall|j: int|
                0 <= j < i ==> (#[trigger] split_on(ip@, '.')[j]).len() > 0 && all_digits(
                    split_on(ip@, '.')[j],
                )),
        decreases octets@.len() - i,
    {
        let o = octets[i].as_slice();
        assert(o@ == split_on(ip@, '.')[i as int]);
        let mut all = o.len() > 0;
        let mut k: usize = 0;
        while k < o.len()
            invariant
                k <= o@.len(),
                all == (o@.len() > 0 && forall|m: int| 0 <= m < k ==> is_digit(#[trigger] o@[m])),
            decreases o@.len() - k,
        {
            if !('0' <= o[k] && o[k] <= '9') {
                all = false;
            }
            k = k + 1;
        }
        dotted = dotted && all;
        i = i + 1;
    }
    if !dotted || octets.len() >= 4 {
        return to_vec(entry);
    }
    let mut out = to_vec(ip.as_slice());
    let pad = str_to_chars(".0");
    let mut count = octets.len();
    while count < 4
        invariant
            octets@.len() <= count <= 4,
            out@ == ip@ + repeat(pad@, (count - octets@.len()) as nat),
        decreases 4 - count,
    {
        push_all(&mut out, pad.as_slice());
        count = count + 1;
    }
    push_all(&mut out, slash.as_slice());
    push_all(&mut out, mask.as_slice());
    out
}

/// Where reading the `ExceptionsList` array has got to.
pub struct ExceptionScan {
    pub entries: Seq<Seq<char>>,
    pub in_list: bool,
    pub done: bool,
}

/// One line of `scutil --proxy` output: the list opens at a line starting
/// with `ExceptionsList` that holds `{`, closes at a line starting with `}`,
/// and in between each `index : value` line with a non-empty value adds the
/// normalized value.
pub open spec fn exception_line(s: ExceptionScan, line: Seq<char>) -> ExceptionScan {
    let t = trim(line);
    if s.done {
        s
    } else if !s.in_list {
        if starts_with(t, "ExceptionsList"@) && t.contains('{') {
            ExceptionScan { in_list: true, ..s }
        } else {
            s
        }
    } else if starts_with(t, "}"@) {
        ExceptionScan { done: true, ..s }
    } else {
        match split_once(t, " : "@) {
            Some((_, v)) => if trim(v).len() > 0 {
                ExceptionScan { entries: s.entries.push(spec_normalize_no_proxy_entry(trim(v))), ..s }
            } else {
                s
            },
            None => s,
        }
    }
}

/// Reading `lines` in order.
pub open spec fn exception_lines(lines: Seq<Seq<char>>) -> ExceptionScan
    decreases lines.len(),
{
    if lines.len() == 0 {
        ExceptionScan { entries: Seq::empty(), in_list: false, done: false }
    } else {
        exception_line(exception_lines(lines.drop_last()), lines.last())
    }
}

/// The normalized entries of the `ExceptionsList` array in `scutil --proxy`
/// output.
pub open spec fn spec_parse_scutil_exceptions(text: Seq<char>) -> Seq<Seq<char>> {
    exception_lines(spec_lines(text)).entries
}

proof fn lemma_exception_lines_done(lines: Seq<Seq<char>>, k: int)
    requires
        0 <= k <= lines.len(),
        exception_lines(lines.take(k)).done,
    ensures
        exception_lines(lines) == exception_lines(lines.take(k)),
    decreases lines.len() - k,
{
    if k < lines.len() {
        assert(lines.take(k + 1).drop_last() == lines.take(k));
        lemma_exception_lines_done(lines, k + 1);
    } else {
        assert(lines.take(k) == lines);
    }
}

/// Parses the `ExceptionsList` array out of `scutil --proxy` output and
/// normalizes each entry for `NoProxy`.
pub fn parse_scutil_exceptions(text: &str) -> (entries: Vec<String>)
    ensures
        entries@.map_values(|s: String| s@) == spec_parse_scutil_exceptions(text@),
{
    let chars = str_to_chars(text);
    let all = lines(chars.as_slice());
    let ghost ls = spec_lines(text@);
    let mut entries: Vec<String> = Vec::new();
    let mut in_list = false;
    let mut done = false;
    let sep = str_to_chars(" : ");
    let open_key = str_to_chars("ExceptionsList");
    let close = str_to_chars("}");
    let mut i: usize = 0;
    assert(entries@.map_values(|s: String| s@) =~= Seq::<Seq<char>>::empty());
    while i < all.len() && !done
        invariant
            i <= all@.len(),
            all@.map_values(|v: Vec<char>| v@) == ls,
            sep@ == " : "@,
            open_key@ == "ExceptionsList"@,
            close@ == "}"@,
            (ExceptionScan { entries: entries@.map_values(|s: String| s@), in_list, done })
                == exception_lines(ls.take(i as int)),
        decreases all@.len() - i,
    {
        assert(ls.take(i + 1).drop_last() == ls.take(i as int));
        assert(ls.take(i + 1).last() == all@[i as int]@);
        let t = trimmed(all[i].as_slice());
        let t = t.as_slice();
        if !in_list {
            if has_prefix(t, open_key.as_slice()) && contains_char(t, '{') {
                in_list = true;
            }
        } else if has_prefix(t, close.as_slice()) {
            done = true;
        } else if let Some((_, v)) = split_once_at(t, sep.as_slice()) {
            let v = trimmed(v.as_slice());
            if v.len() > 0 {
                let normalized = normalize_entry_chars(v.as_slice());
                let ghost before = entries@.map_values(|s: String| s@);
                let s = chars_to_string(normalized.as_slice());
                let ghost sv = s@;
                entries.push(s);
                assert(entries@.map_values(|s: String| s@) =~= before.push(sv));
            }
        }
        i = i + 1;
    }
    proof {
        if done {
            lemma_exception_lines_done(ls, i as int);
        } else {
            assert(ls.take(i as int) == ls);
        }
    }
    entries
}

/// The variables through which curl takes a proxy.
pub open spec fn spec_proxy_env_vars() -> Seq<Seq<char>> {
    seq!["https_proxy"@, "HTTPS_PROXY"@, "http_proxy"@, "HTTP_PROXY"@, "ALL_PROXY"@, "all_proxy"@]
}

/// The proxy variables: a proxy already set in any of them is left to
/// curl, and a detected system proxy is handed on in all of them.
pub fn proxy_env_vars() -> (names: Vec<String>)
    ensures
        names@.map_values(|s: String| s@) == spec_proxy_env_vars(),
{
    let items = ["https_proxy", "HTTPS_PROXY", "http_proxy", "HTTP_PROXY", "ALL_PROXY", "all_proxy"];
    let v = crate::tools::string_vec(items.as_slice());
    assert(items@.map_values(|s: &str| s@) =~= spec_proxy_env_vars());
    v
}

/// The octets of an address joined with dots.
pub open spec fn dotted(octets: Seq<Seq<char>>) -> Seq<char>
    decreases octets.len(),
{
    if octets.len() == 0 {
        Seq::empty()
    } else if octets.len() == 1 {
        octets[0]
    } else {
        dotted(octets.drop_last()) + seq!['.'] + octets.last()
    }
}

/// `k` octets of value zero.
pub open spec fn zero_octets(k: nat) -> Seq<Seq<char>> {
    Seq::new(k, |i: int| seq!['0'])
}

proof fn lemma_split_without_sep(t: Seq<char>, sep: char)
    requires
        forall|i: int| 0 <= i < t.len() ==> t[i] != sep,
    ensures
        split_on(t, sep) == seq![t],
    decreases t.len(),
{
    if t.len() == 0 {
        assert(t =~= Seq::<char>::empty());
    } else {
        lemma_split_without_sep(t.drop_last(), sep);
        assert(t.drop_last().push(t.last()) =~= t);
        assert(seq![t.drop_last()].update(0, t.drop_last().push(t.last())) =~= seq![t]);
    }
}

proof fn lemma_split_after_sep(s: Seq<char>, t: Seq<char>, sep: char)
    requires
        forall|i: int| 0 <= i < t.len() ==> t[i] != sep,
    ensures
        split_on(s + seq![sep] + t, sep) == split_on(s, sep).push(t),
    decreases t.len(),
{
    let u = s + seq![sep] + t;
    if t.len() == 0 {
        assert(u.drop_last() =~= s);
        assert(u.last() == sep);
        assert(t =~= Seq::<char>::empty());
    } else {
        lemma_split_after_sep(s, t.drop_last(), sep);
        assert(u.drop_last() =~= s + seq![sep] + t.drop_last());
        assert(u.last() == t.last());
        let p = split_on(s, sep).push(t.drop_last());
        assert(t.drop_last().push(t.last()) =~= t);
        assert(p.update(p.len() - 1, p.last().push(t.last())) =~= split_on(s, sep).push(t));
    }
}

proof fn lemma_dotted(octets: Seq<Seq<char>>)
    requires
        octets.len() >= 1,
        forall|k: int| 0 <= k < octets.len() ==> (#[trigger] octets[k]).len() > 0 && all_digits(octets[k]),
    ensures
        split_on(dotted(octets), '.') == octets,
        forall|t: int| 0 <= t < dotted(octets).len() ==> is_digit(#[trigger] dotted(octets)[t]) || dotted(
            octets,
        )[t] == '.',
        dotted(octets).len() > 0,
        is_digit(dotted(octets)[0]),
    decreases octets.len(),
{
    if octets.len() == 1 {
        let o = octets[0];
        assert(all_digits(o));
        assert forall|i: int| 0 <= i < o.len() implies o[i] != '.' by {
            assert(is_digit(o[i]));
        }
        lemma_split_without_sep(o, '.');
        assert(seq![o] =~= octets);
        assert forall|t: int| 0 <= t < o.len() implies is_digit(#[trigger] o[t]) || o[t] == '.' by {
            assert(is_digit(o[t]));
        }
        assert(is_digit(o[0]));
    } else {
        let front = octets.drop_last();
        let last = octets.last();
        assert forall|k: int| 0 <= k < front.len() implies (#[trigger] front[k]).len() > 0 && all_digits(
            front[k],
        ) by {
            assert(front[k] == octets[k]);
        }
        lemma_dotted(front);
        let d = dotted(front);
        assert(last == octets[octets.len() - 1]);
        assert(all_digits(last));
        assert forall|i: int| 0 <= i < last.len() implies last[i] != '.' by {
            assert(is_digit(last[i]));
        }
        lemma_split_after_sep(d, last, '.');
        assert(front.push(last) =~= octets);
        let all = dotted(octets);
        assert(all == d + seq!['.'] + last);
        assert forall|t: int| 0 <= t < all.len() implies is_digit(#[trigger] all[t]) || all[t] == '.' by {
            if t < d.len() {
                assert(all[t] == d[t]);
            } else if t == d.len() {
                assert(all[t] == '.');
            } else {
                assert(all[t] == last[t - d.len() - 1]);
                assert(is_digit(last[t - d.len() - 1]));
            }
        }
        assert(all[0] == d[0]);
    }
}

proof fn lemma_dotted_zeros(octets: Seq<Seq<char>>, k: nat)
    requires
        octets.len() >= 1,
    ensures
        dotted(octets + zero_octets(k)) == dotted(octets) + repeat(".0"@, k),
    decreases k,
{
    reveal_strlit(".0");
    if k == 0 {
        assert(octets + zero_octets(0) =~= octets);
        assert(dotted(octets) + repeat(".0"@, 0) =~= dotted(octets));
    } else {
        lemma_dotted_zeros(octets, (k - 1) as nat);
        let q = octets + zero_octets(k);
        assert(q.drop_last() =~= octets + zero_octets((k - 1) as nat));
        assert(q.last() == seq!['0']);
        assert(q.len() >= 2);
        assert(dotted(q) == dotted(q.drop_last()) + seq!['.'] + q.last());
        assert(dotted(octets) + repeat(".0"@, k) =~= dotted(octets) + repeat(".0"@, (k - 1) as nat) + seq![
            '.',
        ] + seq!['0']);
    }
}

/// An abbreviated IPv4 CIDR (one to three octets of digits, then `/` and
/// the mask) is padded with zero octets to four: the normalized entry is
/// the four octets, the given ones followed by `0`s, then `/` and the
/// mask as it was.
pub proof fn law_abbreviated_cidr_padded_to_four_octets(octets: Seq<Seq<char>>, mask: Seq<char>)
    requires
        1 <= octets.len() <= 3,
        forall|k: int| 0 <= k < octets.len() ==> (#[trigger] octets[k]).len() > 0 && all_digits(octets[k]),
    ensures
        spec_normalize_no_proxy_entry(dotted(octets) + "/"@ + mask) == dotted(
            octets + zero_octets((4 - octets.len()) as nat),
        ) + "/"@ + mask,
{
    reveal_strlit("/");
    reveal_strlit("*.");
    let ip = dotted(octets);
    lemma_dotted(octets);
    let entry = ip + "/"@ + mask;
    assert(entry[0] == ip[0]);
    assert(!starts_with(entry, "*."@)) by {
        if starts_with(entry, "*."@) {
            assert(entry.take(2)[0] == entry[0]);
            assert(is_digit(ip[0]));
        }
    }
    assert forall|t: int| 0 <= t < ip.len() implies entry[t] != '/' by {
        assert(entry[t] == ip[t]);
        assert(is_digit(ip[t]) || ip[t] == '.');
    }
    assert(entry[ip.len() as int] == '/');
    lemma_find_slash_at(entry, ip.len() as int, 0);
    assert(split_once(entry, "/"@) == Some((entry.take(ip.len() as int), entry.skip(ip.len() + 1int))));
    assert(entry.take(ip.len() as int) =~= ip);
    assert(entry.skip(ip.len() + 1int) =~= mask);
    assert(!ip.contains(':')) by {
        if ip.contains(':') {
            let t = choose|t: int| 0 <= t < ip.len() && ip[t] == ':';
            assert(is_digit(ip[t]) || ip[t] == '.');
        }
    }
    assert(is_dotted_ipv4(ip));
    lemma_dotted_zeros(octets, (4 - octets.len()) as nat);
}

} // verus!

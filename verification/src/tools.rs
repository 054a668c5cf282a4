//! What the chat agent's tools decide and report, apart from the file
//! system, processes and network they drive: output budgets, regex
//! escaping, search commands and their reports, shell and background
//! process reports, line ranges, patches, result truncation, path
//! resolution and the protected secret locations.

use vstd::prelude::*;
use vstd::string::StringExecFns;
use crate::soul::join_nonempty;
use vstd::utf8::{encode_scalar, encode_utf8};
use crate::text::{
    byte_len, chars_to_string, decimal, decimal_string, eq_str, join_strings, join_with,
    signed_decimal, signed_decimal_string, spec_find, spec_lines, starts_with, str_byte_len,
    str_to_chars, trim, trim_end, trimmed, trimmed_end,
};

verus! {

// ---------------------------------------------------------------------------
// Output budgets.
// ---------------------------------------------------------------------------

/// The budget of a tool without a tier of its own.
pub const DEFAULT_RESULT_BYTES: usize = 8000;

/// The normal and the expanded output budget of `tool`, in bytes.
pub open spec fn tool_budget(tool: Seq<char>) -> (nat, nat) {
    if tool == "fs_list"@ || tool == "pwd"@ || tool == "memory_read"@ || tool == "soul_read"@
        || tool == "project_summary"@ {
        (2000, 4000)
    } else if tool == "fs_read"@ || tool == "grep_search"@ || tool == "symbol_search"@ {
        (8000, 16000)
    } else if tool == "file_tree"@ {
        (4000, 8000)
    } else if tool == "shell_exec"@ || tool == "shell_poll"@ {
        (12000, 24000)
    } else if tool == "web_fetch"@ || tool == "read_url"@ {
        (10000, 20000)
    } else if tool == "shell_bg"@ {
        (8000, 8000)
    } else {
        (DEFAULT_RESULT_BYTES as nat, DEFAULT_RESULT_BYTES as nat)
    }
}

/// The byte budget of a tool's result for the `detail` tier: `brief` is
/// half the normal budget, `full` the expanded one, anything else normal.
pub open spec fn spec_budget_for(tool: Seq<char>, detail: Seq<char>) -> nat {
    let (normal, expanded) = tool_budget(tool);
    if detail == "brief"@ {
        normal / 2
    } else if detail == "full"@ {
        expanded
    } else {
        normal
    }
}

/// The byte budget of `tool`'s result at the `detail` tier.
pub fn budget_for(tool: &str, detail: &str) -> (budget: usize)
    ensures
        budget == spec_budget_for(tool@, detail@),
{
    let t = str_to_chars(tool);
    let t = t.as_slice();
    let (normal, expanded): (usize, usize) = if eq_str(t, "fs_list") || eq_str(t, "pwd") || eq_str(
        t,
        "memory_read",
    ) || eq_str(t, "soul_read") || eq_str(t, "project_summary") {
        (2000, 4000)
    } else if eq_str(t, "fs_read") || eq_str(t, "grep_search") || eq_str(t, "symbol_search") {
        (8000, 16000)
    } else if eq_str(t, "file_tree") {
        (4000, 8000)
    } else if eq_str(t, "shell_exec") || eq_str(t, "shell_poll") {
        (12000, 24000)
    } else if eq_str(t, "web_fetch") || eq_str(t, "read_url") {
        (10000, 20000)
    } else if eq_str(t, "shell_bg") {
        (8000, 8000)
    } else {
        (DEFAULT_RESULT_BYTES, DEFAULT_RESULT_BYTES)
    };
    let d = str_to_chars(detail);
    if eq_str(d.as_slice(), "brief") {
        normal / 2
    } else if eq_str(d.as_slice(), "full") {
        expanded
    } else {
        normal
    }
}

// ---------------------------------------------------------------------------
// Regex escaping and symbol patterns.
// ---------------------------------------------------------------------------

/// A character with a meaning in a regex.
pub open spec fn is_regex_special(c: char) -> bool {
    c == '\\' || c == '.' || c == '+' || c == '*' || c == '?' || c == '(' || c == ')' || c == '|'
        || c == '[' || c == ']' || c == '{' || c == '}' || c == '^' || c == '$'
}

/// `s` with a backslash before each regex metacharacter.
pub open spec fn spec_escape_regex(s: Seq<char>) -> Seq<char>
    decreases s.len(),
{
    if s.len() == 0 {
        Seq::empty()
    } else {
        let c = s.last();
        spec_escape_regex(s.drop_last()) + if is_regex_special(c) {
            seq!['\\', c]
        } else {
            seq![c]
        }
    }
}

/// Escapes regex metacharacters so `s` matches literally.
pub fn escape_regex(s: &str) -> (out: String)
    ensures
        out@ == spec_escape_regex(s@),
{
    let chars = str_to_chars(s);
    let mut out: Vec<char> = Vec::new();
    let mut i: usize = 0;
    while i < chars.len()
        invariant
            i <= chars@.len(),
            chars@ == s@,
            out@ == spec_escape_regex(s@.take(i as int)),
        decreases chars@.len() - i,
    {
        let c = chars[i];
        assert(s@.take(i + 1).drop_last() =~= s@.take(i as int));
        if c == '\\' || c == '.' || c == '+' || c == '*' || c == '?' || c == '(' || c == ')' || c
            == '|' || c == '[' || c == ']' || c == '{' || c == '}' || c == '^' || c == '$' {
            out.push('\\');
        }
        out.push(c);
        assert(out@ =~= spec_escape_regex(s@.take(i + 1)));
        i = i + 1;
    }
    assert(s@.take(chars@.len() as int) =~= s@);
    chars_to_string(out.as_slice())
}

/// The definition patterns for a symbol search of the escaped name `q`,
/// by `kind` (`function`, `type`, `class`, `method`, else all), joined as
/// alternatives.
pub open spec fn spec_symbol_pattern(q: Seq<char>, kind: Seq<char>) -> Seq<char> {
    let fns = "(fn|function|def|func)\\s+"@ + q;
    let bindings = "(const|let|var)\\s+"@ + q + "\\s*=\\s*(async\\s+)?\\("@;
    if kind == "function"@ {
        fns + "|"@ + bindings
    } else if kind == "type"@ {
        "(type|struct|enum|interface|typedef)\\s+"@ + q
    } else if kind == "class"@ {
        "(class|struct)\\s+"@ + q
    } else if kind == "method"@ {
        "(fn|def|func|function)\\s+"@ + q + "|"@ + "\\."@ + q + "\\s*=\\s*function"@
    } else {
        fns + "|"@ + bindings + "|"@ + "(type|struct|enum|interface|class|trait|typedef)\\s+"@ + q
            + "|"@ + "(pub\\s+)?(mod|module)\\s+"@ + q
    }
}

/// The regex that finds definitions of `query` of the given kind.
pub fn symbol_pattern(query: &str, kind: &str) -> (pattern: String)
    ensures
        pattern@ == spec_symbol_pattern(spec_escape_regex(query@), kind@),
{
    let q = escape_regex(query);
    let k = str_to_chars(kind);
    let k = k.as_slice();
    let mut out = String::new();
    if eq_str(k, "function") {
        out.append("(fn|function|def|func)\\s+");
        out.append(q.as_str());
        out.append("|");
        out.append("(const|let|var)\\s+");
        out.append(q.as_str());
        out.append("\\s*=\\s*(async\\s+)?\\(");
    } else if eq_str(k, "type") {
        out.append("(type|struct|enum|interface|typedef)\\s+");
        out.append(q.as_str());
    } else if eq_str(k, "class") {
        out.append("(class|struct)\\s+");
        out.append(q.as_str());
    } else if eq_str(k, "method") {
        out.append("(fn|def|func|function)\\s+");
        out.append(q.as_str());
        out.append("|");
        out.append("\\.");
        out.append(q.as_str());
        out.append("\\s*=\\s*function");
    } else {
        out.append("(fn|function|def|func)\\s+");
        out.append(q.as_str());
        out.append("|");
        out.append("(const|let|var)\\s+");
        out.append(q.as_str());
        out.append("\\s*=\\s*(async\\s+)?\\(");
        out.append("|");
        out.append("(type|struct|enum|interface|class|trait|typedef)\\s+");
        out.append(q.as_str());
        out.append("|");
        out.append("(pub\\s+)?(mod|module)\\s+");
        out.append(q.as_str());
    }
    out
}

/// `pat` occurs somewhere in `s`.
pub open spec fn contains_seq(s: Seq<char>, pat: Seq<char>) -> bool {
    spec_find(s, pat) is Some
}

fn contains_str(s: &[char], pat: &str) -> (b: bool)
    ensures
        b == contains_seq(s@, pat@),
{
    let p = str_to_chars(pat);
    crate::text::find(s, p.as_slice()).is_some()
}

/// A result line that looks like a definition (holds a definition
/// keyword followed by a space).
pub open spec fn has_definition_keyword(line: Seq<char>) -> bool {
    contains_seq(line, "fn "@) || contains_seq(line, "function "@) || contains_seq(line, "def "@)
        || contains_seq(line, "struct "@) || contains_seq(line, "class "@) || contains_seq(
        line,
        "type "@,
    ) || contains_seq(line, "enum "@) || contains_seq(line, "trait "@) || contains_seq(
        line,
        "interface "@,
    )
}

fn definition_line(line: &[char]) -> (b: bool)
    ensures
        b == has_definition_keyword(line@),
{
    contains_str(line, "fn ") || contains_str(line, "function ") || contains_str(line, "def ")
        || contains_str(line, "struct ") || contains_str(line, "class ") || contains_str(
        line,
        "type ",
    ) || contains_str(line, "enum ") || contains_str(line, "trait ") || contains_str(
        line,
        "interface ",
    )
}

/// The wall-clock limit of a search, in seconds.
pub const SEARCH_TIMEOUT_SECS: u64 = 30;

/// The report of a symbol search from the search's output: at most the
/// first hundred lines, definition-looking lines first (each group in its
/// order), and a note when the search timed out; a message when it found
/// nothing.
pub open spec fn spec_symbol_search_report(text: Seq<char>, query: Seq<char>, timed_out: bool) -> Seq<
    char,
> {
    if trim(text).len() == 0 {
        if timed_out {
            "symbol_search timed out after "@ + decimal(SEARCH_TIMEOUT_SECS as nat)
                + "s with no results for '"@ + query + "'."@
        } else {
            "No symbol definitions found for '"@ + query + "'."@
        }
    } else {
        let all = spec_lines(text);
        let lines = if all.len() > 100 {
            all.take(100)
        } else {
            all
        };
        let ordered = lines.filter(|l: Seq<char>| has_definition_keyword(l)) + lines.filter(
            |l: Seq<char>| !has_definition_keyword(l),
        );
        join_with(ordered, "\n"@) + if timed_out {
            "\n[... timed out after "@ + decimal(SEARCH_TIMEOUT_SECS as nat)
                + "s, results may be partial]"@
        } else {
            Seq::empty()
        }
    }
}

/// The views of lines held as character vectors.
pub open spec fn char_lines_view(v: Seq<Vec<char>>) -> Seq<Seq<char>> {
    v.map_values(|l: Vec<char>| l@)
}

/// The lines of `lines` whose definition-keyword test is `wanted`, as
/// strings, in order.
fn lines_with_keyword(lines: &Vec<Vec<char>>, n: usize, wanted: bool) -> (out: Vec<String>)
    requires
        n <= lines@.len(),
    ensures
        out@.map_values(|s: String| s@) == char_lines_view(lines@).take(n as int).filter(
            |l: Seq<char>| has_definition_keyword(l) == wanted,
        ),
{
    let ghost lv = char_lines_view(lines@);
    let ghost pred = |l: Seq<char>| has_definition_keyword(l) == wanted;
    let mut out: Vec<String> = Vec::new();
    let mut i: usize = 0;
    while i < n
        invariant
            i <= n <= lines@.len(),
            lv == char_lines_view(lines@),
            pred == (|l: Seq<char>| has_definition_keyword(l) == wanted),
            out@.map_values(|s: String| s@) == lv.take(i as int).filter(pred),
        decreases n - i,
    {
        proof {
            reveal(Seq::filter);
            assert(lv.take(i + 1).drop_last() =~= lv.take(i as int));
        }
        let line = &lines[i];
        assert(line@ == lv[i as int]);
        if definition_line(line.as_slice()) == wanted {
            let ghost before = out@.map_values(|s: String| s@);
            out.push(chars_to_string(line.as_slice()));
            assert(out@.map_values(|s: String| s@) =~= before.push(line@));
        }
        i = i + 1;
    }
    out
}

/// The report of a symbol search for `query`.
pub fn symbol_search_report(text: &str, query: &str, timed_out: bool) -> (report: String)
    ensures
        report@ == spec_symbol_search_report(text@, query@, timed_out),
{
    let chars = str_to_chars(text);
    let t = trimmed(chars.as_slice());
    let secs = decimal_string(SEARCH_TIMEOUT_SECS);
    let mut out = String::new();
    if t.len() == 0 {
        if timed_out {
            out.append("symbol_search timed out after ");
            out.append(secs.as_str());
            out.append("s with no results for '");
            out.append(query);
            out.append("'.");
        } else {
            out.append("No symbol definitions found for '");
            out.append(query);
            out.append("'.");
        }
        return out;
    }
    let all = crate::text::lines(chars.as_slice());
    let n = if all.len() > 100 {
        100
    } else {
        all.len()
    };
    let ghost lv = char_lines_view(all@);
    assert(lv.take(n as int) == (if lv.len() > 100 {
        lv.take(100)
    } else {
        lv
    }));
    let mut first = lines_with_keyword(&all, n, true);
    let mut rest = lines_with_keyword(&all, n, false);
    assert((|l: Seq<char>| has_definition_keyword(l) == true) =~= (|l: Seq<char>|
        has_definition_keyword(l)));
    assert((|l: Seq<char>| has_definition_keyword(l) == false) =~= (|l: Seq<char>|
        !has_definition_keyword(l)));
    let ghost fv = first@.map_values(|s: String| s@);
    let ghost rv = rest@.map_values(|s: String| s@);
    first.append(&mut rest);
    assert(first@.map_values(|s: String| s@) =~= fv + rv);
    out = join_strings(first.as_slice(), "\n");
    if timed_out {
        out.append("\n[... timed out after ");
        out.append(secs.as_str());
        out.append("s, results may be partial]");
    } else {
        assert(out@ + Seq::<char>::empty() =~= out@);
    }
    out
}

// ---------------------------------------------------------------------------
// Search commands and reports.
// ---------------------------------------------------------------------------

/// A program to run and its arguments.
pub struct SearchCommand {
    pub program: String,
    pub args: Vec<String>,
}

/// The optional glob filter as arguments: the flag and the glob.
pub open spec fn glob_args(flag: Seq<char>, glob: Option<Seq<char>>) -> Seq<Seq<char>> {
    match glob {
        Some(g) => seq![flag, g],
        None => Seq::empty(),
    }
}

/// The arguments of a text search: ripgrep when it is installed (with a
/// per-file match limit), else `grep -rn`.
pub open spec fn spec_grep_args(
    use_rg: bool,
    pattern: Seq<char>,
    path: Seq<char>,
    glob: Option<Seq<char>>,
    context_lines: nat,
    case_insensitive: bool,
    max_results: nat,
) -> Seq<Seq<char>> {
    if use_rg {
        seq![
            "--line-number"@,
            "--no-heading"@,
            "--color=never"@,
            "--context="@ + decimal(context_lines),
            "--max-count="@ + decimal(max_results),
        ] + (if case_insensitive {
            seq!["--ignore-case"@]
        } else {
            Seq::empty()
        }) + glob_args("--glob"@, glob) + seq![pattern, path]
    } else {
        seq!["-rn"@, "-C"@ + decimal(context_lines), "--color=never"@] + (if case_insensitive {
            seq!["-i"@]
        } else {
            Seq::empty()
        }) + glob_args("--include"@, glob) + seq![pattern, path]
    }
}

/// The arguments of a symbol search for the pattern `pattern`.
pub open spec fn spec_symbol_args(
    use_rg: bool,
    pattern: Seq<char>,
    path: Seq<char>,
    glob: Option<Seq<char>>,
) -> Seq<Seq<char>> {
    if use_rg {
        seq!["--line-number"@, "--no-heading"@, "--color=never"@, "--max-count=50"@] + glob_args(
            "--glob"@,
            glob,
        ) + seq![pattern, path]
    } else {
        seq!["-rn"@, "--color=never"@, "-E"@] + glob_args("--include"@, glob) + seq![pattern, path]
    }
}

/// An optional string as characters.
pub open spec fn opt_str_view(s: Option<&str>) -> Option<Seq<char>> {
    match s {
        Some(t) => Some(t@),
        None => None,
    }
}

fn push_str_arg(args: &mut Vec<String>, a: &str)
    ensures
        final(args)@.map_values(|s: String| s@) == old(args)@.map_values(|s: String| s@).push(a@),
{
    let ghost before = args@.map_values(|s: String| s@);
    args.push(String::from_str(a));
    assert(args@.map_values(|s: String| s@) =~= before.push(a@));
}

fn push_prefixed_number(args: &mut Vec<String>, prefix: &str, n: u64)
    ensures
        final(args)@.map_values(|s: String| s@) == old(args)@.map_values(|s: String| s@).push(
            prefix@ + decimal(n as nat),
        ),
{
    let ghost before = args@.map_values(|s: String| s@);
    let mut a = String::from_str(prefix);
    let d = decimal_string(n);
    a.append(d.as_str());
    args.push(a);
    assert(args@.map_values(|s: String| s@) =~= before.push(prefix@ + decimal(n as nat)));
}

/// The program and arguments of a text search.
pub fn grep_command(
    use_rg: bool,
    pattern: &str,
    path: &str,
    glob: Option<&str>,
    context_lines: usize,
    case_insensitive: bool,
    max_results: usize,
) -> (cmd: SearchCommand)
    ensures
        cmd.program@ == (if use_rg {
            "rg"@
        } else {
            "grep"@
        }),
        cmd.args@.map_values(|s: String| s@) == spec_grep_args(
            use_rg,
            pattern@,
            path@,
            opt_str_view(glob),
            context_lines as nat,
            case_insensitive,
            max_results as nat,
        ),
{
    let mut args: Vec<String> = Vec::new();
    let program;
    if use_rg {
        program = String::from_str("rg");
        push_str_arg(&mut args, "--line-number");
        push_str_arg(&mut args, "--no-heading");
        push_str_arg(&mut args, "--color=never");
        push_prefixed_number(&mut args, "--context=", context_lines as u64);
        push_prefixed_number(&mut args, "--max-count=", max_results as u64);
        if case_insensitive {
            push_str_arg(&mut args, "--ignore-case");
        }
        if let Some(g) = glob {
            push_str_arg(&mut args, "--glob");
            push_str_arg(&mut args, g);
        }
    } else {
        program = String::from_str("grep");
        push_str_arg(&mut args, "-rn");
        push_prefixed_number(&mut args, "-C", context_lines as u64);
        push_str_arg(&mut args, "--color=never");
        if case_insensitive {
            push_str_arg(&mut args, "-i");
        }
        if let Some(g) = glob {
            push_str_arg(&mut args, "--include");
            push_str_arg(&mut args, g);
        }
    }
    push_str_arg(&mut args, pattern);
    push_str_arg(&mut args, path);
    assert(args@.map_values(|s: String| s@) =~= spec_grep_args(
        use_rg,
        pattern@,
        path@,
        opt_str_view(glob),
        context_lines as nat,
        case_insensitive,
        max_results as nat,
    ));
    SearchCommand { program, args }
}

/// The program and arguments of a symbol search for `pattern`.
pub fn symbol_command(use_rg: bool, pattern: &str, path: &str, glob: Option<&str>) -> (cmd:
    SearchCommand)
    ensures
        cmd.program@ == (if use_rg {
            "rg"@
        } else {
            "grep"@
        }),
        cmd.args@.map_values(|s: String| s@) == spec_symbol_args(
            use_rg,
            pattern@,
            path@,
            opt_str_view(glob),
        ),
{
    let mut args: Vec<String> = Vec::new();
    let program;
    if use_rg {
        program = String::from_str("rg");
        push_str_arg(&mut args, "--line-number");
        push_str_arg(&mut args, "--no-heading");
        push_str_arg(&mut args, "--color=never");
        push_str_arg(&mut args, "--max-count=50");
        if let Some(g) = glob {
            push_str_arg(&mut args, "--glob");
            push_str_arg(&mut args, g);
        }
    } else {
        program = String::from_str("grep");
        push_str_arg(&mut args, "-rn");
        push_str_arg(&mut args, "--color=never");
        push_str_arg(&mut args, "-E");
        if let Some(g) = glob {
            push_str_arg(&mut args, "--include");
            push_str_arg(&mut args, g);
        }
    }
    push_str_arg(&mut args, pattern);
    push_str_arg(&mut args, path);
    assert(args@.map_values(|s: String| s@) =~= spec_symbol_args(
        use_rg,
        pattern@,
        path@,
        opt_str_view(glob),
    ));
    SearchCommand { program, args }
}

/// A search output line that is a group separator (`--`) rather than a
/// match or context line.
pub open spec fn is_separator_line(line: Seq<char>) -> bool {
    starts_with(line, "--"@)
}

/// The lines of a text search kept so far, how many of them count toward
/// the limit, and whether the limit cut the search short.
pub struct GrepView {
    pub lines: Seq<Seq<char>>,
    pub count: nat,
    pub max: nat,
    pub truncated: bool,
}

/// Collects the output lines of a text search, at most `max` counted lines
/// (separators do not count).
pub struct GrepCollector {
    lines: Vec<String>,
    count: usize,
    max: usize,
    truncated: bool,
}

impl View for GrepCollector {
    type V = GrepView;

    closed spec fn view(&self) -> GrepView {
        GrepView {
            lines: self.lines@.map_values(|s: String| s@),
            count: self.count as nat,
            max: self.max as nat,
            truncated: self.truncated,
        }
    }
}

/// Offering `line`: a counted line past the limit stops the search (and
/// marks it truncated); any other line is kept.
pub open spec fn after_offer(g: GrepView, line: Seq<char>) -> GrepView {
    if !is_separator_line(line) && g.count >= g.max {
        GrepView { truncated: true, ..g }
    } else {
        GrepView {
            lines: g.lines.push(line),
            count: if is_separator_line(line) {
                g.count
            } else {
                g.count + 1
            },
            ..g
        }
    }
}

impl GrepCollector {
    /// The well-formed collectors: no more counted lines than the limit.
    pub closed spec fn wf(&self) -> bool {
        self.count <= self.max
    }

    /// A collector that keeps at most `max` counted lines.
    pub fn new(max: usize) -> (g: GrepCollector)
        ensures
            g.wf(),
            g@ == (GrepView { lines: Seq::empty(), count: 0, max: max as nat, truncated: false }),
    {
        let g = GrepCollector { lines: Vec::new(), count: 0, max, truncated: false };
        assert(g@.lines =~= Seq::<Seq<char>>::empty());
        g
    }

    /// Offers the next output line; whether the search should go on.
    pub fn offer(&mut self, line: String) -> (go_on: bool)
        requires
            old(self).wf(),
        ensures
            final(self).wf(),
            final(self)@ == after_offer(old(self)@, line@),
            go_on == !(!is_separator_line(line@) && old(self)@.count >= old(self)@.max),
    {
        let chars = str_to_chars(line.as_str());
        let sep = crate::text::has_prefix_str(chars.as_slice(), "--");
        if !sep {
            if self.count >= self.max {
                self.truncated = true;
                return false;
            }
            self.count = self.count + 1;
        }
        let ghost before = self.lines@.map_values(|s: String| s@);
        let ghost lv = line@;
        self.lines.push(line);
        assert(self.lines@.map_values(|s: String| s@) =~= before.push(lv));
        true
    }

    /// The lines kept.
    pub fn lines(&self) -> (lines: &Vec<String>)
        ensures
            lines@.map_values(|s: String| s@) == self@.lines,
    {
        &self.lines
    }

    /// Whether the limit cut the search short.
    pub fn truncated(&self) -> (t: bool)
        ensures
            t == self@.truncated,
    {
        self.truncated
    }
}

/// A search the user canceled.
pub struct SearchCanceled;

/// The first 200 characters of the trimmed error output of a search.
pub open spec fn error_hint(stderr_text: Seq<char>) -> Seq<char> {
    let t = trim(stderr_text);
    if t.len() > 200 {
        t.take(200)
    } else {
        t
    }
}

/// The report of a text search: with matches, the lines and notes on
/// truncation, timeout and cancelling; without, cancelling is an error,
/// else a timeout or no-match message (with the search's error output).
pub open spec fn spec_grep_search_report(
    lines: Seq<Seq<char>>,
    truncated: bool,
    timed_out: bool,
    canceled: bool,
    stderr_text: Seq<char>,
    max_results: nat,
) -> Option<Seq<char>> {
    if lines.len() == 0 {
        if canceled {
            None
        } else if timed_out {
            Some(
                "grep_search timed out after "@ + decimal(SEARCH_TIMEOUT_SECS as nat)
                    + "s with no results."@,
            )
        } else if error_hint(stderr_text).len() > 0 {
            Some("No matches. ("@ + error_hint(stderr_text) + ")"@)
        } else {
            Some("No matches found."@)
        }
    } else {
        Some(
            join_with(lines, "\n"@) + (if truncated {
                "\n[... truncated at "@ + decimal(max_results) + " results]"@
            } else {
                Seq::empty()
            }) + (if timed_out {
                "\n[... timed out after "@ + decimal(SEARCH_TIMEOUT_SECS as nat)
                    + "s, results may be partial]"@
            } else {
                Seq::empty()
            }) + (if canceled {
                "\n[... canceled by user]"@
            } else {
                Seq::empty()
            }),
        )
    }
}

/// The report of a text search.
pub fn grep_search_report(
    lines: &[String],
    truncated: bool,
    timed_out: bool,
    canceled: bool,
    stderr_text: &str,
    max_results: usize,
) -> (report: Result<String, SearchCanceled>)
    ensures
        report is Err <==> spec_grep_search_report(
            lines@.map_values(|s: String| s@),
            truncated,
            timed_out,
            canceled,
            stderr_text@,
            max_results as nat,
        ) is None,
        report matches Ok(r) ==> spec_grep_search_report(
            lines@.map_values(|s: String| s@),
            truncated,
            timed_out,
            canceled,
            stderr_text@,
            max_results as nat,
        ) == Some(r@),
{
    let secs = decimal_string(SEARCH_TIMEOUT_SECS);
    let mut out = String::new();
    if lines.len() == 0 {
        if canceled {
            return Err(SearchCanceled);
        }
        if timed_out {
            out.append("grep_search timed out after ");
            out.append(secs.as_str());
            out.append("s with no results.");
            return Ok(out);
        }
        let e = str_to_chars(stderr_text);
        let t = trimmed(e.as_slice());
        let hint_len = if t.len() > 200 {
            200
        } else {
            t.len()
        };
        let hint = crate::text::sub_vec(t.as_slice(), 0, hint_len);
        assert(hint@ =~= error_hint(stderr_text@));
        if hint.len() > 0 {
            out.append("No matches. (");
            out.append(chars_to_string(hint.as_slice()).as_str());
            out.append(")");
        } else {
            out.append("No matches found.");
        }
        return Ok(out);
    }
    out = join_strings(lines, "\n");
    let ghost joined = out@;
    if truncated {
        out.append("\n[... truncated at ");
        out.append(decimal_string(max_results as u64).as_str());
        out.append(" results]");
    }
    let ghost after_trunc = out@;
    if timed_out {
        out.append("\n[... timed out after ");
        out.append(secs.as_str());
        out.append("s, results may be partial]");
    }
    let ghost after_time = out@;
    if canceled {
        out.append("\n[... canceled by user]");
    }
    assert(out@ =~= joined + (if truncated {
        "\n[... truncated at "@ + decimal(max_results as nat) + " results]"@
    } else {
        Seq::empty()
    }) + (if timed_out {
        "\n[... timed out after "@ + decimal(SEARCH_TIMEOUT_SECS as nat)
            + "s, results may be partial]"@
    } else {
        Seq::empty()
    }) + (if canceled {
        "\n[... canceled by user]"@
    } else {
        Seq::empty()
    }));
    Ok(out)
}

// ---------------------------------------------------------------------------
// Shell commands and background processes.
// ---------------------------------------------------------------------------

/// The wall-clock limit of one `shell_exec`, in seconds.
pub const SHELL_EXEC_TIMEOUT_SECS: u64 = 60;

/// The marker line a shell wrapper may leave in the output.
pub open spec fn is_cwd_marker_line(line: Seq<char>) -> bool {
    starts_with(line, "__KAKU_CWD__:"@)
}

/// How much output `shell_exec` keeps: the budget less room for the notes
/// appended after it.
pub fn shell_streaming_cap(cap: usize) -> (c: usize)
    ensures
        c == (if cap >= 512 {
            cap - 512
        } else {
            0
        }),
{
    cap.saturating_sub(512)
}

/// The report of `shell_exec`: the standard output without marker lines
/// (keeping a final newline), the error output, and notes on truncation,
/// cancelling, the timeout and a failing exit code; `(no output)` when
/// that is all blank. `exit` is whether the command succeeded and its
/// code, when it was waited for.
pub open spec fn spec_shell_exec_report(
    stdout_raw: Seq<char>,
    stderr_text: Seq<char>,
    overflowed: bool,
    streaming_cap: nat,
    total_bytes: nat,
    canceled: bool,
    timed_out: bool,
    exit: Option<(bool, Option<i32>)>,
) -> Seq<char> {
    let kept = spec_lines(stdout_raw).filter(|l: Seq<char>| !is_cwd_marker_line(l));
    let joined = join_with(kept, "\n"@);
    let out1 = if stdout_raw.len() > 0 && stdout_raw.last() == '\n' && !(joined.len() > 0
        && joined.last() == '\n') {
        joined.push('\n')
    } else {
        joined
    };
    let out2 = if stderr_text.len() > 0 {
        out1 + (if out1.len() > 0 {
            "\n"@
        } else {
            Seq::empty()
        }) + "[stderr] "@ + stderr_text
    } else {
        out1
    };
    let out3 = if overflowed {
        out2 + "\n[truncated: first ~"@ + decimal(streaming_cap) + " bytes shown ("@ + decimal(
            total_bytes,
        ) + " total). For large output, use shell_bg + shell_poll to avoid waiting.]"@
    } else {
        out2
    };
    let out4 = if canceled {
        out3 + "\n[canceled by user before completion]"@
    } else {
        out3
    };
    let out5 = if timed_out {
        out4 + "\n[killed: exceeded "@ + decimal(SHELL_EXEC_TIMEOUT_SECS as nat)
            + "s timeout. For long-running commands use shell_bg + shell_poll; for searching code use grep_search.]"@
    } else {
        out4
    };
    let out6 = match exit {
        Some((success, code)) => if !success && !canceled && !timed_out {
            out5 + "\n[exit "@ + signed_decimal(
                match code {
                    Some(c) => c as int,
                    None => -1,
                },
            ) + "]"@
        } else {
            out5
        },
        None => out5,
    };
    if trim(out6).len() == 0 {
        "(no output)"@
    } else {
        out6
    }
}

/// The lines of `lines` that are not marker lines, as strings.
fn lines_without_marker(lines: &Vec<Vec<char>>) -> (out: Vec<String>)
    ensures
        out@.map_values(|s: String| s@) == char_lines_view(lines@).filter(
            |l: Seq<char>| !is_cwd_marker_line(l),
        ),
{
    let ghost lv = char_lines_view(lines@);
    let ghost pred = |l: Seq<char>| !is_cwd_marker_line(l);
    let mut out: Vec<String> = Vec::new();
    let mut i: usize = 0;
    while i < lines.len()
        invariant
            i <= lines@.len(),
            lv == char_lines_view(lines@),
            pred == (|l: Seq<char>| !is_cwd_marker_line(l)),
            out@.map_values(|s: String| s@) == lv.take(i as int).filter(pred),
        decreases lines@.len() - i,
    {
        proof {
            reveal(Seq::filter);
            assert(lv.take(i + 1).drop_last() =~= lv.take(i as int));
        }
        let line = &lines[i];
        assert(line@ == lv[i as int]);
        if !crate::text::has_prefix_str(line.as_slice(), "__KAKU_CWD__:") {
            let ghost before = out@.map_values(|s: String| s@);
            out.push(chars_to_string(line.as_slice()));
            assert(out@.map_values(|s: String| s@) =~= before.push(line@));
        }
        i = i + 1;
    }
    assert(lv.take(lines@.len() as int) =~= lv);
    out
}

/// The report of a `shell_exec` run.
pub fn shell_exec_report(
    stdout_raw: &str,
    stderr_text: &str,
    overflowed: bool,
    streaming_cap: usize,
    total_bytes: usize,
    canceled: bool,
    timed_out: bool,
    exit: Option<(bool, Option<i32>)>,
) -> (report: String)
    ensures
        report@ == spec_shell_exec_report(
            stdout_raw@,
            stderr_text@,
            overflowed,
            streaming_cap as nat,
            total_bytes as nat,
            canceled,
            timed_out,
            exit,
        ),
{
    let raw = str_to_chars(stdout_raw);
    let all = crate::text::lines(raw.as_slice());
    let kept = lines_without_marker(&all);
    let mut out = join_strings(kept.as_slice(), "\n");
    let ghost joined = out@;
    let out_chars = str_to_chars(out.as_str());
    if raw.len() > 0 && raw[raw.len() - 1] == '\n' && !(out_chars.len() > 0 && out_chars[out_chars.len()
        - 1] == '\n') {
        out.append("\n");
        proof {
            reveal_strlit("\n");
        }
        assert(out@ =~= joined.push('\n'));
    }
    if !stderr_text.is_empty() {
        if !out.as_str().is_empty() {
            out.append("\n");
        } else {
            assert(out@ + Seq::<char>::empty() =~= out@);
        }
        out.append("[stderr] ");
        out.append(stderr_text);
    }
    if overflowed {
        out.append("\n[truncated: first ~");
        out.append(decimal_string(streaming_cap as u64).as_str());
        out.append(" bytes shown (");
        out.append(decimal_string(total_bytes as u64).as_str());
        out.append(" total). For large output, use shell_bg + shell_poll to avoid waiting.]");
    }
    if canceled {
        out.append("\n[canceled by user before completion]");
    }
    if timed_out {
        out.append("\n[killed: exceeded ");
        out.append(decimal_string(SHELL_EXEC_TIMEOUT_SECS).as_str());
        out.append(
            "s timeout. For long-running commands use shell_bg + shell_poll; for searching code use grep_search.]",
        );
    }
    if let Some((success, code)) = exit {
        if !success && !canceled && !timed_out {
            let c: i64 = match code {
                Some(c) => c as i64,
                None => -1,
            };
            out.append("\n[exit ");
            out.append(signed_decimal_string(c).as_str());
            out.append("]");
        }
    }
    let final_chars = str_to_chars(out.as_str());
    let t = trimmed(final_chars.as_slice());
    if t.len() == 0 {
        return String::from_str("(no output)");
    }
    out
}

/// The working directory a command left behind, from its marker file:
/// the trimmed content, unless blank.
pub open spec fn spec_cwd_from_marker(content: Seq<char>) -> Option<Seq<char>> {
    if trim(content).len() > 0 {
        Some(trim(content))
    } else {
        None
    }
}

/// The new working directory recorded by `shell_exec`, if any.
pub fn cwd_from_marker(content: &str) -> (dir: Option<String>)
    ensures
        dir matches Some(d) ==> spec_cwd_from_marker(content@) == Some(d@),
        dir is None <==> spec_cwd_from_marker(content@) is None,
{
    let chars = str_to_chars(content);
    let t = trimmed(chars.as_slice());
    if t.len() > 0 {
        Some(chars_to_string(t.as_slice()))
    } else {
        None
    }
}

/// A change a file tool made.
#[derive(Debug, Clone, Copy, PartialEq, Eq)]
pub enum FileChange {
    /// `fs_write` wrote this many bytes.
    Written(usize),
    /// `fs_patch` replaced one occurrence.
    Patched,
    /// `fs_mkdir` created the directory.
    Created,
    /// `fs_delete` removed the file or directory.
    Deleted,
}

/// The report of a file tool on `path`.
pub open spec fn spec_file_change_report(change: FileChange, path: Seq<char>) -> Seq<char> {
    match change {
        FileChange::Written(n) => "Written "@ + decimal(n as nat) + " bytes to "@ + path,
        FileChange::Patched => "Patched "@ + path + " (replaced 1 occurrence)"@,
        FileChange::Created => "Created "@ + path,
        FileChange::Deleted => "Deleted "@ + path,
    }
}

/// The message a file tool answers with after changing `path`.
pub fn file_change_report(change: FileChange, path: &str) -> (m: String)
    ensures
        m@ == spec_file_change_report(change, path@),
{
    match change {
        FileChange::Written(n) => {
            let mut out = String::from_str("Written ");
            out.append(decimal_string(n as u64).as_str());
            out.append(" bytes to ");
            out.append(path);
            out
        },
        FileChange::Patched => {
            let mut out = String::from_str("Patched ");
            out.append(path);
            out.append(" (replaced 1 occurrence)");
            out
        },
        FileChange::Created => {
            let mut out = String::from_str("Created ");
            out.append(path);
            out
        },
        FileChange::Deleted => {
            let mut out = String::from_str("Deleted ");
            out.append(path);
            out
        },
    }
}

/// What to do next while waiting for a process.
#[derive(Debug, Clone, Copy, PartialEq, Eq)]
pub enum WaitAction {
    /// Kill the process group and stop waiting.
    Kill,
    /// The process ended: stop waiting.
    Finish,
    /// Look again after a short sleep.
    Sleep,
}

/// What has been seen while waiting for a `shell_exec` run or a search:
/// whether it was canceled or timed out (and so killed), and whether its
/// output went over the streaming cap.
#[derive(Debug, Clone, Copy, PartialEq, Eq)]
pub struct WaitWatch {
    pub canceled: bool,
    pub timed_out: bool,
    pub overflowed: bool,
}

impl WaitWatch {
    /// Nothing seen yet.
    pub fn new() -> (w: WaitWatch)
        ensures
            !w.canceled && !w.timed_out && !w.overflowed,
    {
        WaitWatch { canceled: false, timed_out: false, overflowed: false }
    }

    /// One look at the process: a cancel request comes first and a timeout
    /// next (either kills it); otherwise output over the cap (`output` holds
    /// the bytes seen and the cap, where the cap is watched) is noted, and
    /// an ended process ends the wait.
    pub fn step(
        &mut self,
        cancel_requested: bool,
        past_deadline: bool,
        output: Option<(usize, usize)>,
        exited: bool,
    ) -> (a: WaitAction)
        ensures
            cancel_requested ==> a == WaitAction::Kill && final(self).canceled && final(self).timed_out
                == old(self).timed_out && final(self).overflowed == old(self).overflowed,
            !cancel_requested && past_deadline ==> a == WaitAction::Kill && final(self).timed_out
                && final(self).canceled == old(self).canceled && final(self).overflowed
                == old(self).overflowed,
            !cancel_requested && !past_deadline ==> {
                &&& final(self).canceled == old(self).canceled
                &&& final(self).timed_out == old(self).timed_out
                &&& final(self).overflowed == (old(self).overflowed || match output {
                    Some((bytes, cap)) => bytes >= cap,
                    None => false,
                })
                &&& a == if exited {
                    WaitAction::Finish
                } else {
                    WaitAction::Sleep
                }
            },
    {
        if cancel_requested {
            self.canceled = true;
            return WaitAction::Kill;
        }
        if past_deadline {
            self.timed_out = true;
            return WaitAction::Kill;
        }
        if let Some((bytes, cap)) = output {
            if !self.overflowed && bytes >= cap {
                self.overflowed = true;
            }
        }
        if exited {
            WaitAction::Finish
        } else {
            WaitAction::Sleep
        }
    }
}

/// The report of `shell_bg`.
pub open spec fn spec_bg_started_message(pid: u32) -> Seq<char> {
    "Background process started (pid "@ + decimal(pid as nat) + "). Use shell_poll to check status."@
}

/// The message that a background process started.
pub fn bg_started_message(pid: u32) -> (m: String)
    ensures
        m@ == spec_bg_started_message(pid),
{
    let mut out = String::from_str("Background process started (pid ");
    out.append(decimal_string(pid as u64).as_str());
    out.append("). Use shell_poll to check status.");
    out
}

/// The report of `shell_poll`: the process, `done` with its exit code (-1
/// without one, as for a signal) or `running`, then the output so far.
/// `status` is the exit code of a finished process.
pub open spec fn spec_poll_report(pid: u32, status: Option<Option<i32>>, snapshot: Seq<char>) -> Seq<
    char,
> {
    let state = match status {
        Some(_) => "done"@,
        None => "running"@,
    };
    let exit = match status {
        Some(code) => "[exit "@ + signed_decimal(
            match code {
                Some(c) => c as int,
                None => -1,
            },
        ) + "]"@,
        None => Seq::empty(),
    };
    let head = "pid "@ + decimal(pid as nat) + ": "@ + state + " "@ + exit;
    if snapshot.len() == 0 {
        head
    } else {
        head + "\n"@ + snapshot
    }
}

/// The report of `shell_poll`.
pub fn poll_report(pid: u32, status: Option<Option<i32>>, snapshot: &str) -> (report: String)
    ensures
        report@ == spec_poll_report(pid, status, snapshot@),
{
    let mut out = String::from_str("pid ");
    out.append(decimal_string(pid as u64).as_str());
    out.append(": ");
    match status {
        Some(code) => {
            let c: i64 = match code {
                Some(c) => c as i64,
                None => -1,
            };
            out.append("done");
            out.append(" ");
            out.append("[exit ");
            out.append(signed_decimal_string(c).as_str());
            out.append("]");
        },
        None => {
            out.append("running");
            out.append(" ");
            assert(out@ + Seq::<char>::empty() =~= out@);
        },
    }
    if !snapshot.is_empty() {
        out.append("\n");
        out.append(snapshot);
    }
    out
}

// ---------------------------------------------------------------------------
// Web addresses and soul files.
// ---------------------------------------------------------------------------

/// An address the web tools accept.
pub open spec fn spec_is_http_url(url: Seq<char>) -> bool {
    starts_with(url, "http://"@) || starts_with(url, "https://"@)
}

/// Whether `url` is an `http://` or `https://` address.
pub fn is_http_url(url: &str) -> (b: bool)
    ensures
        b == spec_is_http_url(url@),
{
    let chars = str_to_chars(url);
    crate::text::has_prefix_str(chars.as_slice(), "http://") || crate::text::has_prefix_str(
        chars.as_slice(),
        "https://",
    )
}

/// A soul file as a section of `soul_read`: a heading with the label and
/// the content without trailing whitespace; nothing when the file is
/// missing or blank.
pub open spec fn spec_soul_section(content: Option<Seq<char>>, label: Seq<char>) -> Seq<char> {
    match content {
        Some(c) => if trim(c).len() > 0 {
            "## "@ + label + "\n\n"@ + trim_end(c)
        } else {
            Seq::empty()
        },
        None => Seq::empty(),
    }
}

/// A soul file's section, from its content (`None` when it cannot be
/// read).
pub fn soul_section(content: Option<&str>, label: &str) -> (section: String)
    ensures
        section@ == spec_soul_section(opt_str_view(content), label@),
{
    match content {
        Some(c) => {
            let chars = str_to_chars(c);
            let t = trimmed(chars.as_slice());
            if t.len() == 0 {
                return String::new();
            }
            let e = trimmed_end(chars.as_slice());
            let mut out = String::from_str("## ");
            out.append(label);
            out.append("\n\n");
            out.append(chars_to_string(e.as_slice()).as_str());
            out
        },
        None => String::new(),
    }
}

/// All soul sections for `soul_read` without a file: the non-empty ones
/// separated by rules.
pub fn join_soul_sections(sections: &[String]) -> (joined: String)
    ensures
        joined@ == join_nonempty(sections@.map_values(|s: String| s@), "\n\n---\n\n"@),
{
    let ghost all = sections@.map_values(|s: String| s@);
    let mut out = String::new();
    let mut i: usize = 0;
    while i < sections.len()
        invariant
            i <= sections@.len(),
            all == sections@.map_values(|s: String| s@),
            out@ == join_nonempty(all.take(i as int), "\n\n---\n\n"@),
        decreases sections@.len() - i,
    {
        assert(all.take(i + 1).drop_last() =~= all.take(i as int));
        assert(all.take(i + 1).last() == sections@[i as int]@);
        let p = sections[i].as_str();
        if !p.is_empty() {
            if !out.as_str().is_empty() {
                out.append("\n\n---\n\n");
            }
            out.append(p);
        }
        i = i + 1;
    }
    assert(all.take(sections@.len() as int) =~= all);
    out
}

// ---------------------------------------------------------------------------
// Truncating results.
// ---------------------------------------------------------------------------

/// The number of UTF-8 bytes of `c`.
pub open spec fn char_bytes(c: char) -> nat {
    encode_scalar(c as u32).len()
}

/// How many characters of `s` from `i` on, after `used` bytes, fit in `cap`
/// bytes: the end of the longest prefix of at most `cap` bytes.
pub open spec fn fit_from(s: Seq<char>, i: int, used: nat, cap: nat) -> int
    decreases s.len() - i,
{
    if i < 0 || i >= s.len() || used + char_bytes(s[i]) > cap {
        i
    } else {
        fit_from(s, i + 1, used + char_bytes(s[i]), cap)
    }
}

/// A tool result over its budget, cut at the last character boundary
/// within the budget, with a note: where the whole result was saved, when
/// it could be, else the sizes. Nothing when it fits.
pub open spec fn spec_truncate_tool_result(result: Seq<char>, cap: nat, spill: Option<Seq<char>>) -> Option<
    Seq<char>,
> {
    if byte_len(result) <= cap {
        None
    } else {
        let kept = result.take(fit_from(result, 0, 0, cap));
        let total = decimal(byte_len(result));
        Some(
            kept + match spill {
                Some(p) => "\n[truncated: "@ + decimal(cap) + " of "@ + total + " bytes shown]"@
                    + "\n[spill: "@ + p + "]"@ + "\n[hint: use fs_read(\""@ + p
                    + "\") to read the rest]"@,
                None => "\n[truncated: "@ + decimal(cap) + " bytes shown of "@ + total + " total]"@,
            },
        )
    }
}

pub proof fn lemma_fit_from_bounds(s: Seq<char>, i: int, used: nat, cap: nat)
    requires
        0 <= i <= s.len(),
    ensures
        i <= fit_from(s, i, used, cap) <= s.len(),
    decreases s.len() - i,
{
    if !(i >= s.len() || used + char_bytes(s[i]) > cap) {
        lemma_fit_from_bounds(s, i + 1, used + char_bytes(s[i]), cap);
    }
}

proof fn lemma_fit_from_fits(s: Seq<char>, i: int, used: nat, cap: nat)
    requires
        0 <= i <= s.len(),
        used == byte_len(s.take(i)),
        used <= cap,
    ensures
        i <= fit_from(s, i, used, cap) <= s.len(),
        byte_len(s.take(fit_from(s, i, used, cap))) <= cap,
        fit_from(s, i, used, cap) < s.len() ==> byte_len(s.take(fit_from(s, i, used, cap) + 1)) > cap,
    decreases s.len() - i,
{
    if i < s.len() {
        assert(s.take(i + 1) =~= s.take(i).push(s[i]));
        crate::layout::lemma_encode_utf8_push(s.take(i), s[i]);
        if used + char_bytes(s[i]) <= cap {
            lemma_fit_from_fits(s, i + 1, used + char_bytes(s[i]), cap);
        }
    }
}

/// The law of truncation: a result is cut exactly when it is over its
/// budget, and then what is kept is the longest prefix of whole characters
/// that fits in the budget, followed by the note.
pub proof fn law_truncation_keeps_longest_fitting_prefix(result: Seq<char>, cap: nat, spill: Option<Seq<char>>)
    ensures
        spec_truncate_tool_result(result, cap, spill) is None <==> byte_len(result) <= cap,
        spec_truncate_tool_result(result, cap, spill) matches Some(o) ==> exists|k: int|
            #![trigger result.take(k)]
            0 <= k <= result.len() && o.take(k) == result.take(k) && k <= o.len() && byte_len(result.take(k))
                <= cap && (k < result.len() ==> byte_len(result.take(k + 1)) > cap),
{
    if byte_len(result) > cap {
        assert(result.take(0) =~= Seq::<char>::empty());
        assert(encode_utf8(Seq::<char>::empty()) =~= Seq::<u8>::empty());
        lemma_fit_from_fits(result, 0, 0, cap);
        let k = fit_from(result, 0, 0, cap);
        let o = spec_truncate_tool_result(result, cap, spill).unwrap();
        assert(o.take(k) =~= result.take(k));
    }
}

/// The end of the longest prefix of `chars` that fits in `cap` bytes.
fn fit_prefix_end(chars: &Vec<char>, cap: usize) -> (end: usize)
    ensures
        end as int == fit_from(chars@, 0, 0, cap as nat),
        end <= chars@.len(),
{
    let mut i: usize = 0;
    let mut used: usize = 0;
    while i < chars.len()
        invariant_except_break
            i <= chars@.len(),
            used <= cap,
            fit_from(chars@, 0, 0, cap as nat) == fit_from(chars@, i as int, used as nat, cap as nat),
        ensures
            i <= chars@.len(),
            fit_from(chars@, 0, 0, cap as nat) == i,
        decreases chars@.len() - i,
    {
        let n = crate::layout::char_len_utf8(chars[i]);
        if n > cap - used {
            break;
        }
        used = used + n;
        i = i + 1;
    }
    i
}

/// The note appended to a cut result.
fn truncation_note(cap: usize, total: usize, spill: Option<&str>) -> (note: String)
    ensures
        note@ == match opt_str_view(spill) {
            Some(p) => "\n[truncated: "@ + decimal(cap as nat) + " of "@ + decimal(total as nat)
                + " bytes shown]"@ + "\n[spill: "@ + p + "]"@ + "\n[hint: use fs_read(\""@ + p
                + "\") to read the rest]"@,
            None => "\n[truncated: "@ + decimal(cap as nat) + " bytes shown of "@ + decimal(
                total as nat,
            ) + " total]"@,
        },
{
    let total_s = decimal_string(total as u64);
    let cap_s = decimal_string(cap as u64);
    let mut out = String::new();
    match spill {
        Some(p) => {
            out.append("\n[truncated: ");
            out.append(cap_s.as_str());
            out.append(" of ");
            out.append(total_s.as_str());
            out.append(" bytes shown]");
            out.append("\n[spill: ");
            out.append(p);
            out.append("]");
            out.append("\n[hint: use fs_read(\"");
            out.append(p);
            out.append("\") to read the rest]");
        },
        None => {
            out.append("\n[truncated: ");
            out.append(cap_s.as_str());
            out.append(" bytes shown of ");
            out.append(total_s.as_str());
            out.append(" total]");
        },
    }
    out
}

/// Cuts a tool result to its budget; `spill` is where the whole result was
/// saved, if it could be.
pub fn truncate_tool_result(result: &str, cap: usize, spill: Option<&str>) -> (out: Option<String>)
    ensures
        out is None <==> spec_truncate_tool_result(result@, cap as nat, opt_str_view(spill)) is None,
        out matches Some(o) ==> spec_truncate_tool_result(result@, cap as nat, opt_str_view(spill))
            == Some(o@),
{
    let total = str_byte_len(result);
    if total <= cap {
        return None;
    }
    let chars = str_to_chars(result);
    let end = fit_prefix_end(&chars, cap);
    let kept = crate::text::sub_vec(chars.as_slice(), 0, end);
    let mut out = chars_to_string(kept.as_slice());
    let note = truncation_note(cap, total, spill);
    out.append(note.as_str());
    Some(out)
}

// ---------------------------------------------------------------------------
// Reading a range of lines.
// ---------------------------------------------------------------------------

/// The state of reading lines `start..=end` of a file within `cap` bytes.
#[verifier::ext_equal]
pub struct LineRangeView {
    pub start: nat,
    pub end: nat,
    pub cap: nat,
    pub line_num: nat,
    pub out: Seq<char>,
    pub done: bool,
}

/// Taking the next line of the file (line `line_num`): lines before the
/// range are skipped; a line after it ends the reading; a line in range is
/// kept with a newline, and once the kept text reaches the budget a note
/// ends it. Reading also ends after the last line of the range.
pub open spec fn after_line(st: LineRangeView, line: Seq<char>) -> LineRangeView {
    if st.done {
        st
    } else if st.line_num < st.start {
        LineRangeView { line_num: st.line_num + 1, ..st }
    } else if st.line_num > st.end {
        LineRangeView { done: true, ..st }
    } else {
        let out = st.out + line + "\n"@;
        if byte_len(out) >= st.cap {
            LineRangeView {
                out: out + "[truncated: output exceeded "@ + decimal(st.cap) + " bytes at line "@
                    + decimal(st.line_num) + "]"@,
                done: true,
                ..st
            }
        } else if st.line_num >= st.end {
            LineRangeView { out, done: true, ..st }
        } else {
            LineRangeView { out, line_num: st.line_num + 1, ..st }
        }
    }
}

/// Reads lines `start..=end` (1-based) of a file within a byte budget, one
/// line at a time, so that the file need not be read whole.
pub struct LineRange {
    start: usize,
    end: usize,
    end_line: Option<usize>,
    cap: usize,
    line_num: usize,
    out: String,
    out_bytes: usize,
    done: bool,
}

impl View for LineRange {
    type V = LineRangeView;

    closed spec fn view(&self) -> LineRangeView {
        LineRangeView {
            start: self.start as nat,
            end: self.end as nat,
            cap: self.cap as nat,
            line_num: self.line_num as nat,
            out: self.out@,
            done: self.done,
        }
    }
}

impl LineRange {
    /// The well-formed readers: the line number within bounds and the kept
    /// text's size known while reading goes on.
    pub closed spec fn wf(&self) -> bool {
        &&& (!self.done ==> self.out_bytes == byte_len(self.out@) && self.out_bytes <= self.cap)
    }

    /// The range asked for when it is given.
    pub closed spec fn end_line(&self) -> Option<usize> {
        self.end_line
    }

    /// A reader of lines `start_line` (default 1) to `end_line` (default
    /// the last) within `cap` bytes.
    pub fn new(start_line: Option<usize>, end_line: Option<usize>, cap: usize) -> (r: LineRange)
        ensures
            r.wf(),
            r.end_line() == end_line,
            r@ == (LineRangeView {
                start: match start_line {
                    Some(s) => s as nat,
                    None => 1,
                },
                end: match end_line {
                    Some(e) => e as nat,
                    None => usize::MAX as nat,
                },
                cap: cap as nat,
                line_num: 1,
                out: Seq::empty(),
                done: false,
            }),
    {
        let start = match start_line {
            Some(s) => s,
            None => 1,
        };
        let end = match end_line {
            Some(e) => e,
            None => usize::MAX,
        };
        let r = LineRange {
            start,
            end,
            end_line,
            cap,
            line_num: 1,
            out: String::new(),
            out_bytes: 0,
            done: false,
        };
        assert(byte_len(r.out@) == 0) by {
            assert(r.out@ =~= Seq::<char>::empty());
        }
        r
    }

    /// Takes the next line of the file; whether reading goes on.
    pub fn offer(&mut self, line: &str) -> (go_on: bool)
        requires
            old(self).wf(),
        ensures
            final(self).wf(),
            final(self).end_line() == old(self).end_line(),
            final(self)@ == after_line(old(self)@, line@),
            go_on == !final(self)@.done,
    {
        if self.done {
            return false;
        }
        if self.line_num < self.start {
            self.line_num = self.line_num + 1;
            return true;
        }
        if self.line_num > self.end {
            self.done = true;
            return false;
        }
        let n = str_byte_len(line);
        let ghost before = self.out@;
        self.out.append(line);
        self.out.append("\n");
        proof {
            reveal_strlit("\n");
            crate::layout::lemma_byte_len_concat(before, line@);
            crate::layout::lemma_byte_len_concat(before + line@, seq!['\n']);
            assert(seq!['\n'].drop_first() =~= Seq::<char>::empty());
            assert(vstd::utf8::encode_utf8(Seq::<char>::empty()) =~= Seq::<u8>::empty());
            assert(byte_len(seq!['\n']) == 1);
            assert("\n"@ =~= seq!['\n']);
        }
        let total = self.out_bytes as u128 + n as u128 + 1;
        assert(byte_len(self.out@) == total);
        if total >= self.cap as u128 {
            self.out.append("[truncated: output exceeded ");
            self.out.append(decimal_string(self.cap as u64).as_str());
            self.out.append(" bytes at line ");
            self.out.append(decimal_string(self.line_num as u64).as_str());
            self.out.append("]");
            self.done = true;
            return false;
        }
        self.out_bytes = total as usize;
        if self.line_num >= self.end {
            self.done = true;
            return false;
        }
        self.line_num = self.line_num + 1;
        true
    }

    /// The text read, or a note that the range held nothing.
    pub fn finish(&self) -> (text: String)
        ensures
            text@ == (if self@.out.len() == 0 {
                "(no content in lines "@ + decimal(self@.start) + "..="@ + match self.end_line() {
                    Some(e) => decimal(e as nat),
                    None => "EOF"@,
                } + ")"@
            } else {
                self@.out
            }),
    {
        if self.out.as_str().is_empty() {
            let mut m = String::from_str("(no content in lines ");
            m.append(decimal_string(self.start as u64).as_str());
            m.append("..=");
            match self.end_line {
                Some(e) => m.append(decimal_string(e as u64).as_str()),
                None => m.append("EOF"),
            }
            m.append(")");
            m
        } else {
            self.out.clone()
        }
    }
}

// ---------------------------------------------------------------------------
// Patching, listing.
// ---------------------------------------------------------------------------

/// `content` with the first occurrence of `old_text` replaced by
/// `new_text`; nothing when `old_text` does not occur.
pub open spec fn spec_patch_first(content: Seq<char>, old_text: Seq<char>, new_text: Seq<char>) -> Option<
    Seq<char>,
> {
    match spec_find(content, old_text) {
        Some(i) => Some(content.take(i) + new_text + content.skip(i + old_text.len())),
        None => None,
    }
}

/// The text of a file after `fs_patch` (as `str::replacen` with a count of
/// one), when `old_text` occurs in it.
pub fn patch_first(content: &str, old_text: &str, new_text: &str) -> (patched: Option<String>)
    ensures
        patched is None <==> spec_patch_first(content@, old_text@, new_text@) is None,
        patched matches Some(p) ==> spec_patch_first(content@, old_text@, new_text@) == Some(p@),
{
    let o = str_to_chars(content);
    let t = str_to_chars(old_text);
    match crate::text::find(o.as_slice(), t.as_slice()) {
        None => None,
        Some(i) => {
            proof {
                crate::text::lemma_find_from_occurs(o@, t@, 0);
                assert(crate::text::occurs_at(o@, t@, i as int));
            }
            let mut out = crate::text::sub_vec(o.as_slice(), 0, i);
            let n = str_to_chars(new_text);
            crate::text::push_all(&mut out, n.as_slice());
            let olen = o.len();
            assert(i + t@.len() <= olen);
            let j = i + t.len();
            let tail = crate::text::sub_vec(o.as_slice(), j, olen);
            crate::text::push_all(&mut out, tail.as_slice());
            assert(out@ =~= content@.take(i as int) + new_text@ + content@.skip(i + old_text@.len()));
            Some(chars_to_string(out.as_slice()))
        },
    }
}

/// A directory entry as `fs_list` shows it: directories with a trailing
/// slash.
pub open spec fn spec_listing_name(name: Seq<char>, is_dir: bool) -> Seq<char> {
    if is_dir {
        name.push('/')
    } else {
        name
    }
}

/// The `fs_list` report: the entries' names (directories with a trailing
/// slash), sorted, one per line.
pub fn listing_text(entries: &[(String, bool)]) -> (text: String)
    ensures
        exists|names: Seq<Seq<char>>|
            #![trigger crate::order::is_sorted(names)]
            crate::order::is_sorted(names) && names.to_multiset() == entries@.map_values(
                |e: (String, bool)| spec_listing_name(e.0@, e.1),
            ).to_multiset() && text@ == join_with(names, "\n"@),
{
    let ghost ev = entries@.map_values(|e: (String, bool)| spec_listing_name(e.0@, e.1));
    let mut names: Vec<String> = Vec::new();
    let mut i: usize = 0;
    while i < entries.len()
        invariant
            i <= entries@.len(),
            ev == entries@.map_values(|e: (String, bool)| spec_listing_name(e.0@, e.1)),
            names@.map_values(|s: String| s@) == ev.take(i as int),
        decreases entries@.len() - i,
    {
        let (name, is_dir) = &entries[i];
        let mut n = name.clone();
        if *is_dir {
            n.append("/");
            proof {
                reveal_strlit("/");
            }
        }
        let ghost before = names@.map_values(|s: String| s@);
        let ghost nv = n@;
        assert(nv == ev[i as int]);
        names.push(n);
        assert(names@.map_values(|s: String| s@) =~= before.push(nv));
        assert(ev.take(i + 1) =~= ev.take(i as int).push(nv));
        i = i + 1;
    }
    assert(ev.take(entries@.len() as int) =~= ev);
    let sorted = crate::order::sort_strings(names);
    let text = join_strings(sorted.as_slice(), "\n");
    assert(crate::order::is_sorted(crate::order::strings_of(sorted@)));
    text
}

// ---------------------------------------------------------------------------
// Project summary.
// ---------------------------------------------------------------------------

/// The files that mark a kind of project, in the order they are reported.
pub open spec fn marker_files() -> Seq<Seq<char>> {
    seq![
        "Cargo.toml"@,
        "package.json"@,
        "go.mod"@,
        "pyproject.toml"@,
        "setup.py"@,
        "Gemfile"@,
        "pom.xml"@,
        "build.gradle"@,
        "CMakeLists.txt"@,
        "Makefile"@,
        "Package.swift"@,
    ]
}

/// The language each marker file indicates (none for a Makefile).
pub open spec fn marker_langs() -> Seq<Seq<char>> {
    seq![
        "Rust"@,
        "JavaScript/TypeScript"@,
        "Go"@,
        "Python"@,
        "Python"@,
        "Ruby"@,
        "Java"@,
        "Java/Kotlin"@,
        "C/C++"@,
        ""@,
        "Swift"@,
    ]
}

/// The build system each marker file indicates.
pub open spec fn marker_builds() -> Seq<Seq<char>> {
    seq![
        "cargo"@,
        "npm/pnpm"@,
        "go"@,
        "pip/poetry"@,
        "setuptools"@,
        "bundler"@,
        "Maven"@,
        "Gradle"@,
        "CMake"@,
        "make"@,
        "SwiftPM"@,
    ]
}

/// The files that may be a project's entry point.
pub open spec fn entry_candidates() -> Seq<Seq<char>> {
    seq![
        "src/main.rs"@,
        "src/lib.rs"@,
        "src/index.ts"@,
        "src/index.js"@,
        "main.go"@,
        "main.py"@,
        "app.py"@,
        "index.js"@,
        "index.ts"@,
    ]
}

pub(crate) fn string_vec(items: &[&str]) -> (v: Vec<String>)
    ensures
        v@.map_values(|s: String| s@) == items@.map_values(|s: &str| s@),
{
    let mut v: Vec<String> = Vec::new();
    let mut i: usize = 0;
    while i < items.len()
        invariant
            i <= items@.len(),
            v@.map_values(|s: String| s@) == items@.take(i as int).map_values(|s: &str| s@),
        decreases items@.len() - i,
    {
        let ghost before = v@.map_values(|s: String| s@);
        v.push(String::from_str(items[i]));
        assert(v@.map_values(|s: String| s@) =~= before.push(items@[i as int]@));
        assert(items@.take(i + 1).map_values(|s: &str| s@) =~= items@.take(i as int).map_values(
            |s: &str| s@,
        ).push(items@[i as int]@));
        i = i + 1;
    }
    assert(items@.take(items@.len() as int) =~= items@);
    v
}

/// The marker files to look for in a project directory.
pub fn project_marker_files() -> (files: Vec<String>)
    ensures
        files@.map_values(|s: String| s@) == marker_files(),
{
    let items = [
        "Cargo.toml",
        "package.json",
        "go.mod",
        "pyproject.toml",
        "setup.py",
        "Gemfile",
        "pom.xml",
        "build.gradle",
        "CMakeLists.txt",
        "Makefile",
        "Package.swift",
    ];
    let v = string_vec(items.as_slice());
    assert(items@.map_values(|s: &str| s@) =~= marker_files());
    v
}

/// The entry-point files to look for in a project directory.
pub fn entry_point_candidates() -> (files: Vec<String>)
    ensures
        files@.map_values(|s: String| s@) == entry_candidates(),
{
    let items = [
        "src/main.rs",
        "src/lib.rs",
        "src/index.ts",
        "src/index.js",
        "main.go",
        "main.py",
        "app.py",
        "index.js",
        "index.ts",
    ];
    let v = string_vec(items.as_slice());
    assert(items@.map_values(|s: &str| s@) =~= entry_candidates());
    v
}

/// The values of the present markers among the first `n`, each once, in
/// order; empty values left out when `skip_empty`.
pub open spec fn marker_values(present: Seq<Seq<char>>, vals: Seq<Seq<char>>, n: int, skip_empty: bool) -> Seq<
    Seq<char>,
>
    decreases n,
{
    if n <= 0 {
        Seq::empty()
    } else {
        let acc = marker_values(present, vals, n - 1, skip_empty);
        let v = vals[n - 1];
        if present.contains(marker_files()[n - 1]) && !(skip_empty && v.len() == 0) && !acc.contains(
            v,
        ) {
            acc.push(v)
        } else {
            acc
        }
    }
}

/// A `Cargo.toml` line worth reporting.
pub open spec fn is_cargo_info(t: Seq<char>) -> bool {
    starts_with(t, "name"@) || starts_with(t, "version"@) || starts_with(t, "description"@)
}

/// The report lines (indented) of the trimmed lines `ts` that are worth
/// reporting.
pub open spec fn cargo_info_lines(ts: Seq<Seq<char>>) -> Seq<char>
    decreases ts.len(),
{
    if ts.len() == 0 {
        Seq::empty()
    } else {
        cargo_info_lines(ts.drop_last()) + if is_cargo_info(ts.last()) {
            "  "@ + ts.last() + "\n"@
        } else {
            Seq::empty()
        }
    }
}

/// The workspace member lines from line `k` of the `[workspace]` section
/// (line 0 being its header), up to line 20 or the next section.
pub open spec fn workspace_lines(ls: Seq<Seq<char>>, k: int) -> Seq<char>
    decreases ls.len() - k,
{
    if k < 1 || k >= ls.len() || k > 20 {
        Seq::empty()
    } else {
        let t = trim(ls[k]);
        if starts_with(t, "["@) && t != "[workspace]"@ {
            Seq::empty()
        } else {
            (if starts_with(t, "\""@) || starts_with(t, "members"@) {
                "  "@ + t + "\n"@
            } else {
                Seq::empty()
            }) + workspace_lines(ls, k + 1)
        }
    }
}

/// What `Cargo.toml` tells: name, version and description lines among its
/// first 20, and the workspace members.
pub open spec fn cargo_summary(cargo: Seq<char>) -> Seq<char> {
    let ls = spec_lines(cargo);
    let first = if ls.len() > 20 {
        ls.take(20)
    } else {
        ls
    };
    cargo_info_lines(first.map_values(|l: Seq<char>| trim(l))) + match spec_find(
        cargo,
        "[workspace]"@,
    ) {
        Some(idx) => workspace_lines(spec_lines(cargo.skip(idx)), 1),
        None => Seq::empty(),
    }
}

/// Whether `text` is a JSON document for `serde_json` (it depends on `text`
/// alone).
pub uninterp spec fn json_parses(text: Seq<char>) -> bool;

/// The string value of the top-level `key` of the JSON document `text`, if
/// it has one (it depends on `text` and `key` alone).
pub uninterp spec fn json_field(text: Seq<char>, key: Seq<char>) -> Option<Seq<char>>;

/// `serde_json::from_str::<serde_json::Value>(text)`, then the document's
/// `key` field as a string (`Value::get`, `Value::as_str`): none when the
/// text is no JSON, `Some(None)` when the field is missing or no string.
/// Whether the text parses does not depend on `key`; JSON syntax itself is
/// not stated, and the two outcomes are named `json_parses` and
/// `json_field`.
#[verifier::external_body]
pub(crate) fn json_string_field(text: &str, key: &str) -> (field: Option<Option<String>>)
    ensures
        field is None <==> !json_parses(text@),
        field matches Some(f) ==> (f is None <==> json_field(text@, key@) is None),
        field matches Some(Some(f)) ==> json_field(text@, key@) == Some(f@),
{
    match serde_json::from_str::<serde_json::Value>(text) {
        Ok(v) => Some(v.get(key).and_then(|f| f.as_str()).map(String::from)),
        Err(_) => None,
    }
}

/// `label`, the string field `key` of the JSON document `text` and a
/// newline; nothing when the text is no JSON or has no such field.
pub open spec fn json_field_line(text: Seq<char>, key: Seq<char>, label: Seq<char>) -> Seq<char> {
    if json_parses(text) {
        match json_field(text, key) {
            Some(v) => label + v + "\n"@,
            None => Seq::empty(),
        }
    } else {
        Seq::empty()
    }
}

/// A directory worth listing in the summary: not hidden and not a
/// dependency or build output directory.
pub open spec fn is_key_dir(name: Seq<char>) -> bool {
    !starts_with(name, "."@) && name != "node_modules"@ && name != "target"@ && name != "__pycache__"@
}

/// `items` that satisfy `keep`, as `Seq`.
pub open spec fn list_section(title: Seq<char>, items: Seq<Seq<char>>) -> Seq<char> {
    if items.len() > 0 {
        title + join_with(items, ", "@) + "\n"@
    } else {
        Seq::empty()
    }
}

/// The project summary of a directory named `dir_name`, from what was
/// found in it: whether it is a git checkout, the marker files present,
/// `Cargo.toml` and `package.json` when readable, its sub-directories
/// (`sorted_dirs`: the key ones, sorted) and the entry points present.
pub open spec fn spec_project_summary(
    dir_name: Seq<char>,
    is_git: bool,
    present_markers: Seq<Seq<char>>,
    cargo: Option<Seq<char>>,
    package_json: Option<Seq<char>>,
    sorted_dirs: Seq<Seq<char>>,
    present_entries: Seq<Seq<char>>,
) -> Seq<char> {
    "Project: "@ + dir_name + "\n"@ + (if is_git {
        "VCS: git\n"@
    } else {
        Seq::empty()
    }) + list_section("Languages: "@, marker_values(present_markers, marker_langs(), 11, true))
        + list_section("Build system: "@, marker_values(present_markers, marker_builds(), 11, false))
        + match cargo {
        Some(c) => cargo_summary(c),
        None => Seq::empty(),
    } + match package_json {
        Some(p) => json_field_line(p, "name"@, "  name: "@) + json_field_line(
            p,
            "version"@,
            "  version: "@,
        ),
        None => Seq::empty(),
    } + list_section("Directories: "@, sorted_dirs) + list_section(
        "Entry points: "@,
        entry_candidates().filter(|e: Seq<char>| present_entries.contains(e)),
    )
}

/// Whether `list` holds `s`.
pub fn contains_string(list: &[String], s: &str) -> (b: bool)
    ensures
        b == list@.map_values(|x: String| x@).contains(s@),
{
    let ghost lv = list@.map_values(|x: String| x@);
    let c = str_to_chars(s);
    let mut i: usize = 0;
    while i < list.len()
        invariant
            i <= list@.len(),
            lv == list@.map_values(|x: String| x@),
            c@ == s@,
            forall|k: int| 0 <= k < i ==> lv[k] != s@,
        decreases list@.len() - i,
    {
        let x = str_to_chars(list[i].as_str());
        if crate::text::chars_eq(x.as_slice(), c.as_slice()) {
            assert(lv[i as int] == s@);
            return true;
        }
        i = i + 1;
    }
    false
}

/// Appends `title`, the items joined by `, ` and a newline, when there
/// are items.
fn push_list_section(out: &mut String, title: &str, items: &[String])
    ensures
        final(out)@ == old(out)@ + list_section(title@, items@.map_values(|s: String| s@)),
{
    if items.len() > 0 {
        out.append(title);
        out.append(join_strings(items, ", ").as_str());
        out.append("\n");
    } else {
        assert(old(out)@ + Seq::<char>::empty() =~= old(out)@);
    }
}

/// The languages or build systems of the present markers.
fn marker_value_list(present: &[String], vals: &[&str], skip_empty: bool) -> (out: Vec<String>)
    requires
        vals@.len() == 11,
    ensures
        out@.map_values(|s: String| s@) == marker_values(
            present@.map_values(|s: String| s@),
            vals@.map_values(|s: &str| s@),
            11,
            skip_empty,
        ),
{
    let files = project_marker_files();
    let ghost pv = present@.map_values(|s: String| s@);
    let ghost vv = vals@.map_values(|s: &str| s@);
    let mut out: Vec<String> = Vec::new();
    let mut i: usize = 0;
    assert(marker_files().len() == 11);
    assert(files@.len() == files@.map_values(|s: String| s@).len());
    while i < 11
        invariant
            i <= 11,
            vals@.len() == 11,
            files@.len() == 11,
            files@.map_values(|s: String| s@) == marker_files(),
            pv == present@.map_values(|s: String| s@),
            vv == vals@.map_values(|s: &str| s@),
            out@.map_values(|s: String| s@) == marker_values(pv, vv, i as int, skip_empty),
        decreases 11 - i,
    {
        let v = vals[i];
        assert(v@ == vv[i as int]);
        assert(files@[i as int]@ == marker_files()[i as int]);
        let ov = &out;
        if contains_string(present, files[i].as_str()) && !(skip_empty && v.is_empty())
            && !contains_string(ov.as_slice(), v) {
            let ghost before = out@.map_values(|s: String| s@);
            out.push(String::from_str(v));
            assert(out@.map_values(|s: String| s@) =~= before.push(v@));
        }
        i = i + 1;
    }
    out
}

/// The `Cargo.toml` part of the summary.
fn cargo_summary_text(cargo: &str) -> (text: String)
    ensures
        text@ == cargo_summary(cargo@),
{
    let chars = str_to_chars(cargo);
    let ls = crate::text::lines(chars.as_slice());
    let ghost lv = char_lines_view(ls@);
    let n = if ls.len() > 20 {
        20
    } else {
        ls.len()
    };
    let ghost first = if lv.len() > 20 {
        lv.take(20)
    } else {
        lv
    };
    assert(first =~= lv.take(n as int));
    let ghost ts = first.map_values(|l: Seq<char>| trim(l));
    let mut out = String::new();
    let mut i: usize = 0;
    while i < n
        invariant
            i <= n <= ls@.len(),
            lv == char_lines_view(ls@),
            ts == lv.take(n as int).map_values(|l: Seq<char>| trim(l)),
            out@ == cargo_info_lines(ts.take(i as int)),
        decreases n - i,
    {
        assert(ts.take(i + 1).drop_last() =~= ts.take(i as int));
        let t = trimmed(ls[i].as_slice());
        assert(t@ == ts[i as int]);
        let info = crate::text::has_prefix_str(t.as_slice(), "name") || crate::text::has_prefix_str(
            t.as_slice(),
            "version",
        ) || crate::text::has_prefix_str(t.as_slice(), "description");
        if info {
            out.append("  ");
            out.append(chars_to_string(t.as_slice()).as_str());
            out.append("\n");
        } else {
            assert(out@ + Seq::<char>::empty() =~= out@);
        }
        i = i + 1;
    }
    assert(ts.take(n as int) =~= ts);
    let ws = str_to_chars("[workspace]");
    match crate::text::find(chars.as_slice(), ws.as_slice()) {
        None => {
            assert(out@ + Seq::<char>::empty() =~= out@);
        },
        Some(idx) => {
            proof {
                crate::text::lemma_find_from_occurs(chars@, ws@, 0);
            }
            let tail = crate::text::sub_vec(chars.as_slice(), idx, chars.len());
            let wl = crate::text::lines(tail.as_slice());
            let ghost wv = char_lines_view(wl@);
            let ghost before = out@;
            let mut k: usize = 1;
            assert(before + workspace_lines(wv, 1) == before + workspace_lines(wv, k as int));
            while k < wl.len() && k <= 20
                invariant_except_break
                    1 <= k,
                    wv == char_lines_view(wl@),
                    out@ + workspace_lines(wv, k as int) == before + workspace_lines(wv, 1),
                ensures
                    out@ == before + workspace_lines(wv, 1),
                decreases wl@.len() - k,
            {
                let t = trimmed(wl[k].as_slice());
                assert(t@ == trim(wv[k as int]));
                if crate::text::has_prefix_str(t.as_slice(), "[") && !crate::text::eq_str(
                    t.as_slice(),
                    "[workspace]",
                ) {
                    assert(out@ + Seq::<char>::empty() =~= out@);
                    break;
                }
                if crate::text::has_prefix_str(t.as_slice(), "\"") || crate::text::has_prefix_str(
                    t.as_slice(),
                    "members",
                ) {
                    let ghost o = out@;
                    out.append("  ");
                    out.append(chars_to_string(t.as_slice()).as_str());
                    out.append("\n");
                    assert(o + (("  "@ + t@ + "\n"@) + workspace_lines(wv, k + 1)) =~= out@
                        + workspace_lines(wv, k + 1));
                } else {
                    assert(out@ + (Seq::<char>::empty() + workspace_lines(wv, k + 1)) =~= out@
                        + workspace_lines(wv, k + 1));
                }
                k = k + 1;
            }
            proof {
                if !(k < wl@.len() && k <= 20) {
                    assert(workspace_lines(wv, k as int) == Seq::<char>::empty());
                    assert(out@ + Seq::<char>::empty() =~= out@);
                }
            }
        },
    }
    out
}

/// The summary of a project directory for `project_summary`, from what
/// the caller found in it: the marker files present, the contents of
/// `Cargo.toml` and `package.json` when they could be read, the names of
/// its sub-directories, and the entry points present.
pub fn project_summary(
    dir_name: &str,
    is_git: bool,
    present_markers: &[String],
    cargo_toml: Option<&str>,
    package_json: Option<&str>,
    dirs: &[String],
    present_entries: &[String],
) -> (summary: String)
    ensures
        exists|sorted_dirs: Seq<Seq<char>>|
            #![trigger crate::order::is_sorted(sorted_dirs)]
            crate::order::is_sorted(sorted_dirs) && sorted_dirs.to_multiset() == dirs@.map_values(
                |s: String| s@,
            ).filter(|d: Seq<char>| is_key_dir(d)).to_multiset() && summary@ == spec_project_summary(
                dir_name@,
                is_git,
                present_markers@.map_values(|s: String| s@),
                opt_str_view(cargo_toml),
                opt_str_view(package_json),
                sorted_dirs,
                present_entries@.map_values(|s: String| s@),
            ),
{
    let ghost pm = present_markers@.map_values(|s: String| s@);
    let mut out = String::from_str("Project: ");
    out.append(dir_name);
    out.append("\n");
    if is_git {
        out.append("VCS: git\n");
    } else {
        assert(out@ + Seq::<char>::empty() =~= out@);
    }
    let langs_src = [
        "Rust",
        "JavaScript/TypeScript",
        "Go",
        "Python",
        "Python",
        "Ruby",
        "Java",
        "Java/Kotlin",
        "C/C++",
        "",
        "Swift",
    ];
    let builds_src = [
        "cargo",
        "npm/pnpm",
        "go",
        "pip/poetry",
        "setuptools",
        "bundler",
        "Maven",
        "Gradle",
        "CMake",
        "make",
        "SwiftPM",
    ];
    assert(langs_src@.map_values(|s: &str| s@) =~= marker_langs());
    assert(builds_src@.map_values(|s: &str| s@) =~= marker_builds());
    let langs = marker_value_list(present_markers, langs_src.as_slice(), true);
    let builds = marker_value_list(present_markers, builds_src.as_slice(), false);
    push_list_section(&mut out, "Languages: ", langs.as_slice());
    push_list_section(&mut out, "Build system: ", builds.as_slice());
    match cargo_toml {
        Some(c) => {
            out.append(cargo_summary_text(c).as_str());
        },
        None => {
            assert(out@ + Seq::<char>::empty() =~= out@);
        },
    }
    match package_json {
        Some(p) => {
            let ghost o = out@;
            match json_string_field(p, "name") {
                Some(Some(n)) => {
                    out.append("  name: ");
                    out.append(n.as_str());
                    out.append("\n");
                },
                _ => {},
            }
            let ghost o2 = out@;
            match json_string_field(p, "version") {
                Some(Some(v)) => {
                    out.append("  version: ");
                    out.append(v.as_str());
                    out.append("\n");
                },
                _ => {},
            }
            assert(out@ =~= o + (json_field_line(p@, "name"@, "  name: "@) + json_field_line(
                p@,
                "version"@,
                "  version: "@,
            )));
        },
        None => {
            assert(out@ + Seq::<char>::empty() =~= out@);
        },
    }
    let ghost dv = dirs@.map_values(|s: String| s@);
    let ghost keep = |d: Seq<char>| is_key_dir(d);
    let mut key_dirs: Vec<String> = Vec::new();
    let mut i: usize = 0;
    while i < dirs.len()
        invariant
            i <= dirs@.len(),
            dv == dirs@.map_values(|s: String| s@),
            keep == (|d: Seq<char>| is_key_dir(d)),
            key_dirs@.map_values(|s: String| s@) == dv.take(i as int).filter(keep),
        decreases dirs@.len() - i,
    {
        proof {
            reveal(Seq::filter);
            assert(dv.take(i + 1).drop_last() =~= dv.take(i as int));
        }
        let name = str_to_chars(dirs[i].as_str());
        let n = name.as_slice();
        let key = !crate::text::has_prefix_str(n, ".") && !crate::text::eq_str(n, "node_modules")
            && !crate::text::eq_str(n, "target") && !crate::text::eq_str(n, "__pycache__");
        if key {
            let ghost before = key_dirs@.map_values(|s: String| s@);
            key_dirs.push(dirs[i].clone());
            assert(key_dirs@.map_values(|s: String| s@) =~= before.push(dv[i as int]));
        }
        i = i + 1;
    }
    assert(dv.take(dirs@.len() as int) =~= dv);
    let sorted = crate::order::sort_strings(key_dirs);
    push_list_section(&mut out, "Directories: ", sorted.as_slice());
    let candidates = entry_point_candidates();
    let ghost cv = entry_candidates();
    let ghost pe = present_entries@.map_values(|s: String| s@);
    let ghost has = |e: Seq<char>| pe.contains(e);
    let mut entries: Vec<String> = Vec::new();
    let mut k: usize = 0;
    while k < candidates.len()
        invariant
            k <= candidates@.len(),
            candidates@.map_values(|s: String| s@) == cv,
            cv == entry_candidates(),
            pe == present_entries@.map_values(|s: String| s@),
            has == (|e: Seq<char>| pe.contains(e)),
            entries@.map_values(|s: String| s@) == cv.take(k as int).filter(has),
        decreases candidates@.len() - k,
    {
        proof {
            reveal(Seq::filter);
            assert(cv.take(k + 1).drop_last() =~= cv.take(k as int));
        }
        assert(candidates@[k as int]@ == cv[k as int]);
        if contains_string(present_entries, candidates[k].as_str()) {
            let ghost before = entries@.map_values(|s: String| s@);
            entries.push(candidates[k].clone());
            assert(entries@.map_values(|s: String| s@) =~= before.push(cv[k as int]));
        }
        k = k + 1;
    }
    assert(cv.take(candidates@.len() as int) =~= cv);
    push_list_section(&mut out, "Entry points: ", entries.as_slice());
    assert(crate::order::is_sorted(crate::order::strings_of(sorted@)));
    out
}

// ---------------------------------------------------------------------------
// File tree.
// ---------------------------------------------------------------------------

/// The most entries a file tree lists.
pub const MAX_TREE_ENTRIES: usize = 500;

/// Directories a file tree leaves out: build output, caches, dependencies
/// and version control, neither listed nor counted nor walked into.
pub open spec fn tree_skip_dirs() -> Seq<Seq<char>> {
    seq![
        ".git"@,
        "node_modules"@,
        "target"@,
        "__pycache__"@,
        ".next"@,
        "dist"@,
        "build"@,
        ".build"@,
        ".cache"@,
        "vendor"@,
        ".bundle"@,
        "venv"@,
        ".venv"@,
        "Pods"@,
        "DerivedData"@,
    ]
}

/// The deepest level `file_tree` may be asked for.
pub const MAX_TREE_DEPTH: u64 = 6;

/// The depth `file_tree` walks: the one asked for (3 when none is), at
/// most `MAX_TREE_DEPTH`.
pub fn file_tree_depth(requested: Option<u64>) -> (depth: usize)
    ensures
        depth == (match requested {
            Some(d) => if d < MAX_TREE_DEPTH { d } else { MAX_TREE_DEPTH },
            None => 3,
        }),
{
    match requested {
        Some(d) => if d < MAX_TREE_DEPTH {
            d as usize
        } else {
            MAX_TREE_DEPTH as usize
        },
        None => 3,
    }
}

/// Whether the tree leaves out a directory called `name`.
pub fn tree_skips_dir(name: &str) -> (b: bool)
    ensures
        b == tree_skip_dirs().contains(name@),
{
    let items = [
        ".git",
        "node_modules",
        "target",
        "__pycache__",
        ".next",
        "dist",
        "build",
        ".build",
        ".cache",
        "vendor",
        ".bundle",
        "venv",
        ".venv",
        "Pods",
        "DerivedData",
    ];
    let skip = string_vec(items.as_slice());
    assert(items@.map_values(|s: &str| s@) =~= tree_skip_dirs());
    contains_string(skip.as_slice(), name)
}

/// An entry a file tree shows: not hidden, except `.github`.
pub open spec fn is_shown_entry(name: Seq<char>) -> bool {
    !starts_with(name, "."@) || name == ".github"@
}

/// A shown entry that is (or is not) a directory; a directory the tree
/// leaves out is not shown.
pub open spec fn is_shown_kind(dirs: bool) -> spec_fn((Seq<char>, bool)) -> bool {
    |e: (Seq<char>, bool)| e.1 == dirs && is_shown_entry(e.0) && (dirs ==> !tree_skip_dirs().contains(e.0))
}

/// The names of the shown entries that are (or are not) directories.
pub open spec fn shown_names(entries: Seq<(Seq<char>, bool)>, dirs: bool) -> Seq<Seq<char>> {
    entries.filter(is_shown_kind(dirs)).map_values(|e: (Seq<char>, bool)| e.0)
}

/// A directory's entries as the tree lists them: the shown ones (neither
/// hidden nor a left-out directory), directories first, each group sorted
/// by name.
pub fn order_tree_entries(entries: &[(String, bool)]) -> (ordered: (Vec<String>, Vec<String>))
    ensures
        crate::order::is_sorted(crate::order::strings_of(ordered.0@)),
        crate::order::is_sorted(crate::order::strings_of(ordered.1@)),
        crate::order::strings_of(ordered.0@).to_multiset() == shown_names(
            entries@.map_values(|e: (String, bool)| (e.0@, e.1)),
            true,
        ).to_multiset(),
        crate::order::strings_of(ordered.1@).to_multiset() == shown_names(
            entries@.map_values(|e: (String, bool)| (e.0@, e.1)),
            false,
        ).to_multiset(),
{
    let ghost ev = entries@.map_values(|e: (String, bool)| (e.0@, e.1));
    let ghost pd = is_shown_kind(true);
    let ghost pf = is_shown_kind(false);
    let mut dirs: Vec<String> = Vec::new();
    let mut files: Vec<String> = Vec::new();
    let mut i: usize = 0;
    while i < entries.len()
        invariant
            i <= entries@.len(),
            ev == entries@.map_values(|e: (String, bool)| (e.0@, e.1)),
            pd == is_shown_kind(true),
            pf == is_shown_kind(false),
            crate::order::strings_of(dirs@) == ev.take(i as int).filter(pd).map_values(
                |e: (Seq<char>, bool)| e.0,
            ),
            crate::order::strings_of(files@) == ev.take(i as int).filter(pf).map_values(
                |e: (Seq<char>, bool)| e.0,
            ),
        decreases entries@.len() - i,
    {
        proof {
            reveal(Seq::filter);
            assert(ev.take(i + 1).drop_last() =~= ev.take(i as int));
        }
        let (name, is_dir) = &entries[i];
        assert(ev[i as int] == (name@, *is_dir));
        let n = str_to_chars(name.as_str());
        let shown = !crate::text::has_prefix_str(n.as_slice(), ".") || crate::text::eq_str(
            n.as_slice(),
            ".github",
        );
        let skipped = *is_dir && tree_skips_dir(name.as_str());
        let ghost d0 = ev.take(i as int).filter(pd);
        let ghost f0 = ev.take(i as int).filter(pf);
        if shown && *is_dir && !skipped {
            let ghost before = crate::order::strings_of(dirs@);
            dirs.push(name.clone());
            assert(crate::order::strings_of(dirs@) =~= before.push(name@));
            assert(d0.push(ev[i as int]).map_values(|e: (Seq<char>, bool)| e.0) =~= d0.map_values(
                |e: (Seq<char>, bool)| e.0,
            ).push(name@));
        } else if shown && !*is_dir {
            let ghost before = crate::order::strings_of(files@);
            files.push(name.clone());
            assert(crate::order::strings_of(files@) =~= before.push(name@));
            assert(f0.push(ev[i as int]).map_values(|e: (Seq<char>, bool)| e.0) =~= f0.map_values(
                |e: (Seq<char>, bool)| e.0,
            ).push(name@));
        }
        i = i + 1;
    }
    assert(ev.take(entries@.len() as int) =~= ev);
    let d = crate::order::sort_strings(dirs);
    let f = crate::order::sort_strings(files);
    (d, f)
}

/// A directory being listed: its path, the indent of its entries, its
/// level, its shown sub-directories and files in order, whether the files
/// are being listed (after the directories), and the next entry.
pub struct TreeFrame {
    dir: String,
    prefix: String,
    depth: usize,
    dirs: Vec<String>,
    files: Vec<String>,
    in_files: bool,
    idx: usize,
}

/// A directory being listed, as plain values.
#[verifier::ext_equal]
pub struct FrameView {
    pub dir: Seq<char>,
    pub prefix: Seq<char>,
    pub depth: nat,
    pub dirs: Seq<Seq<char>>,
    pub files: Seq<Seq<char>>,
    pub in_files: bool,
    pub idx: nat,
}

impl View for TreeFrame {
    type V = FrameView;

    closed spec fn view(&self) -> FrameView {
        FrameView {
            dir: self.dir@,
            prefix: self.prefix@,
            depth: self.depth as nat,
            dirs: crate::order::strings_of(self.dirs@),
            files: crate::order::strings_of(self.files@),
            in_files: self.in_files,
            idx: self.idx as nat,
        }
    }
}

/// The `file_tree` report being built: the text so far, the entries listed,
/// the deepest level, the directories being listed (the innermost last),
/// and the directory whose entries are needed next (with the indent and
/// level of its entries), if any.
pub struct TreeWalk {
    out: String,
    count: usize,
    max_depth: usize,
    stack: Vec<TreeFrame>,
    pending: Option<(String, String, usize)>,
}

/// The report being built, as plain values.
#[verifier::ext_equal]
pub struct TreeView {
    pub out: Seq<char>,
    pub count: nat,
    pub max_depth: nat,
    pub stack: Seq<FrameView>,
    pub pending: Option<(Seq<char>, Seq<char>, nat)>,
}

impl View for TreeWalk {
    type V = TreeView;

    closed spec fn view(&self) -> TreeView {
        TreeView {
            out: self.out@,
            count: self.count as nat,
            max_depth: self.max_depth as nat,
            stack: self.stack@.map_values(|f: TreeFrame| f@),
            pending: match self.pending {
                Some((d, p, n)) => Some((d@, p@, n as nat)),
                None => None,
            },
        }
    }
}

/// The names a frame is listing now.
pub open spec fn frame_names(f: FrameView) -> Seq<Seq<char>> {
    if f.in_files {
        f.files
    } else {
        f.dirs
    }
}

/// What is left of a frame's work: its entries still to list, the files
/// while it lists directories, and one step to finish.
pub open spec fn frame_measure(f: FrameView) -> nat {
    (if f.in_files {
        0
    } else {
        f.files.len() + 1
    }) + (if f.idx < frame_names(f).len() {
        (frame_names(f).len() - f.idx) as nat
    } else {
        0
    }) + 1
}

/// What is left of the work of all frames.
pub open spec fn stack_measure(s: Seq<FrameView>) -> nat
    decreases s.len(),
{
    if s.len() == 0 {
        0
    } else {
        stack_measure(s.drop_last()) + frame_measure(s.last())
    }
}

/// The line of an entry: its indent, its name, and a slash for a directory.
pub open spec fn entry_line(prefix: Seq<char>, name: Seq<char>, is_dir: bool) -> Seq<char> {
    prefix + name + if is_dir {
        "/\n"@
    } else {
        "\n"@
    }
}

/// Lists entries of the innermost directory until a sub-directory's
/// entries are needed or no directory is left. A directory's entries come
/// directories first; once 500 entries are listed, each open directory
/// ends with a truncation line. Sub-directories beyond the deepest level
/// are listed without their entries. (Hidden entries and left-out
/// directories never reach a frame.)
pub open spec fn tree_advance(t: TreeView) -> TreeView
    decreases stack_measure(t.stack),
{
    if t.stack.len() == 0 || t.pending is Some {
        t
    } else {
        let f = t.stack.last();
        let rest = t.stack.drop_last();
        let names = frame_names(f);
        proof {
            assert(t.stack.drop_last() =~= rest);
        }
        if f.idx >= names.len() {
            if !f.in_files {
                let g = FrameView { in_files: true, idx: 0, ..f };
                proof {
                    assert(rest.push(g).drop_last() =~= rest);
                }
                tree_advance(TreeView { stack: rest.push(g), ..t })
            } else {
                tree_advance(TreeView { stack: rest, ..t })
            }
        } else if t.count >= MAX_TREE_ENTRIES {
            tree_advance(TreeView { out: t.out + f.prefix + "... (truncated)\n"@, stack: rest, ..t })
        } else {
            let name = names[f.idx as int];
            let count = t.count + 1;
            let out = t.out + entry_line(f.prefix, name, !f.in_files);
            let g = FrameView { idx: f.idx + 1, ..f };
            proof {
                assert(rest.push(g).drop_last() =~= rest);
            }
            if !f.in_files && f.depth + 1 <= t.max_depth && count < MAX_TREE_ENTRIES {
                TreeView {
                    out,
                    count,
                    stack: rest.push(g),
                    pending: Some((crate::soul::path_join(f.dir, name), f.prefix + "  "@, f.depth + 1)),
                    ..t
                }
            } else {
                tree_advance(TreeView { out, count, stack: rest.push(g), ..t })
            }
        }
    }
}

/// The start of the report of `root` (named `root_name`): its line, and
/// the root's entries needed at level 1 unless no level is listed.
pub open spec fn tree_start(root: Seq<char>, root_name: Seq<char>, max_depth: nat) -> TreeView {
    TreeView {
        out: root_name + "/\n"@,
        count: 0,
        max_depth,
        stack: Seq::empty(),
        pending: if max_depth >= 1 {
            Some((root, "  "@, 1))
        } else {
            None
        },
    }
}

/// `dirs` and `files` are the shown sub-directories and files of
/// `entries`, each sorted by name (which makes them unique).
pub open spec fn tree_arranged(entries: Seq<(Seq<char>, bool)>, dirs: Seq<Seq<char>>, files: Seq<Seq<char>>) -> bool {
    &&& crate::order::is_sorted(dirs)
    &&& crate::order::is_sorted(files)
    &&& dirs.to_multiset() == shown_names(entries, true).to_multiset()
    &&& files.to_multiset() == shown_names(entries, false).to_multiset()
}

/// The report after the pending directory's entries arrive (`None` when it
/// could not be read, which lists nothing for it), given their arrangement.
pub open spec fn tree_after_listing(
    t: TreeView,
    listed: bool,
    dirs: Seq<Seq<char>>,
    files: Seq<Seq<char>>,
) -> TreeView {
    let (dir, prefix, depth) = t.pending.unwrap();
    let t1 = TreeView { pending: None, ..t };
    if listed {
        tree_advance(
            TreeView {
                stack: t1.stack.push(
                    FrameView { dir, prefix, depth, dirs, files, in_files: false, idx: 0 },
                ),
                ..t1
            },
        )
    } else {
        tree_advance(t1)
    }
}

/// The finished report: with a note when the entry limit was reached.
pub open spec fn tree_report(t: TreeView) -> Seq<char> {
    if t.count >= MAX_TREE_ENTRIES {
        t.out + "[truncated at "@ + decimal(MAX_TREE_ENTRIES as nat) + " entries]\n"@
    } else {
        t.out
    }
}

proof fn lemma_tree_advance_counts(t: TreeView)
    requires
        t.count <= MAX_TREE_ENTRIES,
    ensures
        tree_advance(t).count >= t.count,
        tree_advance(t).count <= MAX_TREE_ENTRIES,
        t.pending is None && tree_advance(t).pending is Some ==> tree_advance(t).count > t.count,
    decreases stack_measure(t.stack),
{
    if t.stack.len() == 0 || t.pending is Some {
    } else {
        let f = t.stack.last();
        let rest = t.stack.drop_last();
        let names = frame_names(f);
        assert(t.stack.drop_last() =~= rest);
        if f.idx >= names.len() {
            if !f.in_files {
                let g = FrameView { in_files: true, idx: 0, ..f };
                assert(rest.push(g).drop_last() =~= rest);
                lemma_tree_advance_counts(TreeView { stack: rest.push(g), ..t });
            } else {
                lemma_tree_advance_counts(TreeView { stack: rest, ..t });
            }
        } else if t.count >= MAX_TREE_ENTRIES {
            lemma_tree_advance_counts(
                TreeView { out: t.out + f.prefix + "... (truncated)\n"@, stack: rest, ..t },
            );
        } else {
            let name = names[f.idx as int];
            let count = t.count + 1;
            let out = t.out + entry_line(f.prefix, name, !f.in_files);
            let g = FrameView { idx: f.idx + 1, ..f };
            assert(rest.push(g).drop_last() =~= rest);
            if !f.in_files && f.depth + 1 <= t.max_depth && count < MAX_TREE_ENTRIES {
            } else {
                lemma_tree_advance_counts(TreeView { out, count, stack: rest.push(g), ..t });
            }
        }
    }
}

/// The walk makes progress: every directory it asks for after the first
/// comes with one more entry listed, and it lists at most
/// `MAX_TREE_ENTRIES`, so a walk fed every listing it asks for asks at most
/// `MAX_TREE_ENTRIES + 1` times and ends.
pub proof fn law_tree_walk_ends(t: TreeView, listed: bool, dirs: Seq<Seq<char>>, files: Seq<Seq<char>>)
    requires
        t.pending is Some,
        t.count <= MAX_TREE_ENTRIES,
    ensures
        tree_after_listing(t, listed, dirs, files).count <= MAX_TREE_ENTRIES,
        tree_after_listing(t, listed, dirs, files).count >= t.count,
        tree_after_listing(t, listed, dirs, files).pending is Some ==> tree_after_listing(
            t,
            listed,
            dirs,
            files,
        ).count > t.count,
{
    let (dir, prefix, depth) = t.pending.unwrap();
    let t1 = TreeView { pending: None, ..t };
    if listed {
        lemma_tree_advance_counts(
            TreeView {
                stack: t1.stack.push(FrameView { dir, prefix, depth, dirs, files, in_files: false, idx: 0 }),
                ..t1
            },
        );
    } else {
        lemma_tree_advance_counts(t1);
    }
}

impl TreeWalk {
    /// The consistent states: at most 500 entries, levels within the
    /// deepest level, and each frame's position within its names.
    pub closed spec fn wf(&self) -> bool {
        &&& self.count <= MAX_TREE_ENTRIES
        &&& self.max_depth < usize::MAX
        &&& forall|i: int|
            0 <= i < self.stack@.len() ==> (#[trigger] self.stack@[i]).depth <= self.max_depth
                && self.stack@[i].idx <= frame_names(self.stack@[i]@).len()
        &&& self.pending matches Some((_, _, d)) ==> d <= self.max_depth
    }

    /// The report of `root` (named `root_name`) down to `max_depth` levels.
    pub fn new(root: &str, root_name: &str, max_depth: usize) -> (w: TreeWalk)
        requires
            max_depth < usize::MAX,
        ensures
            w.wf(),
            w@ == tree_start(root@, root_name@, max_depth as nat),
    {
        let mut out = String::from_str(root_name);
        out.append("/\n");
        let pending = if max_depth >= 1 {
            Some((String::from_str(root), String::from_str("  "), 1usize))
        } else {
            None
        };
        let w = TreeWalk { out, count: 0, max_depth, stack: Vec::new(), pending };
        assert(w@.stack =~= Seq::<FrameView>::empty());
        w
    }

    /// The directory whose entries are needed next; none once the report
    /// is complete.
    pub fn request(&self) -> (dir: Option<String>)
        ensures
            match self@.pending {
                Some((d, _, _)) => dir matches Some(s) && s@ == d,
                None => dir is None,
            },
    {
        match &self.pending {
            Some((d, _, _)) => Some(d.clone()),
            None => None,
        }
    }

    /// Takes the entries of the requested directory (`None` when it could
    /// not be read) and lists on until another directory is needed.
    pub fn feed(&mut self, listing: Option<Vec<(String, bool)>>)
        requires
            old(self).wf(),
            old(self)@.pending is Some,
        ensures
            final(self).wf(),
            exists|dirs: Seq<Seq<char>>, files: Seq<Seq<char>>|
                #![trigger tree_after_listing(old(self)@, listing is Some, dirs, files)]
                (listing is Some ==> tree_arranged(listing_entries(listing), dirs, files)) && final(self)@
                    == tree_after_listing(old(self)@, listing is Some, dirs, files),
    {
        let (dir, prefix, depth) = match self.pending.take() {
            Some(p) => p,
            None => {
                assert(false);
                return ;
            },
        };
        let ghost t1 = self@;
        let ghost mut wd = Seq::<Seq<char>>::empty();
        let ghost mut wfl = Seq::<Seq<char>>::empty();
        let ghost is_some = listing is Some;
        let ghost entries_v = listing_entries(listing);
        match listing {
            Some(entries) => {
                let (dirs, files) = order_tree_entries(entries.as_slice());
                proof {
                    wd = crate::order::strings_of(dirs@);
                    wfl = crate::order::strings_of(files@);
                }
                assert(entries@.map_values(|e: (String, bool)| (e.0@, e.1)) == entries_v);
                let frame = TreeFrame { dir, prefix, depth, dirs, files, in_files: false, idx: 0 };
                let ghost fr = frame@;
                self.stack.push(frame);
                assert(self@.stack =~= t1.stack.push(fr));
                assert(self@ =~= TreeView { stack: t1.stack.push(fr), ..t1 });
                self.advance();
                assert(tree_arranged(entries_v, wd, wfl));
            },
            None => {
                self.advance();
            },
        }
        assert((is_some ==> tree_arranged(entries_v, wd, wfl)) && self@ == tree_after_listing(
            old(self)@,
            is_some,
            wd,
            wfl,
        ));
        assert(entries_v == listing_entries(listing));
        assert(is_some == (listing is Some));
    }

    /// Lists entries until a directory is needed or none is left.
    fn advance(&mut self)
        requires
            old(self).wf(),
        ensures
            final(self).wf(),
            final(self)@ == tree_advance(old(self)@),
    {
        let ghost target = tree_advance(self@);
        while self.pending.is_none() && self.stack.len() > 0
            invariant
                self.wf(),
                tree_advance(self@) == target,
            decreases stack_measure(self@.stack),
        {
            let ghost t = self@;
            let mut f = match self.stack.pop() {
                Some(f) => f,
                None => {
                    return ;
                },
            };
            let ghost fv = f@;
            assert(self@.stack =~= t.stack.drop_last());
            let n = if f.in_files {
                f.files.len()
            } else {
                f.dirs.len()
            };
            if f.idx >= n {
                if !f.in_files {
                    f.in_files = true;
                    f.idx = 0;
                    let ghost gv = f@;
                    self.stack.push(f);
                    assert(self@.stack =~= t.stack.drop_last().push(gv));
                    assert(t.stack.drop_last().push(gv).drop_last() =~= t.stack.drop_last());
                    assert(stack_measure(self@.stack) < stack_measure(t.stack));
                    assert(self@ =~= TreeView { stack: t.stack.drop_last().push(gv), ..t });
                } else {
                    assert(self@ =~= TreeView { stack: t.stack.drop_last(), ..t });
                }
            } else if self.count >= MAX_TREE_ENTRIES {
                self.out.append(f.prefix.as_str());
                self.out.append("... (truncated)\n");
                assert(self@ =~= TreeView {
                    out: t.out + fv.prefix + "... (truncated)\n"@,
                    stack: t.stack.drop_last(),
                    ..t
                });
            } else {
                let name = if f.in_files {
                    f.files[f.idx].clone()
                } else {
                    f.dirs[f.idx].clone()
                };
                assert(name@ == frame_names(fv)[fv.idx as int]);
                self.count = self.count + 1;
                self.out.append(f.prefix.as_str());
                self.out.append(name.as_str());
                if f.in_files {
                    self.out.append("\n");
                } else {
                    self.out.append("/\n");
                }
                f.idx = f.idx + 1;
                let descend = !f.in_files && f.depth < self.max_depth
                    && self.count < MAX_TREE_ENTRIES;
                if descend {
                    let sub = crate::soul::join_path(f.dir.as_str(), name.as_str());
                    let mut p = f.prefix.clone();
                    p.append("  ");
                    self.pending = Some((sub, p, f.depth + 1));
                }
                let ghost gv = f@;
                self.stack.push(f);
                assert(self@.stack =~= t.stack.drop_last().push(gv));
                assert(t.stack.drop_last().push(gv).drop_last() =~= t.stack.drop_last());
                assert(stack_measure(self@.stack) < stack_measure(t.stack));
                assert(self@.out =~= t.out + entry_line(fv.prefix, name@, !fv.in_files));
            }
        }
    }

    /// The finished report, once no directory is needed.
    pub fn finish(&self) -> (report: String)
        requires
            self@.pending is None,
        ensures
            report@ == tree_report(self@),
    {
        let mut out = self.out.clone();
        if self.count >= MAX_TREE_ENTRIES {
            out.append("[truncated at ");
            out.append(decimal_string(MAX_TREE_ENTRIES as u64).as_str());
            out.append(" entries]\n");
        }
        out
    }
}

/// The entries of a listing, as plain values (none when absent).
pub open spec fn listing_entries(listing: Option<Vec<(String, bool)>>) -> Seq<(Seq<char>, bool)> {
    match listing {
        Some(v) => v@.map_values(|e: (String, bool)| (e.0@, e.1)),
        None => Seq::empty(),
    }
}



// ---------------------------------------------------------------------------
// The tool list.
// ---------------------------------------------------------------------------

/// The tools offered to the model, in order: web search and URL reading
/// only when a search provider and key are configured.
pub open spec fn spec_tool_names(web_search_ready: bool) -> Seq<Seq<char>> {
    seq![
        "fs_read"@,
        "fs_list"@,
        "fs_write"@,
        "fs_patch"@,
        "fs_mkdir"@,
        "fs_delete"@,
        "shell_exec"@,
        "shell_bg"@,
        "shell_poll"@,
        "pwd"@,
        "web_fetch"@,
    ] + (if web_search_ready {
        seq!["web_search"@, "read_url"@]
    } else {
        Seq::empty()
    }) + seq![
        "project_summary"@,
        "file_tree"@,
        "symbol_search"@,
        "grep_search"@,
        "memory_read"@,
        "soul_read"@,
        "http_request"@,
    ]
}

/// The names of the tools offered to the model.
pub fn tool_names(web_search_ready: bool) -> (names: Vec<String>)
    ensures
        names@.map_values(|s: String| s@) == spec_tool_names(web_search_ready),
{
    let first = [
        "fs_read",
        "fs_list",
        "fs_write",
        "fs_patch",
        "fs_mkdir",
        "fs_delete",
        "shell_exec",
        "shell_bg",
        "shell_poll",
        "pwd",
        "web_fetch",
    ];
    let search = ["web_search", "read_url"];
    let last = [
        "project_summary",
        "file_tree",
        "symbol_search",
        "grep_search",
        "memory_read",
        "soul_read",
        "http_request",
    ];
    let mut names = string_vec(first.as_slice());
    let ghost a = names@.map_values(|s: String| s@);
    let mut b: Vec<String> = if web_search_ready {
        string_vec(search.as_slice())
    } else {
        Vec::new()
    };
    let ghost bv = b@.map_values(|s: String| s@);
    let mut c = string_vec(last.as_slice());
    let ghost cv = c@.map_values(|s: String| s@);
    names.append(&mut b);
    names.append(&mut c);
    assert(names@.map_values(|s: String| s@) =~= a + bv + cv);
    assert(first@.map_values(|s: &str| s@) =~= seq![
        "fs_read"@,
        "fs_list"@,
        "fs_write"@,
        "fs_patch"@,
        "fs_mkdir"@,
        "fs_delete"@,
        "shell_exec"@,
        "shell_bg"@,
        "shell_poll"@,
        "pwd"@,
        "web_fetch"@,
    ]);
    assert(search@.map_values(|s: &str| s@) =~= seq!["web_search"@, "read_url"@]);
    assert(bv =~= (if web_search_ready {
        seq!["web_search"@, "read_url"@]
    } else {
        Seq::<Seq<char>>::empty()
    }));
    assert(last@.map_values(|s: &str| s@) =~= seq![
        "project_summary"@,
        "file_tree"@,
        "symbol_search"@,
        "grep_search"@,
        "memory_read"@,
        "soul_read"@,
        "http_request"@,
    ]);
    names
}

} // verus!

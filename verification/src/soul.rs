//! The user's identity files (`SOUL.md`, `STYLE.md`, `SKILL.md`,
//! `MEMORY.md`): where they live, which contents count as placeholders, and
//! how much of them goes into a prompt. Reading and writing the files is
//! left to the caller.

use vstd::prelude::*;
use vstd::utf8::encode_utf8;
use vstd::string::StringExecFns;
use crate::text::{byte_len, str_byte_len, chars_to_string, lines, spec_lines, starts_with, str_to_chars, trim, trim_end, trim_start, trimmed, trimmed_end, trimmed_start, has_prefix_str};
use crate::proxy::{spec_parse_unsigned, parse_unsigned};
use crate::text::{join_with, join_strings, decimal, opt_string_view, spec_find, find};
use crate::tools::{opt_str_view, json_parses, json_field, json_string_field};

verus! {

/// The newest layout of the soul directory.
pub const SCHEMA_VERSION: u32 = 1;

/// Most bytes of SOUL, STYLE or SKILL that go into a prompt.
pub const SOUL_HARD_CAP: usize = 2048;

/// Most bytes of MEMORY that go into a prompt.
pub const MEMORY_HARD_CAP: usize = 4096;

/// `part` appended to the path `base`, as `Path::join` does on Unix: an
/// absolute `part` replaces `base`, and a `/` goes between them unless
/// `base` is empty or already ends with one.
pub open spec fn path_join(base: Seq<char>, part: Seq<char>) -> Seq<char> {
    if part.len() > 0 && part[0] == '/' {
        part
    } else if base.len() == 0 || base.last() == '/' {
        base + part
    } else {
        base + seq!['/'] + part
    }
}

/// Appends `part` to the path `base`.
pub fn join_path(base: &str, part: &str) -> (path: String)
    ensures
        path@ == path_join(base@, part@),
{
    let b = str_to_chars(base);
    let p = str_to_chars(part);
    if p.len() > 0 && p[0] == '/' {
        return chars_to_string(p.as_slice());
    }
    let mut out = b;
    if out.len() > 0 && out[out.len() - 1] != '/' {
        out.push('/');
    }
    crate::text::push_all(&mut out, p.as_slice());
    chars_to_string(out.as_slice())
}

/// The soul directory under the Kaku config directory.
pub fn soul_dir(config_dir: &str) -> (dir: String)
    ensures
        dir@ == path_join(config_dir@, "soul"@),
{
    join_path(config_dir, "soul")
}

/// `SOUL.md`: who the user is.
pub fn soul_path(config_dir: &str) -> (path: String)
    ensures
        path@ == path_join(path_join(config_dir@, "soul"@), "SOUL.md"@),
{
    join_path(soul_dir(config_dir).as_str(), "SOUL.md")
}

/// `STYLE.md`: the reply style the user prefers.
pub fn style_path(config_dir: &str) -> (path: String)
    ensures
        path@ == path_join(path_join(config_dir@, "soul"@), "STYLE.md"@),
{
    join_path(soul_dir(config_dir).as_str(), "STYLE.md")
}

/// `SKILL.md`: what the user works on.
pub fn skill_path(config_dir: &str) -> (path: String)
    ensures
        path@ == path_join(path_join(config_dir@, "soul"@), "SKILL.md"@),
{
    join_path(soul_dir(config_dir).as_str(), "SKILL.md")
}

/// `MEMORY.md`: what the curator remembers.
pub fn memory_path(config_dir: &str) -> (path: String)
    ensures
        path@ == path_join(path_join(config_dir@, "soul"@), "MEMORY.md"@),
{
    join_path(soul_dir(config_dir).as_str(), "MEMORY.md")
}

/// `.version`: the schema sentinel.
pub fn version_path(config_dir: &str) -> (path: String)
    ensures
        path@ == path_join(path_join(config_dir@, "soul"@), ".version"@),
{
    join_path(soul_dir(config_dir).as_str(), ".version")
}

/// `.bootstrapped`: the onboarding sentinel.
pub fn bootstrapped_path(config_dir: &str) -> (path: String)
    ensures
        path@ == path_join(path_join(config_dir@, "soul"@), ".bootstrapped"@),
{
    join_path(soul_dir(config_dir).as_str(), ".bootstrapped")
}

/// The schema version recorded in `.version` (`None` when it cannot be
/// read): its trimmed content as a `u32`, else 0.
pub open spec fn spec_schema_version(content: Option<Seq<char>>) -> nat {
    match content {
        Some(c) => match spec_parse_unsigned(trim(c), u32::MAX as nat) {
            Some(v) => v,
            None => 0,
        },
        None => 0,
    }
}

/// Reads the schema version out of the content of `.version`.
pub fn schema_version_from(content: Option<&str>) -> (version: u32)
    ensures
        version as nat == spec_schema_version(match content {
            Some(c) => Some(c@),
            None => None,
        }),
{
    match content {
        None => 0,
        Some(c) => {
            let chars = str_to_chars(c);
            let t = trimmed(chars.as_slice());
            match parse_unsigned(t.as_slice(), u32::MAX) {
                Some(v) => v,
                None => 0,
            }
        },
    }
}

/// Reading one more line of a placeholder file, inside an HTML comment
/// or not: blank lines, headings and HTML comments (also over several
/// lines) keep it a placeholder, and tell whether a comment is still open;
/// any other line makes it real content (none).
pub open spec fn stub_step(in_comment: bool, line: Seq<char>) -> Option<bool> {
    let t = trim_start(line);
    if trim(line).len() == 0 {
        Some(in_comment)
    } else if in_comment {
        Some(spec_find(line, "-->"@) is None)
    } else if starts_with(t, "#"@) {
        Some(false)
    } else if starts_with(t, "<!--"@) {
        Some(spec_find(t.skip(4), "-->"@) is None)
    } else {
        None
    }
}

/// Reading `lines` in order: whether a comment is open at the end, or none
/// once a line of real content was read.
pub open spec fn stub_scan(lines: Seq<Seq<char>>) -> Option<bool>
    decreases lines.len(),
{
    if lines.len() == 0 {
        Some(false)
    } else {
        match stub_scan(lines.drop_last()) {
            Some(in_comment) => stub_step(in_comment, lines.last()),
            None => None,
        }
    }
}

/// The file holds only placeholder text: headings and HTML comments.
pub open spec fn spec_is_stub_only(content: Seq<char>) -> bool {
    stub_scan(spec_lines(content)) is Some
}

/// Whether `content` holds only placeholder text.
pub fn is_stub_only(content: &str) -> (stub: bool)
    ensures
        stub == spec_is_stub_only(content@),
{
    let chars = str_to_chars(content);
    let all = lines(chars.as_slice());
    let ghost ls = spec_lines(content@);
    let close = str_to_chars("-->");
    let mut in_comment = false;
    let mut i: usize = 0;
    while i < all.len()
        invariant
            i <= all@.len(),
            all@.map_values(|v: Vec<char>| v@) == ls,
            ls == spec_lines(content@),
            close@ == "-->"@,
            stub_scan(ls.take(i as int)) == Some(in_comment),
        decreases all@.len() - i,
    {
        let line = all[i].as_slice();
        assert(line@ == ls[i as int]);
        assert(ls.take(i + 1).drop_last() =~= ls.take(i as int));
        let t = trimmed(line);
        if t.len() > 0 {
            if in_comment {
                in_comment = find(line, close.as_slice()).is_none();
            } else {
                let ts = trimmed_start(line);
                if has_prefix_str(ts.as_slice(), "#") {
                    in_comment = false;
                } else if has_prefix_str(ts.as_slice(), "<!--") {
                    proof {
                        reveal_strlit("<!--");
                    }
                    let rest = crate::text::sub_vec(ts.as_slice(), 4, ts.len());
                    assert(rest@ =~= ts@.skip(4));
                    in_comment = find(rest.as_slice(), close.as_slice()).is_none();
                } else {
                    proof {
                        assert(stub_scan(ls.take(i + 1)) is None);
                        lemma_stub_scan_stays_none(ls, i + 1);
                        assert(ls.take(ls.len() as int) =~= ls);
                    }
                    return false;
                }
            }
        }
        i = i + 1;
    }
    assert(ls.take(all@.len() as int) =~= ls);
    true
}

proof fn lemma_stub_scan_stays_none(ls: Seq<Seq<char>>, k: int)
    requires
        0 <= k <= ls.len(),
        stub_scan(ls.take(k)) is None,
    ensures
        stub_scan(ls.take(ls.len() as int)) is None,
    decreases ls.len() - k,
{
    if k < ls.len() {
        assert(ls.take(k + 1).drop_last() =~= ls.take(k));
        lemma_stub_scan_stays_none(ls, k + 1);
    }
}

/// Whole lines from `i` on, appended to `acc` (joined with `\n`) while the
/// result stays within `cap` bytes counting a newline per line.
pub open spec fn lines_within(lines: Seq<Seq<char>>, cap: nat, acc: Seq<char>, i: int) -> Seq<char>
    decreases lines.len() - i,
{
    if i < 0 || i >= lines.len() {
        acc
    } else if byte_len(acc) + byte_len(lines[i]) + 1 > cap {
        acc
    } else {
        let sep = if acc.len() > 0 {
            seq!['\n']
        } else {
            Seq::empty()
        };
        lines_within(lines, cap, acc + sep + lines[i], i + 1)
    }
}

/// What of a file's content goes into a prompt: nothing for a placeholder
/// file; the content without trailing whitespace when it fits in `cap`
/// bytes; otherwise the leading whole lines that fit.
pub open spec fn spec_cap_content(content: Seq<char>, cap: nat) -> Seq<char> {
    if spec_is_stub_only(content) {
        Seq::empty()
    } else if byte_len(content) <= cap {
        trim_end(content)
    } else {
        lines_within(spec_lines(content), cap, Seq::empty(), 0)
    }
}

/// Caps a file's content for a prompt (never cutting a line).
pub fn cap_content(content: &str, cap: usize) -> (out: String)
    ensures
        out@ == spec_cap_content(content@, cap as nat),
{
    if is_stub_only(content) {
        return String::new();
    }
    if str_byte_len(content) <= cap {
        let chars = str_to_chars(content);
        let t = trimmed_end(chars.as_slice());
        return chars_to_string(t.as_slice());
    }
    let chars = str_to_chars(content);
    let all = lines(chars.as_slice());
    let ghost ls = spec_lines(content@);
    let mut truncated = String::new();
    let mut i: usize = 0;
    while i < all.len()
        invariant
            i <= all@.len(),
            all@.map_values(|v: Vec<char>| v@) == ls,
            ls == spec_lines(content@),
            !spec_is_stub_only(content@),
            byte_len(content@) > cap,
            lines_within(ls, cap as nat, Seq::empty(), 0) == lines_within(ls, cap as nat, truncated@, i as int),
        decreases all@.len() - i,
    {
        let line = chars_to_string(all[i].as_slice());
        assert(line@ == ls[i as int]);
        let tl = str_byte_len(truncated.as_str());
        let ll = str_byte_len(line.as_str());
        if ll >= cap || tl > cap - ll - 1 {
            return truncated;
        }
        let ghost before = truncated@;
        if !truncated.as_str().is_empty() {
            proof {
                reveal_strlit("\n");
            }
            truncated.append("\n");
            assert(truncated@ == before + seq!['\n']);
        }
        truncated.append(line.as_str());
        i = i + 1;
    }
    truncated
}

proof fn lemma_trim_end_bytes(s: Seq<char>)
    ensures
        byte_len(trim_end(s)) <= byte_len(s),
    decreases s.len(),
{
    if s.len() > 0 && crate::text::is_whitespace(s.last()) {
        lemma_trim_end_bytes(s.drop_last());
        assert(s =~= s.drop_last() + seq![s.last()]);
        crate::layout::lemma_byte_len_concat(s.drop_last(), seq![s.last()]);
    }
}

proof fn lemma_lines_within_bytes(lines: Seq<Seq<char>>, cap: nat, acc: Seq<char>, i: int)
    requires
        byte_len(acc) <= cap,
    ensures
        byte_len(lines_within(lines, cap, acc, i)) <= cap,
    decreases lines.len() - i,
{
    if !(i < 0 || i >= lines.len()) && byte_len(acc) + byte_len(lines[i]) + 1 <= cap {
        let sep = if acc.len() > 0 {
            seq!['\n']
        } else {
            Seq::empty()
        };
        crate::layout::lemma_byte_len_concat(acc, sep);
        crate::layout::lemma_byte_len_concat(acc + sep, lines[i]);
        crate::layout::lemma_encode_utf8_push(Seq::<char>::empty(), '\n');
        assert(seq!['\n'] =~= Seq::<char>::empty().push('\n'));
        assert(encode_utf8(Seq::<char>::empty()) =~= Seq::<u8>::empty());
        lemma_lines_within_bytes(lines, cap, acc + sep + lines[i], i + 1);
    }
}

/// The law of capping: what goes into a prompt never exceeds the cap in
/// bytes.
pub proof fn law_capped_content_fits(content: Seq<char>, cap: nat)
    ensures
        byte_len(spec_cap_content(content, cap)) <= cap,
{
    if spec_is_stub_only(content) {
        assert(encode_utf8(Seq::<char>::empty()) =~= Seq::<u8>::empty());
    } else if byte_len(content) <= cap {
        lemma_trim_end_bytes(content);
    } else {
        assert(encode_utf8(Seq::<char>::empty()) =~= Seq::<u8>::empty());
        lemma_lines_within_bytes(spec_lines(content), cap, Seq::empty(), 0);
    }
}

/// The non-empty `parts` joined with `sep` between them.
pub open spec fn join_nonempty(parts: Seq<Seq<char>>, sep: Seq<char>) -> Seq<char>
    decreases parts.len(),
{
    if parts.len() == 0 {
        Seq::empty()
    } else {
        let acc = join_nonempty(parts.drop_last(), sep);
        let p = parts.last();
        if p.len() == 0 {
            acc
        } else if acc.len() == 0 {
            p
        } else {
            acc + sep + p
        }
    }
}

/// The identity parts that are not empty, joined by blank lines.
pub open spec fn spec_join_identity(soul: Seq<char>, style: Seq<char>, skill: Seq<char>) -> Seq<char> {
    join_nonempty(seq![soul, style, skill], "\n\n"@)
}

/// SOUL, STYLE and SKILL (already capped) for the system prompt: the
/// non-empty ones joined by blank lines.
pub fn join_identity(soul: &str, style: &str, skill: &str) -> (joined: String)
    ensures
        joined@ == spec_join_identity(soul@, style@, skill@),
{
    let mut out = String::new();
    let ghost all = seq![soul@, style@, skill@];
    let parts: [&str; 3] = [soul, style, skill];
    let mut i: usize = 0;
    while i < 3
        invariant
            i <= 3,
            all == seq![soul@, style@, skill@],
            parts@.map_values(|p: &str| p@) == all,
            out@ == join_nonempty(all.take(i as int), "\n\n"@),
        decreases 3 - i,
    {
        let p = parts[i];
        assert(p@ == all[i as int]);
        assert(all.take(i + 1).drop_last() == all.take(i as int));
        assert(all.take(i + 1).last() == all[i as int]);
        if !p.is_empty() {
            if !out.as_str().is_empty() {
                out.append("\n\n");
            }
            out.append(p);
        }
        i = i + 1;
    }
    assert(all.take(3) == all);
    out
}


/// The Kaku config directory: `kaku` under `$XDG_CONFIG_HOME` when that is
/// set, else `.config/kaku` under `$HOME` (under `.` when `HOME` is not set).
pub open spec fn spec_kaku_config_dir(xdg: Option<Seq<char>>, home: Option<Seq<char>>) -> Seq<char> {
    match xdg {
        Some(x) => path_join(x, "kaku"@),
        None => path_join(
            path_join(
                match home {
                    Some(h) => h,
                    None => "."@,
                },
                ".config"@,
            ),
            "kaku"@,
        ),
    }
}

/// The Kaku config directory from `XDG_CONFIG_HOME` and `HOME`.
pub fn kaku_config_dir(xdg: Option<&str>, home: Option<&str>) -> (dir: String)
    ensures
        dir@ == spec_kaku_config_dir(opt_str_view(xdg), opt_str_view(home)),
{
    match xdg {
        Some(x) => join_path(x, "kaku"),
        None => {
            let h = match home {
                Some(h) => h,
                None => ".",
            };
            let c = join_path(h, ".config");
            join_path(c.as_str(), "kaku")
        },
    }
}

/// The flag file whose presence means the onboarding greeting was shown:
/// in the config directory, outside `soul/`, so that the soul directory can
/// be wiped without losing it.
pub fn onboarding_flag_path(xdg: Option<&str>, home: Option<&str>) -> (path: String)
    ensures
        path@ == path_join(spec_kaku_config_dir(opt_str_view(xdg), opt_str_view(home)), "ai_chat_onboarded"@),
{
    let dir = kaku_config_dir(xdg, home);
    join_path(dir.as_str(), "ai_chat_onboarded")
}

/// Where the memory lived before the soul directory existed.
pub fn legacy_memory_path(config_dir: &str) -> (path: String)
    ensures
        path@ == path_join(config_dir@, "ai_chat_memory.md"@),
{
    join_path(config_dir, "ai_chat_memory.md")
}

/// The placeholder written to `SOUL.md` by the first migration.
pub const SOUL_STUB: &'static str = "# About Me\n\n<!-- Tell Kaku who you are. This file ships into every system prompt.\nThe curator will never overwrite it. Edit freely. -->\n";

/// The placeholder written to `STYLE.md` by the first migration.
pub const STYLE_STUB: &'static str = "# Voice & Style\n\n<!-- Your preferred reply style, tone, and formatting preferences. -->\n";

/// The placeholder written to `SKILL.md` by the first migration.
pub const SKILL_STUB: &'static str = "# Operating Modes\n\n<!-- What you typically work on and how Kaku should help. -->\n";

/// What a migration of the soul directory does, besides creating it and
/// recording the new schema version.
#[derive(Debug, Clone, Copy, PartialEq, Eq, Structural)]
pub struct MigrationPlan {
    /// Move the legacy memory file to `MEMORY.md`.
    pub move_legacy_memory: bool,
    /// Write the placeholders to `SOUL.md`, `STYLE.md` and `SKILL.md` where
    /// they are absent.
    pub write_stubs: bool,
}

/// The migration owed to a soul directory at schema `version`: none when it
/// is current; from version 0 the legacy memory moves, when it exists and
/// `MEMORY.md` does not, and the placeholders are written.
pub fn migration_plan(version: u32, legacy_exists: bool, memory_exists: bool) -> (plan: Option<MigrationPlan>)
    ensures
        plan is None <==> version >= SCHEMA_VERSION,
        plan matches Some(p) ==> p.write_stubs == (version == 0) && p.move_legacy_memory == (version
            == 0 && legacy_exists && !memory_exists),
{
    if version >= SCHEMA_VERSION {
        return None;
    }
    let from_zero = version == 0;
    Some(MigrationPlan { move_legacy_memory: from_zero && legacy_exists && !memory_exists, write_stubs: from_zero })
}

/// The content of `.version` recording schema `v`.
pub fn version_file_content(v: u32) -> (content: String)
    ensures
        content@ == decimal(v as nat) + "\n"@,
{
    let mut out = crate::text::decimal_string(v as u64);
    out.append("\n");
    out
}

/// The law behind loading the identity for a prompt: placeholder files give
/// nothing, so three of them give an empty identity.
pub proof fn law_placeholders_load_empty(soul: Seq<char>, style: Seq<char>, skill: Seq<char>, cap: nat)
    requires
        spec_is_stub_only(soul),
        spec_is_stub_only(style),
        spec_is_stub_only(skill),
    ensures
        spec_join_identity(spec_cap_content(soul, cap), spec_cap_content(style, cap), spec_cap_content(skill, cap))
            == Seq::<char>::empty(),
{
    let e = Seq::<char>::empty();
    assert(spec_cap_content(soul, cap) == e);
    assert(spec_cap_content(style, cap) == e);
    assert(spec_cap_content(skill, cap) == e);
    let parts = seq![e, e, e];
    assert(parts.drop_last().drop_last().drop_last() =~= Seq::<Seq<char>>::empty());
    assert(parts.drop_last().drop_last() =~= seq![e]);
    assert(parts.drop_last() =~= seq![e, e]);
    assert(seq![e].drop_last() =~= Seq::<Seq<char>>::empty());
    assert(join_nonempty(Seq::<Seq<char>>::empty(), "\n\n"@) == e);
    assert(join_nonempty(seq![e], "\n\n"@) == e);
    assert(seq![e, e].drop_last() =~= seq![e]);
    assert(join_nonempty(seq![e, e], "\n\n"@) == e);
    assert(join_nonempty(parts, "\n\n"@) == e);
}

// ---------------------------------------------------------------------------
// Bootstrapping from the onboarding answer.
// ---------------------------------------------------------------------------

/// The prompt before the user's onboarding answer.
pub const ONBOARDING_PROMPT_HEAD: &'static str = "The user just answered an onboarding greeting that asked:\n1. What should I call you?\n2. What reply style do you prefer?\n3. What do you typically work on?\n\nTheir answer:\n";

/// The prompt after the user's onboarding answer.
pub const ONBOARDING_PROMPT_TAIL: &'static str = "\n\nExtract the content into three files. Return ONLY a JSON object with keys \"soul\", \"style\", \"skill\". Each value is a Markdown string ready to save directly. Use first-person prose, no bullet lists unless natural. Keep each section under 300 words.\n\nsoul: one short paragraph about who they are (name, role, context).\nstyle: their preferred reply style and tone.\nskill: what they typically work on and how the assistant should help.\n\nIf a field cannot be determined from the answer, return an empty string for that key. Do not invent information.";

/// The system message of the bootstrap request.
pub const BOOTSTRAP_SYSTEM_MESSAGE: &'static str = "You split a short onboarding answer into structured identity files.";

/// The request that splits the onboarding answer `reply` into the three
/// identity files.
pub fn onboarding_prompt(reply: &str) -> (prompt: String)
    ensures
        prompt@ == ONBOARDING_PROMPT_HEAD@ + reply@ + ONBOARDING_PROMPT_TAIL@,
{
    let mut out = String::from_str(ONBOARDING_PROMPT_HEAD);
    out.append(reply);
    out.append(ONBOARDING_PROMPT_TAIL);
    out
}

/// The index of the first of `ls` from `i` on that starts with `{` (the
/// length when none does).
pub open spec fn first_brace_line(ls: Seq<Seq<char>>, i: int) -> int
    decreases ls.len() - i,
{
    if i < 0 || i >= ls.len() {
        ls.len() as int
    } else if starts_with(ls[i], "{"@) {
        i
    } else {
        first_brace_line(ls, i + 1)
    }
}

/// The lines of a reply from the first one that opens a JSON object on,
/// joined again: the object inside a fenced block.
pub open spec fn spec_json_candidate(text: Seq<char>) -> Seq<char> {
    let ls = spec_lines(text);
    join_with(ls.skip(first_brace_line(ls, 0)), "\n"@)
}

pub proof fn lemma_first_brace_line_bounds(ls: Seq<Seq<char>>, i: int)
    requires
        0 <= i <= ls.len(),
    ensures
        i <= first_brace_line(ls, i) <= ls.len(),
    decreases ls.len() - i,
{
    if i < ls.len() && !starts_with(ls[i], "{"@) {
        lemma_first_brace_line_bounds(ls, i + 1);
    }
}

/// The lines of `text` from the first that starts with `{`, joined by
/// newlines.
pub fn json_candidate(text: &str) -> (candidate: String)
    ensures
        candidate@ == spec_json_candidate(text@),
{
    let chars = str_to_chars(text);
    let all = lines(chars.as_slice());
    let ghost ls = spec_lines(text@);
    let mut k: usize = 0;
    while k < all.len()
        invariant_except_break
            k <= all@.len(),
            all@.map_values(|v: Vec<char>| v@) == ls,
            first_brace_line(ls, 0) == first_brace_line(ls, k as int),
        ensures
            k <= all@.len(),
            all@.map_values(|v: Vec<char>| v@) == ls,
            first_brace_line(ls, 0) == k,
        decreases all@.len() - k,
    {
        assert(all[k as int]@ == ls[k as int]);
        if has_prefix_str(all[k].as_slice(), "{") {
            break;
        }
        k = k + 1;
    }
    let mut rest: Vec<String> = Vec::new();
    let mut j: usize = k;
    while j < all.len()
        invariant
            k <= j <= all@.len(),
            all@.map_values(|v: Vec<char>| v@) == ls,
            rest@.map_values(|s: String| s@) == ls.subrange(k as int, j as int),
        decreases all@.len() - j,
    {
        assert(all[j as int]@ == ls[j as int]);
        let line = chars_to_string(all[j].as_slice());
        let ghost prev = rest@;
        rest.push(line);
        assert(rest@.map_values(|s: String| s@) =~= prev.map_values(|s: String| s@).push(ls[j as int]));
        assert(rest@.map_values(|s: String| s@) =~= ls.subrange(k as int, j + 1));
        j = j + 1;
    }
    assert(ls.skip(k as int) =~= ls.subrange(k as int, all@.len() as int));
    join_strings(rest.as_slice(), "\n")
}

/// The JSON document of a bootstrap reply: the trimmed reply when it is
/// JSON, else the trimmed candidate when that is; none when neither is.
pub open spec fn reply_document(text: Seq<char>) -> Option<Seq<char>> {
    if json_parses(trim(text)) {
        Some(trim(text))
    } else if json_parses(trim(spec_json_candidate(text))) {
        Some(trim(spec_json_candidate(text)))
    } else {
        None
    }
}

/// What goes into an identity file from the field `key` of the JSON
/// document `doc`: the trimmed string and a newline, when that is not
/// empty; nothing otherwise.
pub open spec fn field_file(doc: Seq<char>, key: Seq<char>) -> Option<Seq<char>> {
    if json_parses(doc) {
        match json_field(doc, key) {
            Some(v) => if trim(v).len() > 0 {
                Some(trim(v) + "\n"@)
            } else {
                None
            },
            None => None,
        }
    } else {
        None
    }
}

/// The contents to write to `SOUL.md`, `STYLE.md` and `SKILL.md`; a file
/// with none is left as it is.
pub struct IdentityFiles {
    pub soul: Option<String>,
    pub style: Option<String>,
    pub skill: Option<String>,
}

/// The file content for the field `key` of the JSON document `doc`.
fn field_file_of(doc: &str, key: &str) -> (file: Option<String>)
    ensures
        opt_string_view(file) == field_file(doc@, key@),
{
    match json_string_field(doc, key) {
        Some(Some(v)) => {
            let chars = str_to_chars(v.as_str());
            let t = trimmed(chars.as_slice());
            if t.len() == 0 {
                None
            } else {
                let mut out = chars_to_string(t.as_slice());
                out.append("\n");
                Some(out)
            }
        },
        _ => None,
    }
}

/// Splits the model's bootstrap reply into the identity files: the reply is
/// read as JSON, or else the object that starts on one of its lines; none
/// when neither is JSON.
pub fn identity_files_from_reply(text: &str) -> (files: Option<IdentityFiles>)
    ensures
        files is None <==> reply_document(text@) is None,
        files matches Some(f) ==> ({
            let doc = reply_document(text@).unwrap();
            &&& opt_string_view(f.soul) == field_file(doc, "soul"@)
            &&& opt_string_view(f.style) == field_file(doc, "style"@)
            &&& opt_string_view(f.skill) == field_file(doc, "skill"@)
        }),
{
    let chars = str_to_chars(text);
    let t = chars_to_string(trimmed(chars.as_slice()).as_slice());
    let doc = match json_string_field(t.as_str(), "soul") {
        Some(_) => t,
        None => {
            let c = json_candidate(text);
            let cc = str_to_chars(c.as_str());
            let ct = chars_to_string(trimmed(cc.as_slice()).as_slice());
            match json_string_field(ct.as_str(), "soul") {
                Some(_) => ct,
                None => {
                    return None;
                },
            }
        },
    };
    Some(
        IdentityFiles {
            soul: field_file_of(doc.as_str(), "soul"),
            style: field_file_of(doc.as_str(), "style"),
            skill: field_file_of(doc.as_str(), "skill"),
        },
    )
}

} // verus!

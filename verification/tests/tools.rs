use kaku::paths::{blocked_paths, reject_if_sensitive, resolve, ResolveError};
use kaku::tools::{
    bg_started_message, budget_for, cwd_from_marker, file_tree_depth, escape_regex, grep_command,
    grep_search_report, is_http_url, join_soul_sections, listing_text, order_tree_entries,
    patch_first, poll_report, project_summary, shell_exec_report, shell_streaming_cap, file_change_report, FileChange, WaitAction, WaitWatch,
    soul_section, symbol_command, symbol_pattern, symbol_search_report, tool_names,
    tree_skips_dir, truncate_tool_result, GrepCollector, LineRange, TreeWalk,
};
use std::collections::HashMap;

#[test]
fn resolve_absolute_unchanged() {
    assert_eq!(resolve("/etc/passwd", "/tmp", None).ok(), Some("/etc/passwd".to_string()));
}

#[test]
fn resolve_relative_to_cwd() {
    assert_eq!(
        resolve("src/main.rs", "/project", None).ok(),
        Some("/project/src/main.rs".to_string())
    );
}

#[test]
fn resolve_expands_tilde() {
    let home = "/Users/ada";
    assert_eq!(resolve("~/foo", "/tmp", Some(home)).ok(), Some("/Users/ada/foo".to_string()));
    assert_eq!(resolve("~", "/tmp", Some(home)).ok(), Some("/Users/ada".to_string()));
    match resolve("~/foo", "/tmp", None) {
        Err(e) => {
            assert!(matches!(e, ResolveError::HomeNotSet));
            assert_eq!(e.message(), "HOME not set");
        }
        Ok(p) => panic!("expected an error, got {}", p),
    }
}

#[test]
fn sensitive_locations_are_refused() {
    let blocked = blocked_paths("/Users/ada");
    assert!(blocked.contains(&"/Users/ada/.ssh".to_string()));
    assert!(blocked.contains(&"/etc/shadow".to_string()));
    let r = reject_if_sensitive("~/.ssh/id_rsa", "/Users/ada/.ssh/id_rsa", &blocked);
    assert_eq!(
        r,
        Err("refused: '~/.ssh/id_rsa' is a protected secret location".to_string())
    );
    assert_eq!(reject_if_sensitive("x", "/Users/ada/.sshx", &blocked), Ok(()));
    assert_eq!(reject_if_sensitive("x", "/Users/ada/src", &blocked), Ok(()));
    assert_eq!(blocked_paths("").len(), 6);
}

#[test]
fn budgets_follow_tiers() {
    assert_eq!(budget_for("fs_read", "default"), 8000);
    assert_eq!(budget_for("fs_read", "brief"), 4000);
    assert_eq!(budget_for("fs_read", "full"), 16000);
    assert_eq!(budget_for("shell_exec", "full"), 24000);
    assert_eq!(budget_for("fs_list", "brief"), 1000);
    assert_eq!(budget_for("unknown_tool", "full"), 8000);
    assert_eq!(shell_streaming_cap(12000), 11488);
    assert_eq!(shell_streaming_cap(100), 0);
}

#[test]
fn regex_escaping_and_symbol_patterns() {
    assert_eq!(escape_regex("a.b*c(d)"), "a\\.b\\*c\\(d\\)");
    assert_eq!(escape_regex("plain_name"), "plain_name");
    assert_eq!(symbol_pattern("Foo", "class"), "(class|struct)\\s+Foo");
    assert_eq!(
        symbol_pattern("x.y", "type"),
        "(type|struct|enum|interface|typedef)\\s+x\\.y"
    );
}

#[test]
fn search_commands() {
    let g = grep_command(true, "TODO", "/p", Some("*.rs"), 2, true, 100);
    assert_eq!(g.program, "rg");
    assert_eq!(
        g.args,
        vec![
            "--line-number", "--no-heading", "--color=never", "--context=2", "--max-count=100",
            "--ignore-case", "--glob", "*.rs", "TODO", "/p",
        ]
    );
    let g2 = grep_command(false, "TODO", "/p", None, 3, false, 100);
    assert_eq!(g2.program, "grep");
    assert_eq!(g2.args, vec!["-rn", "-C3", "--color=never", "TODO", "/p"]);
    let s = symbol_command(false, "pat", "/p", Some("*.py"));
    assert_eq!(s.program, "grep");
    assert_eq!(s.args, vec!["-rn", "--color=never", "-E", "--include", "*.py", "pat", "/p"]);
}

#[test]
fn grep_collector_stops_at_limit() {
    let mut g = GrepCollector::new(2);
    assert!(g.offer("a:1:x".to_string()));
    assert!(g.offer("--".to_string()));
    assert!(g.offer("b:2:y".to_string()));
    assert!(!g.offer("c:3:z".to_string()));
    assert!(g.truncated());
    assert_eq!(g.lines(), &vec!["a:1:x".to_string(), "--".to_string(), "b:2:y".to_string()]);
}

#[test]
fn grep_reports() {
    let lines = vec!["a.rs:1:hello world".to_string()];
    assert_eq!(
        grep_search_report(&lines, true, false, false, "", 100).ok(),
        Some("a.rs:1:hello world\n[... truncated at 100 results]".to_string())
    );
    assert_eq!(
        grep_search_report(&[], false, false, false, "  ", 100).ok(),
        Some("No matches found.".to_string())
    );
    assert_eq!(
        grep_search_report(&[], false, false, false, " bad regex \n", 100).ok(),
        Some("No matches. (bad regex)".to_string())
    );
    assert_eq!(
        grep_search_report(&[], false, true, false, "", 100).ok(),
        Some("grep_search timed out after 30s with no results.".to_string())
    );
    assert!(grep_search_report(&[], false, false, true, "", 100).is_err());
    assert_eq!(
        grep_search_report(&lines, false, false, true, "", 100).ok(),
        Some("a.rs:1:hello world\n[... canceled by user]".to_string())
    );
}

#[test]
fn symbol_reports() {
    assert_eq!(symbol_search_report("  \n", "greet", false), "No symbol definitions found for 'greet'.");
    assert_eq!(
        symbol_search_report("", "greet", true),
        "symbol_search timed out after 30s with no results for 'greet'."
    );
    assert_eq!(
        symbol_search_report("a.rs:3:greet();\nb.rs:1:pub fn greet()\n", "greet", false),
        "b.rs:1:pub fn greet()\na.rs:3:greet();"
    );
}

#[test]
fn shell_reports() {
    assert_eq!(
        shell_exec_report("hi\n__KAKU_CWD__:/x\n", "", false, 0, 0, false, false, Some((true, Some(0)))),
        "hi\n"
    );
    assert_eq!(
        shell_exec_report("", "oops", false, 0, 0, false, false, Some((false, Some(2)))),
        "[stderr] oops\n[exit 2]"
    );
    assert_eq!(
        shell_exec_report("", "", false, 0, 0, false, false, Some((true, Some(0)))),
        "(no output)"
    );
    assert_eq!(
        shell_exec_report("x", "", true, 10, 99, true, false, Some((false, None))),
        "x\n[truncated: first ~10 bytes shown (99 total). For large output, use shell_bg + shell_poll to avoid waiting.]\n[canceled by user before completion]"
    );
    assert!(shell_exec_report("", "", false, 0, 0, false, true, None).starts_with("\n[killed: exceeded 60s timeout."));
    assert_eq!(cwd_from_marker("  /tmp/x \n").as_deref(), Some("/tmp/x"));
    assert_eq!(cwd_from_marker("  \n"), None);
    assert_eq!(
        bg_started_message(42),
        "Background process started (pid 42). Use shell_poll to check status."
    );
    assert_eq!(poll_report(7, None, ""), "pid 7: running ");
    assert_eq!(poll_report(7, Some(Some(0)), "out"), "pid 7: done [exit 0]\nout");
    assert_eq!(poll_report(7, Some(None), ""), "pid 7: done [exit -1]");
}

#[test]
fn urls_and_soul_sections() {
    assert!(is_http_url("https://a.example"));
    assert!(is_http_url("http://a"));
    assert!(!is_http_url("ftp://a"));
    assert_eq!(soul_section(Some("I am Ada.\n\n"), "SOUL"), "## SOUL\n\nI am Ada.");
    assert_eq!(soul_section(Some("  \n"), "SOUL"), "");
    assert_eq!(soul_section(None, "SOUL"), "");
    let joined = join_soul_sections(&["a".to_string(), String::new(), "b".to_string()]);
    assert_eq!(joined, "a\n\n---\n\nb");
}

#[test]
fn truncation_keeps_whole_characters() {
    assert_eq!(truncate_tool_result("short", 10, None), None);
    assert_eq!(
        truncate_tool_result("héllo", 2, None).as_deref(),
        Some("h\n[truncated: 2 bytes shown of 6 total]")
    );
    assert_eq!(
        truncate_tool_result("abcdef", 3, Some("/tmp/s.txt")).as_deref(),
        Some("abc\n[truncated: 3 of 6 bytes shown]\n[spill: /tmp/s.txt]\n[hint: use fs_read(\"/tmp/s.txt\") to read the rest]")
    );
}

#[test]
fn line_ranges() {
    let mut r = LineRange::new(Some(2), Some(3), 1000);
    for line in ["one", "two", "three", "four"] {
        if !r.offer(line) {
            break;
        }
    }
    assert_eq!(r.finish(), "two\nthree\n");

    let mut r2 = LineRange::new(Some(5), None, 1000);
    for line in ["one", "two"] {
        if !r2.offer(line) {
            break;
        }
    }
    assert_eq!(r2.finish(), "(no content in lines 5..=EOF)");

    let mut r3 = LineRange::new(None, Some(10), 8);
    for line in ["abcd", "efgh", "ijkl"] {
        if !r3.offer(line) {
            break;
        }
    }
    assert_eq!(r3.finish(), "abcd\nefgh\n[truncated: output exceeded 8 bytes at line 2]");
}

#[test]
fn patching_and_listing() {
    assert_eq!(patch_first("a b a", "a", "c").as_deref(), Some("c b a"));
    assert_eq!(patch_first("abc", "x", "y"), None);
    let entries = vec![
        ("zeta.txt".to_string(), false),
        ("sub".to_string(), true),
        ("a.txt".to_string(), false),
    ];
    assert_eq!(listing_text(&entries), "a.txt\nsub/\nzeta.txt");
}

#[test]
fn project_summary_reports_markers() {
    let markers = vec!["Cargo.toml".to_string(), "Makefile".to_string()];
    let cargo = "[package]\nname = \"demo\"\nversion = \"0.1.0\"\nedition = \"2021\"\n";
    let dirs = vec!["src".to_string(), ".git".to_string(), "target".to_string(), "docs".to_string()];
    let entries = vec!["src/main.rs".to_string()];
    let s = project_summary("demo", true, &markers, Some(cargo), None, &dirs, &entries);
    assert_eq!(
        s,
        "Project: demo\nVCS: git\nLanguages: Rust\nBuild system: cargo, make\n  name = \"demo\"\n  version = \"0.1.0\"\nDirectories: docs, src\nEntry points: src/main.rs\n"
    );
    let pkg = "{\"name\": \"web\", \"version\": \"2.0.0\"}";
    let s2 = project_summary("web", false, &["package.json".to_string()], None, Some(pkg), &[], &[]);
    assert_eq!(
        s2,
        "Project: web\nLanguages: JavaScript/TypeScript\nBuild system: npm/pnpm\n  name: web\n  version: 2.0.0\n"
    );
    let s3 = project_summary("x", false, &[], None, Some("{not json"), &[], &[]);
    assert_eq!(s3, "Project: x\n");
}

fn run_tree(fs: &HashMap<String, Vec<(String, bool)>>, root: &str, name: &str, depth: usize) -> String {
    let mut walk = TreeWalk::new(root, name, depth);
    while let Some(dir) = walk.request() {
        walk.feed(fs.get(&dir).cloned());
    }
    walk.finish()
}

#[test]
fn file_tree_lists_dirs_first_and_skips_build_output() {
    let mut fs = HashMap::new();
    fs.insert(
        "/p".to_string(),
        vec![
            ("Cargo.toml".to_string(), false),
            ("src".to_string(), true),
            (".git".to_string(), true),
            ("target".to_string(), true),
            (".github".to_string(), true),
        ],
    );
    fs.insert("/p/src".to_string(), vec![("main.rs".to_string(), false), ("lib.rs".to_string(), false)]);
    fs.insert("/p/target".to_string(), vec![("debug".to_string(), true)]);
    fs.insert("/p/.github".to_string(), vec![]);
    let tree = run_tree(&fs, "/p", "p", 3);
    assert_eq!(tree, "p/\n  .github/\n  src/\n    lib.rs\n    main.rs\n  Cargo.toml\n");
    assert_eq!(run_tree(&fs, "/p", "p", 1), "p/\n  .github/\n  src/\n  Cargo.toml\n");
    assert_eq!(run_tree(&fs, "/p", "p", 0), "p/\n");
    assert_eq!(run_tree(&fs, "/missing", "missing", 3), "missing/\n");
    assert!(tree_skips_dir("node_modules"));
    assert!(tree_skips_dir("target"));
    assert!(!tree_skips_dir("src"));
    let (d, f) = order_tree_entries(&[
        ("b".to_string(), false),
        ("a".to_string(), true),
        (".x".to_string(), false),
        ("node_modules".to_string(), true),
        ("target".to_string(), false),
    ]);
    assert_eq!(d, vec!["a".to_string()]);
    // Only directories are left out by name: a file called `target` stays.
    assert_eq!(f, vec!["b".to_string(), "target".to_string()]);
}

#[test]
fn tool_list_depends_on_search_setup() {
    let without = tool_names(false);
    let with = tool_names(true);
    assert!(!without.contains(&"web_search".to_string()));
    assert!(with.contains(&"web_search".to_string()));
    assert!(with.contains(&"read_url".to_string()));
    assert!(without.contains(&"fs_read".to_string()));
    assert_eq!(with.len(), without.len() + 2);
}

#[test]
fn file_tree_stops_at_the_entry_limit() {
    let mut fs = HashMap::new();
    let files: Vec<(String, bool)> = (0..600).map(|i| (format!("f{:03}", i), false)).collect();
    fs.insert("/big".to_string(), files);
    let tree = run_tree(&fs, "/big", "big", 2);
    assert_eq!(tree.lines().filter(|l| l.starts_with("  f")).count(), 500);
    assert!(tree.ends_with("  f499\n  ... (truncated)\n[truncated at 500 entries]\n"));
}

/// The refusal that the file tools give for `raw` (resolved from `/tmp`)
/// when the home directory is `home`.
fn refusal_for(raw: &str, home: &str) -> Result<(), String> {
    let path = resolve(raw, "/tmp", Some(home)).ok().expect("resolvable path");
    reject_if_sensitive(&path, &path, &blocked_paths(home))
}

/// The check that `fs_read`, `fs_list`, `fs_mkdir` and `fs_delete` make
/// before touching a path, on the paths their tool tests use.
#[test]
fn resolved_ssh_paths_are_protected() {
    let home = "/Users/ada";
    for raw in ["/Users/ada/.ssh/id_rsa", "/Users/ada/.ssh", "/Users/ada/.ssh/evil", "~/.ssh/id_rsa"] {
        let err = refusal_for(raw, home).expect_err("~/.ssh paths are refused");
        assert!(err.contains("protected secret location"), "unexpected error: {}", err);
    }
}

#[test]
fn large_reads_are_truncated_with_a_note() {
    let cap = budget_for("fs_read", "default");
    assert_eq!(cap, 8000);
    // fs_read reads at most cap + 512 bytes of a file holding cap + 2000.
    let huge = "x".repeat(cap + 2000);
    let read = &huge[..cap + 512];
    let result = truncate_tool_result(read, cap, Some("/tmp/kaku_tool_1_2.txt")).expect("over the cap");
    assert!(result.contains("[truncated:"), "expected truncation note in result");
    assert!(result.len() > cap && result.len() < cap + 500);
    assert!(result.starts_with(&"x".repeat(cap)));
}

#[test]
fn listing_marks_directories() {
    let entries = vec![("a.txt".to_string(), false), ("sub".to_string(), true)];
    let result = listing_text(&entries);
    assert!(result.contains("a.txt"), "expected a.txt in listing: {}", result);
    assert!(result.contains("sub/"), "expected sub/ in listing: {}", result);
}

#[test]
fn canceled_shell_run_is_reported() {
    let result = shell_exec_report("", "", false, 0, 0, true, false, None);
    assert!(result.contains("[canceled by user"), "expected canceled marker, got: {}", result);
}

#[test]
fn overflowed_and_canceled_shell_run_is_reported() {
    let cap = shell_streaming_cap(budget_for("shell_exec", "default"));
    let shown = "x\n".repeat(cap / 2);
    let result = shell_exec_report(&shown, "", true, cap, 5_000_000, true, false, None);
    assert!(result.contains("[truncated: first ~"), "expected overflow note, got: {}", result);
    assert!(result.contains("[canceled by user"), "expected canceled marker, got: {}", result);
}

#[test]
fn grep_report_lists_matches() {
    let lines = vec!["data.txt:1:hello world".to_string()];
    let result = grep_search_report(&lines, false, false, false, "", 100).ok().expect("a report");
    assert!(result.contains("hello world"), "expected match in result: {}", result);
}

#[test]
fn file_tree_depth_defaults_and_clamps() {
    assert_eq!(file_tree_depth(None), 3);
    assert_eq!(file_tree_depth(Some(1)), 1);
    assert_eq!(file_tree_depth(Some(6)), 6);
    assert_eq!(file_tree_depth(Some(40)), 6);
}

#[test]
fn file_tree_walk_asks_a_bounded_number_of_times() {
    // Every directory holds three sub-directories, however deep.
    let mut walk = TreeWalk::new("/r", "r", 6);
    let mut requests = 0usize;
    while let Some(dir) = walk.request() {
        requests += 1;
        assert!(requests <= 501, "too many requests");
        let subdirs = vec![("a".to_string(), true), ("b".to_string(), true), ("c".to_string(), true)];
        assert!(dir.starts_with("/r"));
        walk.feed(Some(subdirs));
    }
    let tree = walk.finish();
    assert!(tree.ends_with("[truncated at 500 entries]\n"));
}

#[test]
fn wait_stays_cancelable_after_overflow() {
    let mut w = WaitWatch::new();
    assert_eq!(w.step(false, false, Some((10, 100)), false), WaitAction::Sleep);
    assert!(!w.overflowed);
    assert_eq!(w.step(false, false, Some((5_000_000, 100)), false), WaitAction::Sleep);
    assert!(w.overflowed);
    assert_eq!(w.step(true, false, Some((5_000_000, 100)), false), WaitAction::Kill);
    assert!(w.canceled && !w.timed_out);

    let mut t = WaitWatch::new();
    assert_eq!(t.step(false, true, None, false), WaitAction::Kill);
    assert!(t.timed_out && !t.canceled);
    let mut e = WaitWatch::new();
    assert_eq!(e.step(false, false, None, true), WaitAction::Finish);
    assert_eq!(e, WaitWatch::new());
}

#[test]
fn file_tools_report_their_changes() {
    assert_eq!(file_change_report(FileChange::Written(12), "/tmp/a"), "Written 12 bytes to /tmp/a");
    assert_eq!(file_change_report(FileChange::Patched, "/tmp/a"), "Patched /tmp/a (replaced 1 occurrence)");
    assert_eq!(file_change_report(FileChange::Created, "/tmp/d"), "Created /tmp/d");
    assert_eq!(file_change_report(FileChange::Deleted, "/tmp/d"), "Deleted /tmp/d");
}

/// The tree of a small project with version control and build output:
/// source entries are listed, `.git/` and `target/` are not.
#[test]
fn file_tree_of_a_project_leaves_out_git_and_target() {
    let mut fs = HashMap::new();
    let entries = |v: &[(&str, bool)]| v.iter().map(|(n, d)| (n.to_string(), *d)).collect::<Vec<_>>();
    fs.insert(
        "/demo".to_string(),
        entries(&[
            ("Cargo.toml", false),
            ("Makefile", false),
            ("README.md", false),
            (".gitignore", false),
            ("src", true),
            ("tests", true),
            ("docs", true),
            (".git", true),
            ("target", true),
        ]),
    );
    fs.insert("/demo/src".to_string(), entries(&[("main.rs", false), ("lib.rs", false), ("utils.rs", false)]));
    fs.insert("/demo/tests".to_string(), entries(&[("integration.rs", false)]));
    fs.insert("/demo/docs".to_string(), entries(&[("API.md", false)]));
    fs.insert("/demo/target".to_string(), entries(&[("debug", true)]));
    let tree = run_tree(&fs, "/demo", "demo", 2);
    for want in ["src/", "main.rs", "lib.rs", "Cargo.toml"] {
        assert!(tree.contains(want), "tree should list {}: {}", want, tree);
    }
    assert!(!tree.contains(".git/"), "tree should not list .git/: {}", tree);
    assert!(!tree.contains("target/"), "tree should not list target/: {}", tree);
    assert_eq!(
        tree,
        "demo/\n  docs/\n    API.md\n  src/\n    lib.rs\n    main.rs\n    utils.rs\n  tests/\n    integration.rs\n  Cargo.toml\n  Makefile\n  README.md\n"
    );
}

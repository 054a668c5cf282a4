use kaku::soul::{
    cap_content, identity_files_from_reply, is_stub_only, join_identity, json_candidate,
    kaku_config_dir, legacy_memory_path, memory_path, migration_plan, onboarding_flag_path,
    onboarding_prompt, schema_version_from, soul_path, version_file_content, MigrationPlan,
    ONBOARDING_PROMPT_HEAD, SKILL_STUB, SOUL_STUB, STYLE_STUB,
};

#[test]
fn config_and_soul_paths() {
    assert_eq!(kaku_config_dir(Some("/x/cfg"), Some("/home/a")), "/x/cfg/kaku");
    assert_eq!(kaku_config_dir(None, Some("/home/a")), "/home/a/.config/kaku");
    assert_eq!(kaku_config_dir(None, None), "./.config/kaku");
    assert_eq!(
        onboarding_flag_path(None, Some("/home/a")),
        "/home/a/.config/kaku/ai_chat_onboarded"
    );
    assert_eq!(soul_path("/c/kaku"), "/c/kaku/soul/SOUL.md");
    assert_eq!(memory_path("/c/kaku/"), "/c/kaku/soul/MEMORY.md");
    assert_eq!(legacy_memory_path("/c/kaku"), "/c/kaku/ai_chat_memory.md");
}

#[test]
fn schema_versions_and_migrations() {
    assert_eq!(schema_version_from(Some(" 1\n")), 1);
    assert_eq!(schema_version_from(Some("junk")), 0);
    assert_eq!(schema_version_from(None), 0);
    assert_eq!(migration_plan(1, true, false), None);
    assert_eq!(
        migration_plan(0, true, false),
        Some(MigrationPlan { move_legacy_memory: true, write_stubs: true })
    );
    assert_eq!(
        migration_plan(0, true, true),
        Some(MigrationPlan { move_legacy_memory: false, write_stubs: true })
    );
    assert_eq!(version_file_content(1), "1\n");
}

#[test]
fn stubs_are_placeholders_and_load_as_nothing() {
    for stub in [SOUL_STUB, STYLE_STUB, SKILL_STUB] {
        assert!(is_stub_only(stub), "stub should be placeholder-only: {}", stub);
        assert_eq!(cap_content(stub, 2048), "");
    }
    let identity = join_identity(
        &cap_content(SOUL_STUB, 2048),
        &cap_content(STYLE_STUB, 2048),
        &cap_content(SKILL_STUB, 2048),
    );
    assert_eq!(identity, "");
    assert!(!is_stub_only("# Me\nI write Rust.\n"));
    assert!(is_stub_only("<!-- a\nstill a comment\n-->\n# H\n"));
    assert!(!is_stub_only("<!-- a -->\ntext\n"));
    assert!(is_stub_only(""));
}

#[test]
fn capping_keeps_whole_lines() {
    assert_eq!(cap_content("hello\n\n", 100), "hello");
    assert_eq!(cap_content("aaaa\nbbbb\ncccc\n", 10), "aaaa\nbbbb");
    assert_eq!(cap_content("toolongline\nx", 5), "");
    assert_eq!(join_identity("a", "", "c"), "a\n\nc");
}

#[test]
fn onboarding_prompt_embeds_the_reply() {
    let p = onboarding_prompt("I'm Ada");
    assert!(p.starts_with(ONBOARDING_PROMPT_HEAD));
    assert!(p.contains("Their answer:\nI'm Ada\n\nExtract the content into three files."));
}

#[test]
fn bootstrap_reply_parsing() {
    let files = identity_files_from_reply(" {\"soul\": \" Ada, a developer \", \"style\": \"\", \"skill\": 3} ")
        .expect("reply is JSON");
    assert_eq!(files.soul.as_deref(), Some("Ada, a developer\n"));
    assert_eq!(files.style, None);
    assert_eq!(files.skill, None);

    let fenced = "Here you go:\n```json\n{\"soul\": \"S\",\n \"skill\": \"K\"}\n```";
    assert_eq!(json_candidate(fenced), "{\"soul\": \"S\",\n \"skill\": \"K\"}\n```");
    assert!(identity_files_from_reply(fenced).is_none());

    let bare = "Sure:\n{\"soul\": \"S\", \"skill\": \"K\"}";
    let f2 = identity_files_from_reply(bare).expect("object on its own line");
    assert_eq!(f2.soul.as_deref(), Some("S\n"));
    assert_eq!(f2.skill.as_deref(), Some("K\n"));

    assert!(identity_files_from_reply("no json here").is_none());
}

use kaku::session::{
    closed_window_file, closed_window_snapshot_usable, config_dir_file, focused_window_id, focused_window_index, is_window_empty, is_window_trivial,
    restored_active_tab, save_closed_window_snapshot, save_session_snapshot,
    session_file, session_snapshot_usable, window_shape, windows_for_session_snapshot, LiveTab, LiveWindow,
    SavedPaneNode, SessionState, WindowShape, SNAPSHOT_VERSION,
};

#[test]
fn pristine_state_machine() {
    let mut state = SessionState::new();
    assert!(!state.is_dirty());

    // mark_dirty outside a restore should flip the bit.
    state.mark_dirty();
    assert!(state.is_dirty());

    // Inside a restore, mark_dirty is a no-op (the previously-set bit
    // remains), and ending the outermost restore forces dirty back to false.
    {
        state.begin_restore();
        state.mark_dirty();
        assert!(state.is_dirty());
        state.end_restore();
    }
    assert!(!state.is_dirty());
}

#[test]
fn nested_restoring_guards_compose() {
    let mut state = SessionState::new();

    state.begin_restore();
    {
        state.begin_restore();
        // Both restores are active: depth == 2.
        assert_eq!(state.restoring_depth(), 2);
        state.end_restore();
    }
    // Inner ended; depth == 1 and dirty still untouched.
    assert_eq!(state.restoring_depth(), 1);
    // Even if something marks dirty here, it must be ignored: depth > 0.
    state.mark_dirty();
    assert!(!state.is_dirty());
    state.end_restore();
    // Outer ended; depth == 0 and dirty cleared by the outer end.
    assert_eq!(state.restoring_depth(), 0);
    assert!(!state.is_dirty());
}

#[test]
fn logically_closed_set_round_trips() {
    let mut state = SessionState::new();
    let id: usize = 999_999;
    state.forget_logically_closed(id);
    assert!(!state.is_window_logically_closed(id));
    state.mark_window_logically_closed(id);
    assert!(state.is_window_logically_closed(id));
    state.forget_logically_closed(id);
    assert!(!state.is_window_logically_closed(id));
}

#[test]
fn inner_restore_end_keeps_dirty_from_before() {
    let mut state = SessionState::new();
    state.mark_dirty();
    state.begin_restore();
    state.begin_restore();
    state.end_restore();
    assert!(state.is_dirty());
    state.end_restore();
    assert!(!state.is_dirty());
}

fn shape(tab_count: usize, first: Option<bool>, leaves: usize) -> WindowShape {
    WindowShape { tab_count, first_tab_is_leaf: first, first_tab_leaves: leaves }
}

#[test]
fn session_save_needs_a_change() {
    let state = SessionState::new();
    assert!(!save_session_snapshot(&state, &[shape(3, Some(false), 2)]));
}

#[test]
fn session_save_skips_a_single_trivial_window() {
    let mut state = SessionState::new();
    state.mark_dirty();
    assert!(!save_session_snapshot(&state, &[]));
    assert!(!save_session_snapshot(&state, &[shape(1, Some(true), 1)]));
    assert!(save_session_snapshot(&state, &[shape(2, Some(true), 1)]));
    assert!(save_session_snapshot(&state, &[shape(1, Some(false), 3)]));
    assert!(save_session_snapshot(
        &state,
        &[shape(1, Some(true), 1), shape(1, Some(true), 1)]
    ));
}

#[test]
fn session_snapshot_windows_skip_logically_closed_and_sort() {
    let mut state = SessionState::new();
    assert_eq!(windows_for_session_snapshot(&state, &[3, 1]), None);
    state.mark_dirty();
    state.mark_window_logically_closed(2);
    assert_eq!(
        windows_for_session_snapshot(&state, &[5, 2, 1, 4]),
        Some(vec![1, 4, 5])
    );
}

#[test]
fn closed_window_snapshot_only_for_nontrivial_windows() {
    let trivial = Some(LiveWindow {
        tab_count: 1,
        first_tab: Some(LiveTab { pane_count: 1, scrollback_rows: 24, viewport_rows: 24 }),
    });
    let scrolled = Some(LiveWindow {
        tab_count: 1,
        first_tab: Some(LiveTab { pane_count: 1, scrollback_rows: 25, viewport_rows: 24 }),
    });
    let split = Some(LiveWindow {
        tab_count: 1,
        first_tab: Some(LiveTab { pane_count: 2, scrollback_rows: 0, viewport_rows: 24 }),
    });
    let tabs = Some(LiveWindow { tab_count: 2, first_tab: None });
    assert!(is_window_trivial(&None));
    assert!(is_window_trivial(&trivial));
    assert!(is_window_empty(&trivial));
    assert!(!save_closed_window_snapshot(&None));
    assert!(!save_closed_window_snapshot(&trivial));
    assert!(save_closed_window_snapshot(&scrolled));
    assert!(save_closed_window_snapshot(&split));
    assert!(save_closed_window_snapshot(&tabs));
}

#[test]
fn window_shape_counts_leaves_of_first_tab() {
    let split: SavedPaneNode<u8, &str> = SavedPaneNode::Split {
        left: Box::new(SavedPaneNode::Leaf("a")),
        right: Box::new(SavedPaneNode::Split {
            left: Box::new(SavedPaneNode::Leaf("b")),
            right: Box::new(SavedPaneNode::Leaf("c")),
            node: 1,
        }),
        node: 0,
    };
    let s = window_shape(&[split, SavedPaneNode::Leaf("d")]);
    assert_eq!(s.tab_count, 2);
    assert_eq!(s.first_tab_is_leaf, Some(false));
    assert_eq!(s.first_tab_leaves, 3);
    let e = window_shape::<u8, &str>(&[]);
    assert_eq!(e.tab_count, 0);
    assert_eq!(e.first_tab_is_leaf, None);
}

#[test]
fn snapshot_versions_and_active_tab() {
    assert!(session_snapshot_usable(SNAPSHOT_VERSION, 1));
    assert!(!session_snapshot_usable(SNAPSHOT_VERSION, 0));
    assert!(!session_snapshot_usable(2, 1));
    assert!(closed_window_snapshot_usable(SNAPSHOT_VERSION));
    assert!(!closed_window_snapshot_usable(2));
    assert_eq!(restored_active_tab(5, 3), Some(2));
    assert_eq!(restored_active_tab(1, 3), Some(1));
    assert_eq!(restored_active_tab(0, 0), None);
    assert_eq!(focused_window_index(&[false, true, true]), 1);
    assert_eq!(focused_window_index(&[false, false]), 0);
}

/// The loader's decision on a session written by a newer build.
#[test]
fn newer_snapshot_versions_are_not_used() {
    // A session written by a newer build, holding one window.
    assert!(!session_snapshot_usable(SNAPSHOT_VERSION + 1, 1));
}

/// The loader's decision on version-2 snapshots (a version-2 envelope
/// also lacks the `windows` list, so it does not even parse).
#[test]
fn version_two_snapshots_are_not_used() {
    assert!(!session_snapshot_usable(2, 1));
    assert!(!closed_window_snapshot_usable(2));
}

#[test]
fn focused_window_falls_back_to_the_highest_id() {
    assert_eq!(focused_window_id(Some(4), &[1, 9]), Some(4));
    assert_eq!(focused_window_id(None, &[3, 9, 2]), Some(9));
    assert_eq!(focused_window_id(None, &[]), None);
}

#[test]
fn snapshot_files_live_in_the_config_directory() {
    assert_eq!(session_file(Some("/etc/kaku"), "/Users/ada"), "/etc/kaku/last_session.json");
    assert_eq!(session_file(None, "/Users/ada"), "/Users/ada/.config/kaku/last_session.json");
    assert_eq!(closed_window_file(None, "/Users/ada/"), "/Users/ada/.config/kaku/last_closed_window.json");
    assert_eq!(config_dir_file(Some("/c/"), "/h", "x.json"), "/c/x.json");
}

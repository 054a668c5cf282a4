use kaku::input::{
    checked_selection_text, extract_selection_text, RenderedRow,
    handle_key, mouse_event, picker_action, worth_copying, InputEdit, InputLine, Key, KeyAction,
    KeyContext, KeyResponse, ModelFetch, Mods, MouseContext, MouseInput, PickerAction,
    SelectionState,
};

fn ctx() -> KeyContext {
    KeyContext {
        pending_approval: false,
        is_streaming: false,
        queue_empty: true,
        slash_options: false,
        slash_submits_immediately: false,
        picker_options: false,
        picker_exact_match: false,
        input_blank: false,
        scroll_offset: 0,
        total_lines: 100,
        area_height: 20,
        model_fetch: ModelFetch::Loaded,
        model_count: 3,
        model_index: 0,
    }
}

fn chat_action(key: Key, mods: Mods, c: &KeyContext) -> KeyAction {
    match handle_key(key, mods, c, false, None) {
        KeyResponse::Chat(o) => o.action,
        KeyResponse::Picker(p) => panic!("unexpected picker action {:?}", p),
    }
}

#[test]
fn editing_the_input_line() {
    let mut line = InputLine::new("hello world", 100);
    assert_eq!(line.cursor(), 11);
    line.apply(InputEdit::DeleteWordBack);
    assert_eq!(line.text(), "hello ");
    assert_eq!(line.cursor(), 6);
    line.apply(InputEdit::Insert('x'));
    assert_eq!(line.text(), "hello x");
    line.apply(InputEdit::Home);
    assert_eq!(line.cursor(), 0);
    line.apply(InputEdit::Backspace);
    assert_eq!(line.text(), "hello x");
    line.apply(InputEdit::WordRight);
    assert_eq!(line.cursor(), 5);
    line.apply(InputEdit::Right);
    line.apply(InputEdit::Insert('é'));
    assert_eq!(line.text(), "hello éx");
    line.apply(InputEdit::End);
    line.apply(InputEdit::WordLeft);
    assert_eq!(line.cursor(), 6);
    assert!(line.wants_undo_snapshot(InputEdit::ClearLine));
    assert!(!line.wants_undo_snapshot(InputEdit::Backspace));
    line.apply(InputEdit::ClearLine);
    assert_eq!(line.text(), "");
    assert_eq!(line.cursor(), 0);
    assert_eq!(line.picker_index(), 0);
}

#[test]
fn insert_then_backspace_restores_the_line() {
    let mut line = InputLine::new("abc", 1);
    line.apply(InputEdit::Insert('Z'));
    line.apply(InputEdit::Backspace);
    assert_eq!(line.text(), "abc");
    assert_eq!(line.cursor(), 1);
}

#[test]
fn keys_in_the_chat() {
    let c = ctx();
    assert_eq!(chat_action(Key::Enter, Mods::Bare, &c), KeyAction::Submit);
    assert_eq!(chat_action(Key::Escape, Mods::Bare, &c), KeyAction::Quit);
    assert_eq!(chat_action(Key::Char('a'), Mods::Bare, &c), KeyAction::Edit(InputEdit::Insert('a')));
    assert_eq!(chat_action(Key::Char('\u{7}'), Mods::Bare, &c), KeyAction::Nothing);
    assert_eq!(chat_action(Key::Backspace, Mods::Alt, &c), KeyAction::Edit(InputEdit::DeleteWordBack));
    assert_eq!(chat_action(Key::Char('z'), Mods::Super, &c), KeyAction::Undo);
    assert_eq!(chat_action(Key::Up, Mods::Bare, &c), KeyAction::ScrollTo(3));
    assert_eq!(chat_action(Key::Tab, Mods::Shift, &c), KeyAction::NextModel);

    let mut streaming = ctx();
    streaming.is_streaming = true;
    assert_eq!(chat_action(Key::Escape, Mods::Bare, &streaming), KeyAction::CancelStream);
    assert_eq!(chat_action(Key::Enter, Mods::Bare, &streaming), KeyAction::InterruptAndSubmit);

    let mut approval = ctx();
    approval.pending_approval = true;
    assert_eq!(chat_action(Key::Enter, Mods::Bare, &approval), KeyAction::Approve);
    assert_eq!(chat_action(Key::Escape, Mods::Bare, &approval), KeyAction::Reject);
    assert_eq!(chat_action(Key::Char('y'), Mods::Bare, &approval), KeyAction::KeepApproval);

    let mut scrolled = ctx();
    scrolled.scroll_offset = 79;
    assert_eq!(chat_action(Key::PageUp, Mods::Bare, &scrolled), KeyAction::ScrollTo(80));
}

#[test]
fn copy_keeps_the_selection() {
    let c = ctx();
    match handle_key(Key::Char('c'), Mods::Super, &c, true, None) {
        KeyResponse::Chat(o) => {
            assert!(!o.clear_selection);
            assert_eq!(o.action, KeyAction::Copy);
        }
        _ => panic!("expected a chat response"),
    }
    match handle_key(Key::Char('x'), Mods::Bare, &c, true, None) {
        KeyResponse::Chat(o) => assert!(o.clear_selection),
        _ => panic!("expected a chat response"),
    }
}

#[test]
fn resume_picker_keys() {
    assert_eq!(picker_action(Key::Escape, 0, 3), PickerAction::Close);
    assert_eq!(picker_action(Key::Down, 1, 3), PickerAction::MoveTo(2));
    assert_eq!(picker_action(Key::Down, 2, 3), PickerAction::Nothing);
    assert_eq!(picker_action(Key::Up, 0, 3), PickerAction::Nothing);
    assert_eq!(picker_action(Key::Enter, 2, 3), PickerAction::Load(2));
    assert_eq!(
        handle_key(Key::Up, Mods::Bare, &ctx(), false, Some((1, 3))),
        KeyResponse::Picker(PickerAction::MoveTo(0))
    );
}

#[test]
fn mouse_selects_by_dragging_and_copies_on_release() {
    let m = MouseContext {
        rows: 30,
        input_rows: 3,
        total_lines: 10,
        area_height: 20,
        scroll_offset: 0,
        is_streaming: false,
    };
    let idle = SelectionState { left_was_pressed: false, selection: None, selecting: false, drag_origin: None };
    let press = mouse_event(idle, MouseInput { x: 4, y: 2, wheel: None, left: true }, &m);
    assert_eq!(press.state.drag_origin, Some((1, 4)));
    let drag = mouse_event(press.state, MouseInput { x: 9, y: 3, wheel: None, left: true }, &m);
    assert_eq!(drag.state.selection, Some((1, 4, 2, 9)));
    assert!(drag.state.selecting);
    let release = mouse_event(drag.state, MouseInput { x: 9, y: 3, wheel: None, left: false }, &m);
    assert!(release.copy_selection);
    assert!(!release.state.selecting);
    let wheel = mouse_event(idle, MouseInput { x: 0, y: 0, wheel: Some(false), left: false }, &m);
    assert_eq!(wheel.scroll_offset, 0);
}

#[test]
fn selections_worth_copying() {
    assert!(worth_copying("hello"));
    assert!(worth_copying("a b"));
    assert!(!worth_copying("ab"));
    assert!(!worth_copying("  x "));
}

fn rows() -> Vec<RenderedRow> {
    vec![
        RenderedRow { text: "  You".to_string(), prefix: "  ".to_string() },
        RenderedRow { text: "  hello world".to_string(), prefix: "  ".to_string() },
        RenderedRow { text: String::new(), prefix: String::new() },
    ]
}

#[test]
fn selected_text_strips_the_drawn_indent() {
    let r = rows();
    assert_eq!(extract_selection_text(&r, Some((1, 3, 1, 8))).as_deref(), Some("hello"));
    assert_eq!(extract_selection_text(&r, Some((1, 8, 1, 3))).as_deref(), Some("hello"));
    assert_eq!(extract_selection_text(&r, Some((0, 1, 1, 6))).as_deref(), Some("You\nhel"));
    assert_eq!(extract_selection_text(&r, Some((1, 1, 9, 3))).as_deref(), Some("hello world\n"));
    assert_eq!(extract_selection_text(&r, Some((5, 0, 6, 0))), None);
    assert_eq!(extract_selection_text(&r, None), None);
    assert_eq!(checked_selection_text(&r, Some((1, 3, 1, 8))), Some(Some("hello".to_string())));
}

#[test]
fn wide_characters_are_selected_whole() {
    let r = vec![RenderedRow { text: "  你好ab".to_string(), prefix: "  ".to_string() }];
    // Columns 1..6 of the content: the two wide characters.
    assert_eq!(extract_selection_text(&r, Some((0, 3, 0, 7))).as_deref(), Some("你好"));
}

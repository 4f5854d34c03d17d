use easymark::{split_chars, ImeEvent, ImeManager, ImeText};

fn create_test_ime_manager() -> ImeManager {
    ImeManager::default()
}

fn create_test_ime_text() -> ImeText {
    ImeText::default()
}

#[test]
fn test_ime_text_default() {
    let ime_text = create_test_ime_text();
    assert_eq!(ime_text.text, "");
    assert_eq!(ime_text.ime_string, "");
    assert_eq!(ime_text.cursor_index, 0);
    assert!(!ime_text.is_focus);
}

#[test]
fn test_ime_manager_default() {
    let ime_manager = create_test_ime_manager();
    assert_eq!(ime_manager.count, 0);
    assert!(ime_manager.ime_texts.is_empty());
}

#[test]
fn test_ime_text_listen_preedit() {
    let mut ime_text = create_test_ime_text();
    ime_text.is_focus = true;
    let preedit_event = ImeEvent::Preedit {
        value: "preedit".to_string(),
        cursor: Some((0, 1)),
    };
    ime_text.listen_ime_event(&preedit_event);
    assert_eq!(ime_text.ime_string, "preedit");
    assert_eq!(ime_text.ime_string.chars().count(), ime_text.ime_string_index);
}

#[test]
fn test_ime_text_listen_commit_empty_text() {
    let mut ime_text = create_test_ime_text();
    ime_text.is_focus = true;
    let commit_event = ImeEvent::Commit { value: "commit".to_string() };
    ime_text.listen_ime_event(&commit_event);
    assert_eq!(ime_text.text, "commit");
    assert!(ime_text.is_ime_input);
    assert_eq!(ime_text.ime_string, "");
}

#[test]
fn test_ime_text_listen_commit_insert_middle() {
    let mut ime_text = create_test_ime_text();
    ime_text.is_focus = true;
    ime_text.text = "hello world".to_string();
    ime_text.cursor_index = 6;
    let commit_event = ImeEvent::Commit { value: "beautiful ".to_string() };
    ime_text.listen_ime_event(&commit_event);
    assert_eq!(ime_text.text, "hello beautiful world");
    assert!(ime_text.is_ime_input);
}

#[test]
fn test_ime_text_listen_commit_append_end() {
    let mut ime_text = create_test_ime_text();
    ime_text.is_focus = true;
    ime_text.text = "hello".to_string();
    ime_text.cursor_index = ime_text.text.chars().count();
    let commit_event = ImeEvent::Commit { value: " world".to_string() };
    ime_text.listen_ime_event(&commit_event);
    assert_eq!(ime_text.text, "hello world");
    assert!(ime_text.is_ime_input);
}

#[test]
fn test_ime_manager_add_text() {
    let mut ime_manager = create_test_ime_manager();
    ime_manager.add();
    assert_eq!(ime_manager.ime_texts.len(), 1);
}

#[test]
fn test_ime_manager_listen_event_propagates() {
    let mut ime_manager = create_test_ime_manager();
    ime_manager.add();
    ime_manager.ime_texts[0].is_focus = true;
    let preedit_event = ImeEvent::Preedit {
        value: "test".to_string(),
        cursor: Some((0, 1)),
    };
    ime_manager.listen_ime_event(&preedit_event);
    assert_eq!(ime_manager.ime_texts[0].ime_string, "test");
}

#[test]
fn test_ime_text_enabled_disabled_events() {
    let mut ime_text = create_test_ime_text();
    ime_text.is_focus = true;
    ime_text.listen_ime_event(&ImeEvent::Enabled);
    assert!(ime_text.is_ime);
    ime_text.listen_ime_event(&ImeEvent::Disabled);
    assert!(!ime_text.is_ime);
}

#[test]
fn unfocused_field_ignores_events() {
    let mut ime_text = create_test_ime_text();
    ime_text.listen_ime_event(&ImeEvent::Commit { value: "x".to_string() });
    ime_text.listen_ime_event(&ImeEvent::Enabled);
    assert_eq!(ime_text.text, "");
    assert!(!ime_text.is_ime && !ime_text.is_ime_input);
}

#[test]
fn preedit_without_cursor_is_ignored() {
    let mut ime_text = create_test_ime_text();
    ime_text.is_focus = true;
    ime_text.listen_ime_event(&ImeEvent::Preedit { value: "x".to_string(), cursor: None });
    assert_eq!(ime_text.ime_string, "");
}

#[test]
fn empty_commit_keeps_cursor() {
    let mut ime_text = create_test_ime_text();
    ime_text.is_focus = true;
    ime_text.ime_string = "かな".to_string();
    ime_text.listen_ime_event(&ImeEvent::Commit { value: String::new() });
    assert!(!ime_text.is_cursor_move);
    assert!(ime_text.is_ime_input);
    assert_eq!(ime_text.ime_string, "");
}

#[test]
fn composed_text_splices_preedit_by_characters() {
    let mut ime_text = create_test_ime_text();
    ime_text.text = "日本語".to_string();
    ime_text.ime_string = "の".to_string();
    ime_text.cursor_index = 2;
    assert_eq!(ime_text.composed_text(), "日本の語");
    ime_text.cursor_index = 9;
    assert_eq!(ime_text.composed_text(), "日本語の");
}

#[test]
fn split_chars_cuts_by_characters() {
    assert_eq!(split_chars("añb c", 1, 3), ("a", "ñb", " c"));
    assert_eq!(split_chars("ab", 1, 7), ("a", "b", ""));
    assert_eq!(split_chars("ab", 5, 7), ("ab", "", ""));
}

use kumo::text_input::{EditKey, KeyAction, KeyCommand, KeyPress, TextInput};

fn input(text: &str) -> TextInput {
    let mut input = TextInput::new();
    input.set_text(text);
    input
}

#[test]
fn set_text_places_cursor_at_end() {
    let field = input("abc");
    assert_eq!(field.text(), "abc");
    assert_eq!(field.cursor_index(), 3);
    assert_eq!(field.selection(), None);

    let empty = input("");
    assert!(empty.is_empty());
    assert_eq!(empty.cursor_index(), 0);

    // A trailing offset inside a multi-byte character lands on its end.
    let wide = input("aé");
    assert_eq!(wide.cursor_index(), 3);
}

#[test]
fn select_clamps_to_text() {
    let mut field = input("hello");
    field.select(-5, 100);
    assert_eq!(field.selection(), Some((0, 5)));
    field.select(3, 3);
    assert_eq!(field.selection(), None);
    field.select(1, 3);
    assert_eq!(field.selection_text(), Some("el".to_string()));
    field.clear_selection();
    assert_eq!(field.selection_text(), None);
}

#[test]
fn deleting_selection_moves_cursor() {
    let mut field = input("hello");
    field.select(1, 3);
    assert!(field.delete_selection());
    assert_eq!(field.text(), "hlo");
    assert_eq!(field.cursor_index(), 1);
    assert!(!field.delete_selection());

    let mut field = input("hello");
    field.select(3, 5);
    field.delete_selection();
    assert_eq!(field.text(), "hel");
    assert_eq!(field.cursor_index(), 3);
}

#[test]
fn paste_replaces_selection_and_moves_cursor() {
    let mut field = input("hello");
    field.set_cursor(2, 0);
    field.paste("XY");
    assert_eq!(field.text(), "heXYllo");
    assert_eq!(field.cursor_index(), 4);

    field.select(0, 2);
    field.paste("é");
    assert_eq!(field.text(), "éXYllo");
    assert_eq!(field.cursor_index(), 2);
    assert_eq!(field.selection(), None);
}

#[test]
fn delete_surrounding_text_around_cursor() {
    let mut field = input("0123456789");
    field.set_cursor(5, 0);
    field.delete_surrounding_text(2, 3);
    assert_eq!(field.text(), "01289");
    assert_eq!(field.cursor_index(), 3);

    let mut field = input("abc");
    field.set_cursor(1, 0);
    field.delete_surrounding_text(10, 10);
    assert_eq!(field.text(), "");
    assert_eq!(field.cursor_index(), 0);
}

#[test]
fn paste_then_delete_restores_text() {
    let mut field = input("hello");
    field.set_cursor(2, 0);
    field.paste("wörld");
    field.delete_surrounding_text("wörld".len() as u32, 0);
    assert_eq!(field.text(), "hello");
    assert_eq!(field.cursor_index(), 2);
}

#[test]
fn focus_selects_all_and_hides_suggestion() {
    let mut field = input("abc");
    field.set_autocomplete("def".to_string());
    assert_eq!(field.autocomplete(), "");
    field.set_focus(true);
    assert!(field.is_focused());
    assert_eq!(field.selection(), Some((0, 3)));
    assert_eq!(field.autocomplete(), "");
    field.clear_selection();
    assert_eq!(field.autocomplete(), "def");
    field.set_focus(false);
    assert_eq!(field.selection(), None);
    assert_eq!(field.autocomplete(), "");
}

#[test]
fn collapsing_selection() {
    let mut field = input("hello");
    field.select(1, 3);
    assert!(field.collapse_selection_left());
    assert_eq!(field.cursor_index(), 1);
    assert!(!field.collapse_selection_left());

    field.select(1, 5);
    assert!(field.collapse_selection_right());
    assert_eq!(field.cursor_index(), 5);
    field.select(0, 2);
    assert!(field.collapse_selection_right());
    assert_eq!(field.cursor_index(), 2);
}

#[test]
fn tab_completion_takes_next_segment() {
    let mut field = input("https");
    field.set_autocomplete("://example.org/path".to_string());
    assert!(field.tab_complete());
    assert_eq!(field.text(), "https://");

    let mut field = input("https://exa");
    field.set_autocomplete("mple.org/path/x".to_string());
    assert!(field.tab_complete());
    assert_eq!(field.text(), "https://example.org/");

    let mut field = input("https://example.org/pa");
    field.set_autocomplete("th".to_string());
    assert!(field.tab_complete());
    assert_eq!(field.text(), "https://example.org/path");
}

#[test]
fn tab_without_suggestion_adds_slash_at_end() {
    let mut field = input("example.org");
    assert!(field.tab_complete());
    assert_eq!(field.text(), "example.org/");

    field.set_cursor(3, 0);
    assert!(!field.tab_complete());
    assert_eq!(field.text(), "example.org/");

    let mut field = input("exa");
    field.set_autocomplete("mple".to_string());
    field.set_cursor(1, 0);
    assert!(!field.tab_complete());
    assert_eq!(field.text(), "exa");
}

#[test]
fn completion_chunk_is_prefix_of_suggestion() {
    for suggestion in ["://a.org/b", "mple.org/path", "plain", "&x", "//"] {
        let mut field = input("x");
        field.set_autocomplete(suggestion.to_string());
        field.tab_complete();
        let added = &field.text()[1..];
        assert!(suggestion.starts_with(added));
    }
}

fn key(key: EditKey, key_char: Option<char>) -> KeyPress {
    KeyPress { key, key_char, shift: false, ctrl: false, alt: false, logo: false }
}

#[test]
fn key_commands_follow_modifiers() {
    assert_eq!(key(EditKey::Return, Some('\r')).command(), KeyCommand::Submit);
    let mut shifted = key(EditKey::Left, None);
    shifted.shift = true;
    assert_eq!(shifted.command(), KeyCommand::Type);
    let mut alt = key(EditKey::Other, Some('a'));
    alt.alt = true;
    assert_eq!(alt.command(), KeyCommand::Ignore);
    let mut copy = key(EditKey::C, Some('C'));
    copy.shift = true;
    copy.ctrl = true;
    assert_eq!(copy.command(), KeyCommand::Copy);
    let mut paste = key(EditKey::V, Some('V'));
    paste.shift = true;
    paste.ctrl = true;
    assert_eq!(paste.command(), KeyCommand::Paste);
    let mut ctrl_a = key(EditKey::Other, Some('a'));
    ctrl_a.ctrl = true;
    assert_eq!(ctrl_a.command(), KeyCommand::Ignore);
    assert_eq!(key(EditKey::Copy, None).command(), KeyCommand::Copy);
}

#[test]
fn typing_replaces_selection() {
    let mut field = input("hello");
    field.select(1, 4);
    assert_eq!(field.press_key(key(EditKey::Other, Some('é'))), KeyAction::Inserted);
    assert_eq!(field.text(), "héo");
    assert_eq!(field.selection(), None);

    let mut field = input("ab");
    field.set_cursor(1, 0);
    assert_eq!(field.press_key(key(EditKey::Other, Some('x'))), KeyAction::Inserted);
    assert_eq!(field.text(), "axb");
    assert_eq!(field.cursor_index(), 1);

    // A key without a character only deletes the selection.
    let mut field = input("hello");
    field.select(0, 2);
    assert_eq!(field.press_key(key(EditKey::Other, None)), KeyAction::TextChanged);
    assert_eq!(field.text(), "llo");
    assert_eq!(field.press_key(key(EditKey::Other, None)), KeyAction::Ignored);
}

#[test]
fn arrows_collapse_selection_or_move() {
    let mut field = input("hello");
    field.select(1, 3);
    assert_eq!(field.press_key(key(EditKey::Left, None)), KeyAction::Moved);
    assert_eq!(field.cursor_index(), 1);
    assert_eq!(field.press_key(key(EditKey::Left, None)), KeyAction::MoveCursor(-1));
    field.select(1, 5);
    assert_eq!(field.press_key(key(EditKey::Right, None)), KeyAction::Moved);
    assert_eq!(field.cursor_index(), 5);
    assert_eq!(field.press_key(key(EditKey::Right, None)), KeyAction::MoveCursor(1));
}

#[test]
fn deleting_keys() {
    let mut field = input("hello");
    field.select(0, 2);
    assert_eq!(field.press_key(key(EditKey::BackSpace, None)), KeyAction::TextChanged);
    assert_eq!(field.text(), "llo");
    assert_eq!(field.press_key(key(EditKey::BackSpace, None)), KeyAction::DeleteBackward);
    // Nothing follows the cursor at the end of the text.
    field.set_cursor(3, 0);
    assert_eq!(field.press_key(key(EditKey::Delete, None)), KeyAction::Ignored);
    field.set_cursor(0, 0);
    assert_eq!(field.press_key(key(EditKey::Delete, None)), KeyAction::DeleteForward);
    field.select(1, 3);
    assert_eq!(field.press_key(key(EditKey::Delete, None)), KeyAction::TextChanged);
    assert_eq!(field.text(), "l");
}

#[test]
fn submit_copy_paste_and_tab_keys() {
    let mut field = input("example.org");
    field.set_focus(true);
    assert_eq!(field.selection(), Some((0, 11)));
    assert_eq!(
        field.press_key(key(EditKey::Copy, None)),
        KeyAction::SetClipboard("example.org".to_string())
    );
    assert_eq!(field.press_key(key(EditKey::Paste, None)), KeyAction::RequestPaste);
    assert_eq!(field.press_key(key(EditKey::Return, Some('\r'))), KeyAction::Submit("example.org".to_string()));
    assert!(!field.is_focused());
    assert_eq!(field.selection(), None);
    assert_eq!(field.press_key(key(EditKey::Copy, None)), KeyAction::Ignored);

    assert_eq!(field.press_key(key(EditKey::Tab, None)), KeyAction::TextChanged);
    assert_eq!(field.text(), "example.org/");
    field.set_cursor(0, 0);
    assert_eq!(field.press_key(key(EditKey::Tab, None)), KeyAction::Ignored);

    let mut logo = key(EditKey::Return, None);
    logo.logo = true;
    assert_eq!(field.press_key(logo), KeyAction::Ignored);
    assert_eq!(field.text(), "example.org/");
}

#[test]
fn surrounding_delete_keeps_selection_within_text() {
    let mut field = input("0123456789");
    field.select(1, 9);
    field.set_cursor(5, 0);
    field.delete_surrounding_text(0, 3);
    assert_eq!(field.text(), "0123489");
    assert_eq!(field.selection(), Some((1, 7)));

    let mut field = input("abcdef");
    field.select(4, 6);
    field.set_cursor(1, 0);
    field.delete_surrounding_text(1, 4);
    assert_eq!(field.text(), "f");
    assert_eq!(field.selection(), None);
}

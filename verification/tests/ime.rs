use kumo::ime::clamp_surrounding_text;

#[test]
fn surrounding_text() {
    let (text, start, end) = clamp_surrounding_text("01234", 1, 4, 1);
    assert_eq!(text, "3");
    assert_eq!(start, -2);
    assert_eq!(end, 1);

    let (text, start, end) = clamp_surrounding_text("01234", 1, 4, 3);
    assert_eq!(text, "123");
    assert_eq!(start, 0);
    assert_eq!(end, 3);

    let (text, start, end) = clamp_surrounding_text("01234", 1, 4, 4);
    assert_eq!(text, "0123");
    assert_eq!(start, 1);
    assert_eq!(end, 4);

    let (text, start, end) = clamp_surrounding_text("01234", 1, 4, 99);
    assert_eq!(text, "01234");
    assert_eq!(start, 1);
    assert_eq!(end, 4);
}

#[test]
fn surrounding_text_swapped_cursor() {
    let (text, start, end) = clamp_surrounding_text("01234", 4, 1, 99);
    assert_eq!(text, "01234");
    assert_eq!(start, 1);
    assert_eq!(end, 4);
}

#[test]
fn surrounding_text_respects_char_boundaries() {
    // "é" takes two bytes; the window never splits it.
    let text = "aéb";
    let (clamped, start, end) = clamp_surrounding_text(text, 0, 0, 2);
    assert!(text.contains(clamped.as_str()));
    assert!(clamped.len() <= 2);
    assert_eq!(start, 0);
    assert_eq!(end, 0);
    assert_eq!(clamped, "a");
}

use kumo::ime::{InputMethodContext, TextInputChange};

#[test]
fn input_method_state_changes() {
    let mut context = InputMethodContext::new();
    assert!(matches!(context.text_input_state(), TextInputChange::Unchanged));

    // Updates without a focused input are ignored.
    context.set_cursor_area(1, 2, 3, 4);
    context.set_surrounding("abc", 1, 1);
    assert!(matches!(context.text_input_state(), TextInputChange::Unchanged));

    context.focus_in();
    context.set_cursor_area(1, 2, 3, 4);
    context.set_surrounding("01234", 4, 1);
    match context.text_input_state() {
        TextInputChange::Dirty(state) => {
            assert_eq!(state.surrounding_text, "01234");
            assert_eq!(state.cursor_index, 1);
            assert_eq!(state.selection, Some((1, 4)));
            assert_eq!(state.cursor_rect, (1, 2, 3, 4));
        },
        _ => panic!("expected a dirty state"),
    }
    assert!(matches!(context.text_input_state(), TextInputChange::Unchanged));

    context.mark_dirty();
    assert!(matches!(context.text_input_state(), TextInputChange::Dirty(_)));

    context.reset();
    match context.text_input_state() {
        TextInputChange::Dirty(state) => assert!(state.surrounding_text.is_empty()),
        _ => panic!("expected a dirty state"),
    }

    context.focus_out();
    assert!(matches!(context.text_input_state(), TextInputChange::Disabled));
    context.reset();
    assert!(matches!(context.text_input_state(), TextInputChange::Unchanged));
}

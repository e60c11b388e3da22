use kumo::geometry::{rect_contains, Position, Size};
use kumo::group::{Group, GroupId, NO_GROUP_UUID};
use kumo::on_demand::OnDemandState;
use kumo::option_menu::{initial_selection, OptionMenuItem};

#[test]
fn rectangle_contains_points() {
    let position = Position::new(10, 20);
    let size = Size::new(5, 5);
    assert!(rect_contains(position, size, Position::new(10, 20)));
    assert!(rect_contains(position, size, Position::new(14, 24)));
    assert!(!rect_contains(position, size, Position::new(15, 24)));
    assert!(!rect_contains(position, size, Position::new(9, 22)));
}

#[test]
fn position_and_size_arithmetic() {
    let moved = Position::new(1, 2).translated(Position::new(10, -5));
    assert_eq!(moved, Position::new(11, -3));
    assert_eq!(moved.offset_from(Position::new(1, 1)), Position::new(10, -4));
    assert_eq!(Size::new(10u32, 8).shrunk_by(Size::new(3, 8)), Size::new(7, 0));
    assert_eq!(Size::new(10u32, 8).scaled(3), Size::new(30, 24));
}

#[test]
fn groups() {
    let default = Group::none();
    assert_eq!(default.id().uuid(), NO_GROUP_UUID);
    assert_eq!(default.label, "Default");
    assert!(!default.ephemeral);
    assert_eq!(GroupId::default(), default.id());

    let fixed = Group::with_uuid(0x67e5504410b1426f9247bb680e5fe0c8, "work".into(), false);
    assert_eq!(fixed.id().uuid(), 0x67e5504410b1426f9247bb680e5fe0c8);
    assert_eq!(fixed.label, "work");
}

#[test]
fn random_groups_are_labelled_by_uuid() {
    let group = Group::new(true);
    let uuid = group.id().uuid();
    assert!(group.ephemeral);
    assert_eq!((uuid >> 76) & 0xf, 4);
    assert_eq!((uuid >> 62) & 0x3, 2);
    let hex = format!("{uuid:032x}");
    let expected =
        format!("{}-{}-{}-{}-{}", &hex[0..8], &hex[8..12], &hex[12..16], &hex[16..20], &hex[20..32]);
    assert_eq!(group.label, expected);
    assert_ne!(Group::new(false).id(), group.id());
}

#[test]
fn on_demand_state_initializes_once() {
    let mut state = OnDemandState::new(|| vec![1, 2, 3]);
    assert!(state.try_get().is_none());
    state.get().push(4);
    assert_eq!(state.try_get().as_ref().unwrap(), &vec![1, 2, 3, 4]);
    assert_eq!(*state.get(), vec![1, 2, 3, 4]);
}

#[test]
fn on_demand_state_with_boxed_initializer() {
    let init: Box<dyn FnOnce() -> u32> = Box::new(|| 7);
    let mut state = OnDemandState::new(init);
    assert_eq!(*state.get(), 7);
}

#[test]
fn option_menu_selects_last_selected_item() {
    let item = |selected| OptionMenuItem { label: String::from("x"), disabled: false, selected };
    assert_eq!(initial_selection(&vec![item(false), item(true), item(false), item(true)]), Some(3));
    assert_eq!(initial_selection(&vec![item(false), item(true), item(false)]), Some(1));
    assert_eq!(initial_selection(&vec![item(false)]), None);
    assert_eq!(initial_selection(&Vec::new()), None);
}

use kumo::keyboard::{CurrentRepeat, KeyRepeat, RepeatInfo, RepeatStart, RepeatTimers};

#[test]
fn key_repeat_timestamps() {
    let mut repeat = CurrentRepeat::new(30, 1000, 25);
    assert_eq!(repeat.next_time(), 1025);
    assert_eq!(repeat.next_time(), 1050);
    assert_eq!(repeat.raw, 30);
}

#[test]
fn key_repeat_requests() {
    let mut keyboard = KeyRepeat::new();
    assert_eq!(keyboard.press_key(10, 30, false), RepeatTimers { cancel: false, start: None });
    assert!(keyboard.current_repeat.is_none());

    keyboard.repeat_info = RepeatInfo::Repeat { rate: 25, delay: 600 };
    assert_eq!(keyboard.press_key(10, 30, false), RepeatTimers {
        cancel: false,
        start: Some(RepeatStart { raw: 30, delay: 600, rate: 25 })
    });
    assert_eq!(keyboard.current_repeat, Some(CurrentRepeat::new(30, 10, 600)));

    // Modifiers keep the current repetition.
    assert_eq!(keyboard.press_key(11, 50, true), RepeatTimers { cancel: false, start: None });
    assert!(keyboard.current_repeat.is_some());

    // A new key replaces the repetition.
    let timers = keyboard.press_key(12, 31, false);
    assert!(timers.cancel);
    assert_eq!(keyboard.current_repeat.unwrap().raw, 31);

    // Releasing another key keeps it; releasing the repeating key stops it.
    assert!(!keyboard.release_key(30));
    assert!(keyboard.release_key(31));
    assert!(keyboard.current_repeat.is_none());
    assert!(!keyboard.cancel_repeat());
}

#[test]
fn restored_session_groups() {
    let default = Group::restored(NO_GROUP_UUID, Some(Group::with_uuid(7, "x".into(), false)));
    assert_eq!(default.label, "Default");
    assert_eq!(default.id().uuid(), NO_GROUP_UUID);

    let stored = Group::restored(7, Some(Group::with_uuid(7, "work".into(), true)));
    assert_eq!(stored.label, "work");
    assert!(stored.is_ephemeral());

    let missing = Group::restored(7, None);
    assert_eq!(missing.label, "-");
    assert_eq!(missing.id().uuid(), 7);
    assert!(!missing.is_ephemeral());
}

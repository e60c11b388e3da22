use kumo::settings::{InputFormat, ValidationResult};

#[test]
fn empty_input_is_incomplete() {
    for format in [InputFormat::Text, InputFormat::Color, InputFormat::Float, InputFormat::Integer] {
        assert_eq!(format.validate("", true), ValidationResult::Incomplete);
    }
}

#[test]
fn text_input_always_valid() {
    assert_eq!(InputFormat::Text.validate("anything at all", false), ValidationResult::Success);
}

#[test]
fn integer_input() {
    assert_eq!(InputFormat::Integer.validate("42", false), ValidationResult::Success);
    assert_eq!(InputFormat::Integer.validate("-42", false), ValidationResult::Success);
    assert_eq!(InputFormat::Integer.validate("+7", false), ValidationResult::Success);
    assert_eq!(InputFormat::Integer.validate("9223372036854775807", false), ValidationResult::Success);
    assert_eq!(InputFormat::Integer.validate("9223372036854775808", false), ValidationResult::Failed);
    assert_eq!(InputFormat::Integer.validate("-9223372036854775808", false), ValidationResult::Success);
    assert_eq!(InputFormat::Integer.validate("-", false), ValidationResult::Incomplete);
    assert_eq!(InputFormat::Integer.validate("+", false), ValidationResult::Incomplete);
    assert_eq!(InputFormat::Integer.validate("--", false), ValidationResult::Failed);
    assert_eq!(InputFormat::Integer.validate("4 2", false), ValidationResult::Failed);
    assert_eq!(InputFormat::Integer.validate("1.5", true), ValidationResult::Failed);
}

#[test]
fn float_input_follows_caller_parse() {
    assert_eq!(InputFormat::Float.validate("1.5", true), ValidationResult::Success);
    assert_eq!(InputFormat::Float.validate("1.5x", false), ValidationResult::Failed);
    assert_eq!(InputFormat::Float.validate("-", false), ValidationResult::Incomplete);
    assert_eq!(InputFormat::Float.validate("+", false), ValidationResult::Incomplete);
    assert_eq!(InputFormat::Float.validate("-x", false), ValidationResult::Failed);
}

#[test]
fn color_input() {
    assert_eq!(InputFormat::Color.validate("#", false), ValidationResult::Incomplete);
    assert_eq!(InputFormat::Color.validate("#ab12", false), ValidationResult::Incomplete);
    assert_eq!(InputFormat::Color.validate("#aB12eF", false), ValidationResult::Success);
    assert_eq!(InputFormat::Color.validate("#aB12eF0", false), ValidationResult::Failed);
    assert_eq!(InputFormat::Color.validate("ab12ef", false), ValidationResult::Failed);
    assert_eq!(InputFormat::Color.validate("#ab1g", false), ValidationResult::Failed);
}

//! Validation of values typed into the settings UI.

use vstd::prelude::*;
use vstd::string::StringSliceAdditionalSpecFns;

use crate::config::hex_digit_value;
use crate::text::chars_of;

verus! {

/// Format for a setting's input element.
#[derive(PartialEq, Eq, Structural, Copy, Clone, Debug)]
pub enum InputFormat {
    /// Any text input.
    Text,
    /// Hexadecimal color.
    Color,
    /// Floating point number.
    Float,
    /// Integer number.
    Integer,
}

/// Result of [`InputFormat::validate`].
#[derive(PartialEq, Eq, Structural, Copy, Clone, Debug)]
pub enum ValidationResult {
    /// Text is valid in its entirety.
    Success,
    /// Text contains illegal characters.
    Failed,
    /// Text could be part of a valid input, but is incomplete.
    Incomplete,
}

/// Whether a character is an ASCII decimal digit.
pub open spec fn is_decimal_digit(c: char) -> bool {
    '0' <= c && c <= '9'
}

/// Value of a sequence of decimal digits.
pub open spec fn decimal_value(s: Seq<char>) -> nat
    decreases s.len(),
{
    if s.len() == 0 {
        0
    } else {
        decimal_value(s.drop_last()) * 10 + (s.last() as nat - '0' as nat) as nat
    }
}

/// Value of integer text: an optional `+` or `-` sign followed by one or
/// more decimal digits.
pub open spec fn integer_text_value(s: Seq<char>) -> Option<int> {
    let negative = s.len() > 0 && s[0] == '-';
    let digits = if s.len() > 0 && (s[0] == '-' || s[0] == '+') {
        s.drop_first()
    } else {
        s
    };
    if digits.len() > 0 && (forall|i: int| 0 <= i < digits.len() ==> is_decimal_digit(#[trigger] digits[i])) {
        Some(if negative {
            -decimal_value(digits)
        } else {
            decimal_value(digits) as int
        })
    } else {
        None
    }
}

/// Result of `i64::from_str`: integer text whose value fits in an `i64`.
pub open spec fn parse_i64(s: Seq<char>) -> Option<i64> {
    match integer_text_value(s) {
        Some(v) => if i64::MIN <= v <= i64::MAX {
            Some(v as i64)
        } else {
            None
        },
        None => None,
    }
}

/// Parse an `i64` from decimal text.
///
/// Trusted: calls `str::parse::<i64>` (std), which accepts an optional `+`
/// or `-` sign followed by one or more ASCII digits and fails on anything
/// else, whitespace included, or on overflow; the contract states exactly
/// that.
#[verifier::external_body]
fn i64_from_text(s: &str) -> (r: Option<i64>)
    ensures
        r == parse_i64(s@),
{
    s.parse::<i64>().ok()
}

/// Whether color input is wrong: not starting with `#`, or holding a
/// character after it that is not a hexadecimal digit.
pub open spec fn color_input_invalid(text: Seq<char>) -> bool {
    text[0] != '#' || exists|i: int| 1 <= i < text.len() && hex_digit_value(#[trigger] text[i]) is None
}

/// Whether text is a sign alone, which starts a number without being one.
pub open spec fn is_lone_sign(text: Seq<char>) -> bool {
    text.len() == 1 && (text[0] == '-' || text[0] == '+')
}

/// Validation of `text` in `format`; `parses_as_float` is whether the text
/// is a valid floating point number. A sign alone is the start of a number,
/// so it is incomplete rather than wrong.
pub open spec fn validation(format: InputFormat, text: Seq<char>, parses_as_float: bool) -> ValidationResult {
    if text.len() == 0 {
        ValidationResult::Incomplete
    } else {
        match format {
            InputFormat::Text => ValidationResult::Success,
            InputFormat::Float => if parses_as_float {
                ValidationResult::Success
            } else if is_lone_sign(text) {
                ValidationResult::Incomplete
            } else {
                ValidationResult::Failed
            },
            InputFormat::Integer => if parse_i64(text) is Some {
                ValidationResult::Success
            } else if is_lone_sign(text) {
                ValidationResult::Incomplete
            } else {
                ValidationResult::Failed
            },
            InputFormat::Color => if color_input_invalid(text) || text.len() > 7 {
                ValidationResult::Failed
            } else if text.len() < 7 {
                ValidationResult::Incomplete
            } else {
                ValidationResult::Success
            },
        }
    }
}

/// Whether all characters after the first are hexadecimal digits.
fn hex_digits_after_first(chars: &Vec<char>) -> (r: bool)
    ensures
        r == (forall|i: int| 1 <= i < chars@.len() ==> hex_digit_value(#[trigger] chars@[i]) is Some),
{
    let mut i: usize = 1;
    while i < chars.len()
        invariant
            1 <= i,
            forall|j: int| 1 <= j < i && j < chars@.len() ==> hex_digit_value(#[trigger] chars@[j]) is Some,
        decreases chars.len() - i,
    {
        let c = chars[i];
        if !(('0' <= c && c <= '9') || ('a' <= c && c <= 'f') || ('A' <= c && c <= 'F')) {
            assert(hex_digit_value(chars@[i as int]) is None);
            return false;
        }
        i = i + 1;
    }
    true
}

/// Whether the characters are a sign alone.
fn lone_sign(chars: &Vec<char>) -> (r: bool)
    ensures
        r == is_lone_sign(chars@),
{
    chars.len() == 1 && (chars[0] == '-' || chars[0] == '+')
}

impl InputFormat {
    /// Check whether text is acceptable for this format; the caller tells
    /// whether the text is a valid floating point number, which is only used
    /// for [`InputFormat::Float`].
    pub fn validate(&self, text: &str, parses_as_float: bool) -> (r: ValidationResult)
        ensures
            r == validation(*self, text@, parses_as_float),
    {
        let chars = chars_of(text);
        if chars.len() == 0 {
            return ValidationResult::Incomplete;
        }
        match self {
            InputFormat::Text => ValidationResult::Success,
            InputFormat::Float => if parses_as_float {
                ValidationResult::Success
            } else if lone_sign(&chars) {
                ValidationResult::Incomplete
            } else {
                ValidationResult::Failed
            },
            InputFormat::Integer => if i64_from_text(text).is_some() {
                ValidationResult::Success
            } else if lone_sign(&chars) {
                ValidationResult::Incomplete
            } else {
                ValidationResult::Failed
            },
            InputFormat::Color => {
                if chars[0] != '#' || !hex_digits_after_first(&chars) || chars.len() > 7 {
                    ValidationResult::Failed
                } else if chars.len() < 7 {
                    ValidationResult::Incomplete
                } else {
                    ValidationResult::Success
                }
            },
        }
    }
}

} // verus!

//! Configuration values: colors, search settings and option paths.

use vstd::prelude::*;
use vstd::string::{StringExecFns, StringSliceAdditionalSpecFns};

use crate::text::{chars_of, split_on, split_vec, string_from_chars, string_views};

verus! {

broadcast use vstd::string::group_string_axioms;

/// RGB color.
#[derive(Copy, Clone, Hash, PartialEq, Eq, Debug)]
pub struct Color {
    pub r: u8,
    pub g: u8,
    pub b: u8,
}

/// Reason a color text is rejected.
#[derive(Copy, Clone, PartialEq, Eq, Debug)]
pub enum ColorParseError {
    /// The text does not start with `#`.
    MissingHash,
    /// The text after `#` is not six bytes long; holds its byte length.
    DigitCount(usize),
    /// The text after `#` is not a hexadecimal number.
    NonHex,
}

/// Value of a hexadecimal digit.
pub open spec fn hex_digit_value(c: char) -> Option<nat> {
    if '0' <= c && c <= '9' {
        Some((c as nat - '0' as nat) as nat)
    } else if 'a' <= c && c <= 'f' {
        Some((c as nat - 'a' as nat + 10) as nat)
    } else if 'A' <= c && c <= 'F' {
        Some((c as nat - 'A' as nat + 10) as nat)
    } else {
        None
    }
}

/// Value of a non-empty sequence of hexadecimal digits.
pub open spec fn hex_value(s: Seq<char>) -> Option<nat>
    decreases s.len(),
{
    if s.len() == 0 {
        None
    } else {
        match (hex_digit_value(s.last()), if s.len() == 1 {
            Some(0nat)
        } else {
            hex_value(s.drop_last())
        }) {
            (Some(d), Some(v)) => Some(v * 16 + d),
            _ => None,
        }
    }
}

/// Result of `u32::from_str_radix(s, 16)`: an optional `+` sign followed by
/// hexadecimal digits whose value fits in a `u32`.
pub open spec fn parse_u32_hex(s: Seq<char>) -> Option<u32> {
    let digits = if s.len() > 0 && s[0] == '+' {
        s.drop_first()
    } else {
        s
    };
    match hex_value(digits) {
        Some(v) => if v <= u32::MAX {
            Some(v as u32)
        } else {
            None
        },
        None => None,
    }
}

/// Parse a `u32` from hexadecimal text.
///
/// Trusted: calls `u32::from_str_radix` (std) with radix 16, which accepts an
/// optional `+` sign followed by one or more hexadecimal digits of either case
/// and fails on anything else or on overflow; the contract states exactly
/// that.
#[verifier::external_body]
fn u32_from_hex(s: &str) -> (r: Option<u32>)
    ensures
        r == parse_u32_hex(s@),
{
    u32::from_str_radix(s, 16).ok()
}

/// Color with the channels of a 24-bit RGB value.
pub open spec fn color_from_rgb(v: nat) -> Color {
    Color { r: ((v / 65536) % 256) as u8, g: ((v / 256) % 256) as u8, b: (v % 256) as u8 }
}

/// Result of reading a color from its `#rrggbb` text: `#` followed by six
/// hexadecimal digits, no sign allowed.
pub open spec fn parse_color_spec(text: Seq<char>) -> Result<Color, ColorParseError> {
    if text.len() == 0 || text[0] != '#' {
        Err(ColorParseError::MissingHash)
    } else {
        let channels = text.drop_first();
        let digits = vstd::utf8::encode_utf8(channels).len() as usize;
        if digits != 6 {
            Err(ColorParseError::DigitCount(digits))
        } else {
            match hex_value(channels) {
                Some(v) => Ok(color_from_rgb(v)),
                None => Err(ColorParseError::NonHex),
            }
        }
    }
}

/// Lowercase hexadecimal digit for a value below 16.
pub open spec fn hex_char(n: nat) -> char {
    if n < 10 {
        (('0' as nat) + n) as char
    } else {
        (('a' as nat) + n - 10) as char
    }
}

/// `#rrggbb` text of a color, in lowercase hexadecimal.
pub open spec fn color_text(c: Color) -> Seq<char> {
    seq![
        '#',
        hex_char(c.r as nat / 16),
        hex_char(c.r as nat % 16),
        hex_char(c.g as nat / 16),
        hex_char(c.g as nat % 16),
        hex_char(c.b as nat / 16),
        hex_char(c.b as nat % 16),
    ]
}

/// Lowercase hexadecimal digit.
fn hex_digit(n: u8) -> (c: char)
    requires
        n < 16,
    ensures
        c == hex_char(n as nat),
{
    if n < 10 {
        (48u8 + n) as char
    } else {
        (87u8 + n) as char
    }
}

impl Color {
    /// Color with the given channels.
    pub fn new(r: u8, g: u8, b: u8) -> (c: Self)
        ensures
            c == (Color { r, g, b }),
    {
        Self { r, g, b }
    }

    /// RGBA bytes, fully opaque.
    pub fn as_u8(&self) -> (rgba: [u8; 4])
        ensures
            rgba@ == seq![self.r, self.g, self.b, 255u8],
    {
        let rgba = [self.r, self.g, self.b, 255];
        assert(rgba@ =~= seq![self.r, self.g, self.b, 255u8]);
        rgba
    }

    /// Channels scaled to the full `u16` range.
    pub fn as_u16(&self) -> (rgb: [u16; 3])
        ensures
            rgb@ == seq![(self.r * 257) as u16, (self.g * 257) as u16, (self.b * 257) as u16],
    {
        let factor: u16 = u16::MAX / 255;
        assert(factor == 257);
        let rgb = [self.r as u16 * factor, self.g as u16 * factor, self.b as u16 * factor];
        assert(rgb@ =~= seq![(self.r * 257) as u16, (self.g * 257) as u16, (self.b * 257) as u16]);
        rgb
    }

    /// Channels scaled to the full `u32` range.
    pub fn as_u32(&self) -> (rgb: [u32; 3])
        ensures
            rgb@ == seq![
                (self.r * 16843009) as u32,
                (self.g * 16843009) as u32,
                (self.b * 16843009) as u32,
            ],
    {
        let factor: u32 = u32::MAX / 255;
        assert(factor == 16843009);
        let rgb = [self.r as u32 * factor, self.g as u32 * factor, self.b as u32 * factor];
        assert(rgb@ =~= seq![
            (self.r * 16843009) as u32,
            (self.g * 16843009) as u32,
            (self.b * 16843009) as u32,
        ]);
        rgb
    }

    /// Read a color from `#rrggbb` hexadecimal text.
    pub fn parse(value: &str) -> (r: Result<Color, ColorParseError>)
        ensures
            r == parse_color_spec(value@),
    {
        let chars = chars_of(value);
        if chars.len() == 0 || chars[0] != '#' {
            return Err(ColorParseError::MissingHash);
        }
        let (_, channels) = split_after_hash(value);
        let digits = channels.len();
        if digits != 6 {
            return Err(ColorParseError::DigitCount(digits));
        }
        proof {
            lemma_six_digit_bound(value@.drop_first());
        }
        // A sign is no hexadecimal digit, though the number parse takes one.
        if chars[1] == '+' {
            proof {
                lemma_hex_digits(value@.drop_first());
                assert(hex_digit_value(value@.drop_first()[0]) is None);
            }
            return Err(ColorParseError::NonHex);
        }
        match u32_from_hex(channels) {
            Some(color) => {
                let b = (color & 0xFF) as u8;
                let g = ((color >> 8) & 0xFF) as u8;
                let r = (color >> 16) as u8;
                proof {
                    lemma_rgb_channels(color);
                }
                Ok(Color::new(r, g, b))
            },
            None => Err(ColorParseError::NonHex),
        }
    }

    /// `#rrggbb` text of this color, in lowercase hexadecimal.
    pub fn to_hex_string(&self) -> (s: String)
        ensures
            s@ == color_text(*self),
    {
        let mut chars: Vec<char> = Vec::new();
        chars.push('#');
        chars.push(hex_digit(self.r / 16));
        chars.push(hex_digit(self.r % 16));
        chars.push(hex_digit(self.g / 16));
        chars.push(hex_digit(self.g % 16));
        chars.push(hex_digit(self.b / 16));
        chars.push(hex_digit(self.b % 16));
        assert(chars@ =~= color_text(*self));
        string_from_chars(&chars)
    }
}

/// Channels of a color value below 2^24.
proof fn lemma_rgb_channels(color: u32)
    requires
        color <= 0xFFFFFF,
    ensures
        (color & 0xFF) as u8 == (color as nat % 256) as u8,
        ((color >> 8) & 0xFF) as u8 == ((color as nat / 256) % 256) as u8,
        (color >> 16) as u8 == ((color as nat / 65536) % 256) as u8,
{
    assert((color & 0xFF) == color % 256) by (bit_vector);
    assert(((color >> 8) & 0xFF) == (color / 256) % 256) by (bit_vector);
    assert((color >> 16) == (color / 65536) % 256) by (bit_vector)
        requires
            color <= 0xFFFFFF,
    ;
}

/// Split off the leading `#` of a text that starts with one.
fn split_after_hash(value: &str) -> (r: (&str, &str))
    requires
        value@.len() > 0,
        value@[0] == '#',
    ensures
        r.1@ == value@.drop_first(),
        r.1.spec_bytes().len() == vstd::utf8::encode_utf8(value@.drop_first()).len(),
{
    proof {
        lemma_hash_prefix_bytes(value@);
        vstd::utf8::encode_utf8_valid_utf8(value@);
    }
    let parts = value.split_at(1);
    proof {
        assert(parts.1.spec_bytes() =~= vstd::utf8::encode_utf8(value@.drop_first()));
        vstd::utf8::encode_utf8_decode_utf8(value@.drop_first());
        vstd::utf8::encode_utf8_decode_utf8(parts.1@);
    }
    parts
}

/// A leading `#` is one byte, followed by a character boundary.
proof fn lemma_hash_prefix_bytes(s: Seq<char>)
    requires
        s.len() > 0,
        s[0] == '#',
    ensures
        vstd::utf8::encode_utf8(s) == seq![35u8] + vstd::utf8::encode_utf8(s.drop_first()),
        vstd::utf8::is_char_boundary(vstd::utf8::encode_utf8(s), 1),
{
    let bytes = vstd::utf8::encode_utf8(s);
    vstd::utf8::encode_utf8_valid_utf8(s);
    vstd::utf8::encode_utf8_first_scalar(s);
    let c = s[0] as u32;
    assert(c == 35);
    assert((c & 0x7F) as u8 == 35u8) by (bit_vector)
        requires
            c == 35,
    ;
    assert(vstd::utf8::encode_scalar(c) =~= seq![35u8]);
    assert(bytes =~= seq![35u8] + vstd::utf8::encode_utf8(s.drop_first()));
    assert(vstd::utf8::length_of_first_scalar(bytes) == 1);
    vstd::utf8::is_char_boundary_start_end_of_seq(vstd::utf8::pop_first_scalar(bytes));
}

/// `16^n`.
pub open spec fn pow16(n: nat) -> nat
    decreases n,
{
    if n == 0 {
        1
    } else {
        16 * pow16((n - 1) as nat)
    }
}

/// A hexadecimal value is below 16 to the power of its digit count.
proof fn lemma_hex_value_bound(s: Seq<char>)
    ensures
        hex_value(s) matches Some(v) ==> v < pow16(s.len()),
    decreases s.len(),
{
    if s.len() > 1 {
        lemma_hex_value_bound(s.drop_last());
    }
    if let Some(v) = hex_value(s) {
        if s.len() == 1 {
            assert(pow16(0) == 1);
            assert(pow16(1) == 16);
        } else {
            let w = hex_value(s.drop_last()).unwrap();
            assert(v == w * 16 + hex_digit_value(s.last()).unwrap());
            assert(pow16(s.len()) == 16 * pow16((s.len() - 1) as nat));
        }
    }
}

/// Powers of 16 grow with the exponent.
proof fn lemma_pow16_monotonic(a: nat, b: nat)
    requires
        a <= b,
    ensures
        pow16(a) <= pow16(b),
    decreases b,
{
    if a < b {
        lemma_pow16_monotonic(a, (b - 1) as nat);
    }
}

/// Text of ASCII characters takes one byte per character.
proof fn lemma_ascii_encode_len(s: Seq<char>)
    requires
        forall|i: int| 0 <= i < s.len() ==> (#[trigger] s[i]) as u32 <= 0x7F,
    ensures
        vstd::utf8::encode_utf8(s).len() == s.len(),
    decreases s.len(),
{
    if s.len() > 0 {
        assert forall|i: int| 0 <= i < s.drop_first().len() implies (#[trigger] s.drop_first()[i]) as u32 <= 0x7F by {
            assert(s.drop_first()[i] == s[i + 1]);
        }
        lemma_ascii_encode_len(s.drop_first());
        assert(s[0] as u32 <= 0x7F);
    }
}

/// Digits with a hexadecimal value are all hexadecimal digits.
proof fn lemma_hex_digits(s: Seq<char>)
    ensures
        hex_value(s) is Some ==> forall|i: int| 0 <= i < s.len() ==> hex_digit_value(#[trigger] s[i]) is Some,
    decreases s.len(),
{
    if s.len() > 1 {
        lemma_hex_digits(s.drop_last());
        if hex_value(s) is Some {
            assert forall|i: int| 0 <= i < s.len() implies hex_digit_value(#[trigger] s[i]) is Some by {
                if i < s.len() - 1 {
                    assert(s[i] == s.drop_last()[i]);
                }
            }
        }
    }
}

/// Text whose byte count is six in a `usize` is not empty, and a
/// hexadecimal value of it is below 2^24.
proof fn lemma_six_digit_bound(channels: Seq<char>)
    requires
        channels.len() <= usize::MAX,
        vstd::utf8::encode_utf8(channels).len() as usize == 6,
    ensures
        channels.len() > 0,
        hex_value(channels) matches Some(v) ==> v <= 0xFFFFFF,
{
    if channels.len() == 0 {
        assert(vstd::utf8::encode_utf8(channels) =~= Seq::<u8>::empty());
    }
    if hex_value(channels) is Some {
        lemma_hex_digits(channels);
        assert forall|i: int| 0 <= i < channels.len() implies (#[trigger] channels[i]) as u32 <= 0x7F by {
            assert(hex_digit_value(channels[i]) is Some);
        }
        lemma_ascii_encode_len(channels);
        lemma_hex_value_bound(channels);
        lemma_pow16_monotonic(channels.len(), 6);
        assert(pow16(0) == 1);
        assert(pow16(1) == 16);
        assert(pow16(2) == 256);
        assert(pow16(3) == 4096);
        assert(pow16(4) == 65536);
        assert(pow16(5) == 1048576);
        assert(pow16(6) == 16777216);
    }
}

/// Reading a hexadecimal digit back gives its value.
proof fn lemma_hex_char_value(n: nat)
    requires
        n < 16,
    ensures
        hex_digit_value(hex_char(n)) == Some(n),
        (hex_char(n) as u32) <= 0x7F,
{
    if n < 10 {
        assert((((48 + n) as char) as nat) == 48 + n);
    } else {
        assert((((87 + n) as char) as nat) == 87 + n);
    }
}

/// Writing a color as `#rrggbb` text and reading it back gives the color.
pub proof fn law_color_text_round_trip(c: Color)
    ensures
        parse_color_spec(color_text(c)) == Ok::<Color, ColorParseError>(c),
{
    let t = color_text(c);
    let ch = t.drop_first();
    let (r, g, b) = (c.r as nat, c.g as nat, c.b as nat);
    lemma_hex_char_value(r / 16);
    lemma_hex_char_value(r % 16);
    lemma_hex_char_value(g / 16);
    lemma_hex_char_value(g % 16);
    lemma_hex_char_value(b / 16);
    lemma_hex_char_value(b % 16);
    assert(ch =~= seq![
        hex_char(r / 16),
        hex_char(r % 16),
        hex_char(g / 16),
        hex_char(g % 16),
        hex_char(b / 16),
        hex_char(b % 16),
    ]);
    lemma_ascii_encode_len(ch);
    assert(ch.take(1).drop_last() =~= Seq::<char>::empty());
    assert(ch.take(2).drop_last() =~= ch.take(1));
    assert(ch.take(3).drop_last() =~= ch.take(2));
    assert(ch.take(4).drop_last() =~= ch.take(3));
    assert(ch.take(5).drop_last() =~= ch.take(4));
    assert(ch.drop_last() =~= ch.take(5));
    assert(hex_value(ch.take(1)) == Some(r / 16));
    assert(hex_value(ch.take(2)) == Some((r / 16) * 16 + r % 16));
    assert(hex_value(ch.take(3)) == Some(((r / 16) * 16 + r % 16) * 16 + g / 16));
    assert(hex_value(ch.take(4)) == Some((((r / 16) * 16 + r % 16) * 16 + g / 16) * 16 + g % 16));
    assert(hex_value(ch.take(5)) == Some(((((r / 16) * 16 + r % 16) * 16 + g / 16) * 16 + g % 16) * 16 + b / 16));
    let v = (((((r / 16) * 16 + r % 16) * 16 + g / 16) * 16 + g % 16) * 16 + b / 16) * 16 + b % 16;
    assert(hex_value(ch) == Some(v));
    assert(v == r * 65536 + g * 256 + b) by (nonlinear_arith)
        requires
            v == (((((r / 16) * 16 + r % 16) * 16 + g / 16) * 16 + g % 16) * 16 + b / 16) * 16 + b % 16,
    ;
    assert(r < 256 && g < 256 && b < 256);
    assert(v <= u32::MAX);
    assert(color_from_rgb(v) == c) by (nonlinear_arith)
        requires
            v == r * 65536 + g * 256 + b,
            r < 256,
            g < 256,
            b < 256,
            r == c.r,
            g == c.g,
            b == c.b,
    ;
}

/// Value of a character known to be a hexadecimal digit.
pub open spec fn digit(c: char) -> nat {
    hex_digit_value(c).unwrap()
}

/// A hexadecimal digit is an ASCII character worth less than 16.
proof fn lemma_hex_digit_facts(c: char)
    requires
        hex_digit_value(c) is Some,
    ensures
        digit(c) < 16,
        (c as u32) <= 0x7F,
{
}

/// The six digits after `#` are read in pairs: the first pair gives the
/// red channel, the second the green and the third the blue, each pair with
/// its first digit as the high one.
pub proof fn law_color_channels(d: Seq<char>)
    requires
        d.len() == 6,
        forall|i: int| 0 <= i < 6 ==> hex_digit_value(#[trigger] d[i]) is Some,
    ensures
        parse_color_spec(seq!['#'] + d) == Ok::<Color, ColorParseError>(
            Color {
                r: (digit(d[0]) * 16 + digit(d[1])) as u8,
                g: (digit(d[2]) * 16 + digit(d[3])) as u8,
                b: (digit(d[4]) * 16 + digit(d[5])) as u8,
            },
        ),
{
    let t = seq!['#'] + d;
    assert(t.drop_first() =~= d);
    assert(t[0] == '#');
    assert forall|i: int| 0 <= i < d.len() implies (#[trigger] d[i]) as u32 <= 0x7F by {
        lemma_hex_digit_facts(d[i]);
    }
    lemma_ascii_encode_len(d);
    let v0 = digit(d[0]);
    let v1 = digit(d[1]);
    let v2 = digit(d[2]);
    let v3 = digit(d[3]);
    let v4 = digit(d[4]);
    let v5 = digit(d[5]);
    lemma_hex_digit_facts(d[0]);
    lemma_hex_digit_facts(d[1]);
    lemma_hex_digit_facts(d[2]);
    lemma_hex_digit_facts(d[3]);
    lemma_hex_digit_facts(d[4]);
    lemma_hex_digit_facts(d[5]);
    assert(d.take(1).drop_last() =~= Seq::<char>::empty());
    assert(d.take(2).drop_last() =~= d.take(1));
    assert(d.take(3).drop_last() =~= d.take(2));
    assert(d.take(4).drop_last() =~= d.take(3));
    assert(d.take(5).drop_last() =~= d.take(4));
    assert(d.drop_last() =~= d.take(5));
    assert(hex_value(d.take(1)) == Some(v0));
    assert(hex_value(d.take(2)) == Some(v0 * 16 + v1));
    assert(hex_value(d.take(3)) == Some((v0 * 16 + v1) * 16 + v2));
    assert(hex_value(d.take(4)) == Some(((v0 * 16 + v1) * 16 + v2) * 16 + v3));
    assert(hex_value(d.take(5)) == Some((((v0 * 16 + v1) * 16 + v2) * 16 + v3) * 16 + v4));
    let v = ((((v0 * 16 + v1) * 16 + v2) * 16 + v3) * 16 + v4) * 16 + v5;
    assert(hex_value(d) == Some(v));
    let r = v0 * 16 + v1;
    let g = v2 * 16 + v3;
    let b = v4 * 16 + v5;
    assert(r < 256 && g < 256 && b < 256) by (nonlinear_arith)
        requires
            r == v0 * 16 + v1,
            g == v2 * 16 + v3,
            b == v4 * 16 + v5,
            v0 < 16,
            v1 < 16,
            v2 < 16,
            v3 < 16,
            v4 < 16,
            v5 < 16,
    ;
    assert(v == r * 65536 + g * 256 + b) by (nonlinear_arith)
        requires
            v == ((((v0 * 16 + v1) * 16 + v2) * 16 + v3) * 16 + v4) * 16 + v5,
            r == v0 * 16 + v1,
            g == v2 * 16 + v3,
            b == v4 * 16 + v5,
    ;
    assert(v / 65536 == r && (v / 256) % 256 == g && v % 256 == b) by (nonlinear_arith)
        requires
            v == r * 65536 + g * 256 + b,
            r < 256,
            g < 256,
            b < 256,
    ;
}

/// The printed text of a color is `#` followed by three pairs of digits:
/// the red channel first, then the green, then the blue, each with its high
/// digit first.
pub proof fn law_color_text_channels(c: Color)
    ensures
        color_text(c).len() == 7,
        color_text(c)[0] == '#',
        forall|i: int| 1 <= i < 7 ==> hex_digit_value(#[trigger] color_text(c)[i]) is Some,
        digit(color_text(c)[1]) * 16 + digit(color_text(c)[2]) == c.r,
        digit(color_text(c)[3]) * 16 + digit(color_text(c)[4]) == c.g,
        digit(color_text(c)[5]) * 16 + digit(color_text(c)[6]) == c.b,
{
    let (r, g, b) = (c.r as nat, c.g as nat, c.b as nat);
    lemma_hex_char_value(r / 16);
    lemma_hex_char_value(r % 16);
    lemma_hex_char_value(g / 16);
    lemma_hex_char_value(g % 16);
    lemma_hex_char_value(b / 16);
    lemma_hex_char_value(b % 16);
}

/// Color configuration.
#[derive(Copy, Clone, Hash, PartialEq, Eq, Debug)]
pub struct Colors {
    /// Primary foreground color.
    pub foreground: Color,
    /// Primary background color.
    pub background: Color,
    /// Primary accent color.
    pub highlight: Color,
    /// Alternative foreground color.
    pub alt_foreground: Color,
    /// Alternative background color.
    pub alt_background: Color,
    /// Error foreground color.
    pub error: Color,
    /// Disabled foreground color.
    pub disabled: Color,
}

impl Default for Colors {
    fn default() -> (c: Self)
        ensures
            c == (Colors {
                foreground: Color { r: 255, g: 255, b: 255 },
                background: Color { r: 24, g: 24, b: 24 },
                highlight: Color { r: 117, g: 42, b: 42 },
                alt_foreground: Color { r: 191, g: 191, b: 191 },
                alt_background: Color { r: 40, g: 40, b: 40 },
                error: Color { r: 172, g: 66, b: 66 },
                disabled: Color { r: 102, g: 102, b: 102 },
            }),
    {
        Self {
            foreground: Color::new(255, 255, 255),
            background: Color::new(24, 24, 24),
            highlight: Color::new(117, 42, 42),
            alt_foreground: Color::new(191, 191, 191),
            alt_background: Color::new(40, 40, 40),
            error: Color::new(172, 66, 66),
            disabled: Color::new(102, 102, 102),
        }
    }
}

/// Search configuration.
#[derive(Debug)]
pub struct Search {
    /// Search engine URI.
    ///
    /// The search query will be appended to the end of this URI.
    pub uri: String,
}

impl Default for Search {
    fn default() -> (s: Self)
        ensures
            s.uri@ == "https://duckduckgo.com/?q="@,
    {
        Self { uri: String::from_str("https://duckduckgo.com/?q=") }
    }
}

/// Config wrapper for millisecond-precision durations.
#[derive(Copy, Clone, Hash, PartialEq, Eq, Debug)]
pub struct MillisDuration {
    millis: u64,
}

/// Decimal digits of a number.
pub open spec fn decimal_text(n: nat) -> Seq<char>
    decreases n,
{
    if n < 10 {
        seq![((48 + n) as char)]
    } else {
        decimal_text(n / 10).push(((48 + n % 10) as char))
    }
}

impl MillisDuration {
    /// Duration of the given number of milliseconds.
    pub fn from_millis(millis: u64) -> (d: Self)
        ensures
            d.millis() == millis,
    {
        Self { millis }
    }

    /// Length in milliseconds.
    pub closed spec fn millis(&self) -> u64 {
        self.millis
    }

    /// Length in milliseconds.
    pub fn as_millis(&self) -> (ms: u64)
        ensures
            ms == self.millis(),
    {
        self.millis
    }

    /// Decimal text of the length in milliseconds.
    pub fn to_text(&self) -> (s: String)
        ensures
            s@ == decimal_text(self.millis() as nat),
    {
        let mut digits: Vec<char> = Vec::new();
        let mut n = self.millis;
        // Digits are produced least significant first.
        assert(digits@.reverse() =~= Seq::<char>::empty());
        assert(decimal_text(self.millis as nat) =~= decimal_text(n as nat) + digits@.reverse());
        while n >= 10
            invariant
                decimal_text(self.millis as nat) == decimal_text(n as nat) + digits@.reverse(),
            decreases n,
        {
            let ghost before = digits@;
            let d = (n % 10) as u8;
            digits.push((48u8 + d) as char);
            proof {
                assert(decimal_text(n as nat) == decimal_text((n / 10) as nat).push(((48 + n % 10) as char)));
                assert(digits@.reverse() =~= seq![((48 + n % 10) as char)] + before.reverse());
                assert(decimal_text((n / 10) as nat).push(((48 + n % 10) as char)) + before.reverse()
                    =~= decimal_text((n / 10) as nat) + digits@.reverse());
            }
            n = n / 10;
        }
        let mut text: Vec<char> = Vec::new();
        let last = n as u8;
        text.push((48u8 + last) as char);
        let mut i = digits.len();
        assert(text@ =~= decimal_text(n as nat));
        while i > 0
            invariant
                i <= digits.len(),
                text@ == decimal_text(n as nat) + digits@.subrange(i as int, digits.len() as int).reverse(),
            decreases i,
        {
            i = i - 1;
            let ghost before = text@;
            text.push(digits[i]);
            assert(digits@.subrange(i as int, digits.len() as int).reverse() =~= digits@.subrange(
                i + 1,
                digits.len() as int,
            ).reverse().push(digits@[i as int]));
            assert(text@ =~= decimal_text(n as nat) + digits@.subrange(i as int, digits.len() as int).reverse());
        }
        assert(digits@.subrange(0, digits.len() as int) =~= digits@);
        string_from_chars(&text)
    }
}

/// Path segments of a dotted configuration option path.
pub fn config_path(path: &str) -> (segments: Vec<String>)
    ensures
        string_views(segments@) == split_on(path@, '.'),
{
    let chars = chars_of(path);
    split_vec(&chars, '.')
}

} // verus!

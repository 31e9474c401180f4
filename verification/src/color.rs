//! Colors and their encodings.
//!
//! A color is a [`Vec3`] whose components are nominally in `[0, 1]`.
//! Output encoding follows the display convention: gamma-correct each
//! channel with a square root, clamp to `[0, 0.999]`, scale by 256 and
//! truncate to a byte.

use vstd::prelude::*;
use vstd::string::StrSliceExecFns;
use crate::fixed::{fx_div, fx_mul, fx_sqrt, tdiv, Fx, FX_SCALE};
use crate::text::push_char;
use crate::vec3::{Vec3, V3};

verus! {

/// A color in RGB space; an alias for `Vec3`.
pub type Color = Vec3;

/// The clamp ceiling for output channels: 0.999 in fixed point, kept just
/// below one so that the scaled byte can never reach 256.
pub const RGB_CLAMP_BITS: i64 = 65470;

/// A linear channel gamma-corrected for display: the square root of the
/// positive part.
pub fn linear_to_gamma(linear: Fx) -> (r: Fx)
    ensures
        r@ == fx_sqrt(linear@),
{
    linear.sqrt()
}

/// The inverse of `linear_to_gamma`: the square of a gamma channel.
pub fn gamma_to_linear(gamma: Fx) -> (r: Fx)
    ensures
        r@ == fx_mul(gamma@, gamma@),
{
    gamma.mul(gamma)
}

/// A color gamma-corrected channel by channel.
pub fn linear_color_to_gamma(color: Vec3) -> (r: Vec3)
    ensures
        r@ == (V3 { x: fx_sqrt(color@.x), y: fx_sqrt(color@.y), z: fx_sqrt(color@.z) }),
{
    Vec3 {
        x: linear_to_gamma(color.x),
        y: linear_to_gamma(color.y),
        z: linear_to_gamma(color.z),
    }
}

/// A gamma-corrected color squared back to linear, channel by channel.
pub fn gamma_color_to_linear(color: Vec3) -> (r: Vec3)
    ensures
        r@ == (V3 {
            x: fx_mul(color@.x, color@.x),
            y: fx_mul(color@.y, color@.y),
            z: fx_mul(color@.z, color@.z),
        }),
{
    Vec3 {
        x: gamma_to_linear(color.x),
        y: gamma_to_linear(color.y),
        z: gamma_to_linear(color.z),
    }
}

/// The display byte of a linear channel: gamma-correct, clamp to
/// `[0, 0.999]`, scale by 256 and truncate.
pub open spec fn rgb_byte(c: int) -> int {
    let g = fx_sqrt(c);
    let gc = if g > RGB_CLAMP_BITS as int {
        RGB_CLAMP_BITS as int
    } else {
        g
    };
    tdiv(gc * 256, FX_SCALE as int)
}

/// Every display byte fits in eight bits.
pub proof fn lemma_rgb_byte_range(c: int)
    ensures
        0 <= rgb_byte(c) <= 255,
{
    let g = fx_sqrt(c);
    assert(g >= 0);
    let gc = if g > RGB_CLAMP_BITS as int {
        RGB_CLAMP_BITS as int
    } else {
        g
    };
    vstd::arithmetic::div_mod::lemma_div_pos_is_pos(gc * 256, FX_SCALE as int);
    vstd::arithmetic::div_mod::lemma_div_is_ordered(gc * 256, (65470 * 256) as int, FX_SCALE as int);
}

/// The display byte of one channel.
fn byte_of(c: Fx) -> (r: u8)
    ensures
        r as int == rgb_byte(c@),
{
    let g = linear_to_gamma(c);
    let gbits: i64 = if g.bits > RGB_CLAMP_BITS {
        RGB_CLAMP_BITS
    } else {
        g.bits
    };
    proof {
        assert(g@ >= 0);
        lemma_rgb_byte_range(c@);
        assert(tdiv(gbits * 256, FX_SCALE as int) == (gbits * 256) / (FX_SCALE as int));
    }
    let v: u64 = (gbits as u64) * 256 / 65536;
    v as u8
}

impl Color {
    /// The three display bytes of the color.
    pub fn to_rgb_bytes(self) -> (r: [u8; 3])
        ensures
            r@ == seq![
                rgb_byte(self@.x) as u8,
                rgb_byte(self@.y) as u8,
                rgb_byte(self@.z) as u8,
            ],
    {
        let out: [u8; 3] = [byte_of(self.x), byte_of(self.y), byte_of(self.z)];
        proof {
            assert(out@ =~= seq![
                rgb_byte(self@.x) as u8,
                rgb_byte(self@.y) as u8,
                rgb_byte(self@.z) as u8,
            ]);
        }
        out
    }

    /// The color as `#rrggbb`, lowercase hex digits of the display bytes.
    pub fn to_hex(&self) -> (r: String)
        ensures
            r@ == seq![
                '#',
                hex_digit_spec(rgb_byte(self@.x) / 16),
                hex_digit_spec(rgb_byte(self@.x) % 16),
                hex_digit_spec(rgb_byte(self@.y) / 16),
                hex_digit_spec(rgb_byte(self@.y) % 16),
                hex_digit_spec(rgb_byte(self@.z) / 16),
                hex_digit_spec(rgb_byte(self@.z) % 16),
            ],
    {
        let bytes = self.to_rgb_bytes();
        proof {
            lemma_rgb_byte_range(self@.x);
            lemma_rgb_byte_range(self@.y);
            lemma_rgb_byte_range(self@.z);
        }
        let mut s = String::new();
        push_char(&mut s, '#');
        push_char(&mut s, hex_digit(bytes[0] / 16));
        push_char(&mut s, hex_digit(bytes[0] % 16));
        push_char(&mut s, hex_digit(bytes[1] / 16));
        push_char(&mut s, hex_digit(bytes[1] % 16));
        push_char(&mut s, hex_digit(bytes[2] / 16));
        push_char(&mut s, hex_digit(bytes[2] % 16));
        proof {
            assert(s@ =~= seq![
                '#',
                hex_digit_spec(rgb_byte(self@.x) / 16),
                hex_digit_spec(rgb_byte(self@.x) % 16),
                hex_digit_spec(rgb_byte(self@.y) / 16),
                hex_digit_spec(rgb_byte(self@.y) % 16),
                hex_digit_spec(rgb_byte(self@.z) / 16),
                hex_digit_spec(rgb_byte(self@.z) % 16),
            ]);
        }
        s
    }

    /// A color parsed from `#rrggbb` hex notation. Any number of leading
    /// `#` marks is skipped; exactly six hex digits must follow, and
    /// anything after them is ignored. Each byte is divided by 255.
    pub fn from_hex(hex: &str) -> (r: Result<Color, ColorParseError>)
        ensures
            r is Ok <==> hex_ok(hex@),
            r is Ok ==> r->Ok_0@ == hex_color(hex@),
            r is Err ==> ((r->Err_0 == ColorParseError::MissingDigits) <==> trimmed(
                hex@,
            ).len() < 6),
    {
        let len = hex.unicode_len();
        let mut idx: usize = 0;
        while idx < len && hex.get_char(idx) == '#'
            invariant
                0 <= idx <= len,
                len == hex@.len(),
                forall|j: int| 0 <= j < idx ==> hex@[j] == '#',
            decreases len - idx,
        {
            idx = idx + 1;
        }
        proof {
            lemma_leading_hashes(hex@, idx as int);
        }
        if len - idx < 6 {
            return Err(ColorParseError::MissingDigits);
        }
        let d0 = hex_nibble(hex.get_char(idx));
        let d1 = hex_nibble(hex.get_char(idx + 1));
        let d2 = hex_nibble(hex.get_char(idx + 2));
        let d3 = hex_nibble(hex.get_char(idx + 3));
        let d4 = hex_nibble(hex.get_char(idx + 4));
        let d5 = hex_nibble(hex.get_char(idx + 5));
        proof {
            assert(trimmed(hex@)[0] == hex@[idx as int]);
            assert(trimmed(hex@)[1] == hex@[idx as int + 1]);
            assert(trimmed(hex@)[2] == hex@[idx as int + 2]);
            assert(trimmed(hex@)[3] == hex@[idx as int + 3]);
            assert(trimmed(hex@)[4] == hex@[idx as int + 4]);
            assert(trimmed(hex@)[5] == hex@[idx as int + 5]);
        }
        match (d0, d1, d2, d3, d4, d5) {
            (Some(h0), Some(l0), Some(h1), Some(l1), Some(h2), Some(l2)) => {
                let rb: u8 = h0 * 16 + l0;
                let gb: u8 = h1 * 16 + l1;
                let bb: u8 = h2 * 16 + l2;
                Ok(Vec3 {
                    x: Fx::from_ratio(rb as i64, 255),
                    y: Fx::from_ratio(gb as i64, 255),
                    z: Fx::from_ratio(bb as i64, 255),
                })
            },
            _ => Err(ColorParseError::InvalidDigit),
        }
    }
}

/// Why a hex color string was rejected.
#[derive(Clone, Copy, Debug, PartialEq, Eq, Structural)]
pub enum ColorParseError {
    /// Fewer than six characters after the leading `#` marks.
    MissingDigits,
    /// A character among the first six is not a hex digit.
    InvalidDigit,
}

/// The value of a hex digit, or -1 for any other character.
pub open spec fn hex_val(c: char) -> int {
    if c == '0' { 0 } else if c == '1' { 1 } else if c == '2' { 2 } else if c == '3' { 3 }
    else if c == '4' { 4 } else if c == '5' { 5 } else if c == '6' { 6 } else if c == '7' { 7 }
    else if c == '8' { 8 } else if c == '9' { 9 } else if c == 'a' || c == 'A' { 10 }
    else if c == 'b' || c == 'B' { 11 } else if c == 'c' || c == 'C' { 12 }
    else if c == 'd' || c == 'D' { 13 } else if c == 'e' || c == 'E' { 14 }
    else if c == 'f' || c == 'F' { 15 } else { -1 }
}

/// How many `#` marks the string starts with.
pub open spec fn num_hashes(s: Seq<char>) -> int
    decreases s.len(),
{
    if s.len() > 0 && s[0] == '#' {
        1 + num_hashes(s.subrange(1, s.len() as int))
    } else {
        0
    }
}

/// The string with its leading `#` marks removed.
pub open spec fn trimmed(s: Seq<char>) -> Seq<char> {
    s.subrange(num_hashes(s), s.len() as int)
}

/// Whether the string holds a parseable hex color.
pub open spec fn hex_ok(s: Seq<char>) -> bool {
    trimmed(s).len() >= 6 && forall|i: int| 0 <= i < 6 ==> hex_val(#[trigger] trimmed(s)[i]) >= 0
}

/// The byte spelled by hex digits `2k` and `2k + 1` after the `#` marks.
pub open spec fn hex_byte(s: Seq<char>, k: int) -> int {
    16 * hex_val(trimmed(s)[2 * k]) + hex_val(trimmed(s)[2 * k + 1])
}

/// The color a hex string denotes: each byte divided by 255.
pub open spec fn hex_color(s: Seq<char>) -> V3 {
    V3 {
        x: fx_div(hex_byte(s, 0), 255),
        y: fx_div(hex_byte(s, 1), 255),
        z: fx_div(hex_byte(s, 2), 255),
    }
}

/// A prefix of `i` hash marks followed by a non-hash pins `num_hashes`.
proof fn lemma_leading_hashes(s: Seq<char>, i: int)
    requires
        0 <= i <= s.len(),
        forall|j: int| 0 <= j < i ==> s[j] == '#',
        i == s.len() || s[i] != '#',
    ensures
        num_hashes(s) == i,
    decreases i,
{
    if i == 0 {
    } else {
        let t = s.subrange(1, s.len() as int);
        assert(forall|j: int| 0 <= j < i - 1 ==> t[j] == '#');
        assert(i - 1 == t.len() || t[i - 1] != '#');
        lemma_leading_hashes(t, i - 1);
    }
}

/// The lowercase hex digit for a value below 16; other values share the
/// last digit.
pub open spec fn hex_digit_spec(n: int) -> char {
    if n == 0 { '0' } else if n == 1 { '1' } else if n == 2 { '2' } else if n == 3 { '3' }
    else if n == 4 { '4' } else if n == 5 { '5' } else if n == 6 { '6' } else if n == 7 { '7' }
    else if n == 8 { '8' } else if n == 9 { '9' } else if n == 10 { 'a' } else if n == 11 { 'b' }
    else if n == 12 { 'c' } else if n == 13 { 'd' } else if n == 14 { 'e' } else { 'f' }
}

/// The lowercase hex digit of a nibble.
fn hex_digit(n: u8) -> (r: char)
    requires
        n < 16,
    ensures
        r == hex_digit_spec(n as int),
{
    if n == 0 { '0' } else if n == 1 { '1' } else if n == 2 { '2' } else if n == 3 { '3' }
    else if n == 4 { '4' } else if n == 5 { '5' } else if n == 6 { '6' } else if n == 7 { '7' }
    else if n == 8 { '8' } else if n == 9 { '9' } else if n == 10 { 'a' } else if n == 11 { 'b' }
    else if n == 12 { 'c' } else if n == 13 { 'd' } else if n == 14 { 'e' } else { 'f' }
}

/// The nibble value of a hex digit character, if it is one.
fn hex_nibble(c: char) -> (r: Option<u8>)
    ensures
        r is Some <==> hex_val(c) >= 0,
        r is Some ==> r->0 as int == hex_val(c),
{
    if c == '0' { Some(0) } else if c == '1' { Some(1) } else if c == '2' { Some(2) }
    else if c == '3' { Some(3) } else if c == '4' { Some(4) } else if c == '5' { Some(5) }
    else if c == '6' { Some(6) } else if c == '7' { Some(7) } else if c == '8' { Some(8) }
    else if c == '9' { Some(9) } else if c == 'a' || c == 'A' { Some(10) }
    else if c == 'b' || c == 'B' { Some(11) } else if c == 'c' || c == 'C' { Some(12) }
    else if c == 'd' || c == 'D' { Some(13) } else if c == 'e' || c == 'E' { Some(14) }
    else if c == 'f' || c == 'F' { Some(15) } else { None }
}

} // verus!

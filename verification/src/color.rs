//! RGB color values and linear interpolation.
//!
//! Interpolation positions are rational numbers `num / den`, so every
//! channel computation is exact integer arithmetic.

use vstd::prelude::*;

verus! {

/// One color of a single LED: three 8-bit channels.
#[derive(Clone, Copy, PartialEq, Eq, Structural, Debug)]
pub struct Color {
    pub r: u8,
    pub g: u8,
    pub b: u8,
}

pub open spec fn spec_rgb(r: u8, g: u8, b: u8) -> Color {
    Color { r, g, b }
}

pub open spec fn spec_black() -> Color {
    spec_rgb(0, 0, 0)
}

pub open spec fn spec_white() -> Color {
    spec_rgb(255, 255, 255)
}

pub open spec fn spec_gray() -> Color {
    spec_rgb(80, 65, 80)
}

pub open spec fn spec_dim_gray() -> Color {
    spec_rgb(40, 35, 40)
}

pub open spec fn spec_red() -> Color {
    spec_rgb(255, 0, 0)
}

pub open spec fn spec_green() -> Color {
    spec_rgb(0, 255, 0)
}

pub open spec fn spec_blue() -> Color {
    spec_rgb(0, 0, 255)
}

pub open spec fn spec_purple() -> Color {
    spec_rgb(255, 0, 255)
}

/// The all-zero color; doubles as the "no flash overlay" sentinel.
#[verifier::when_used_as_spec(spec_black)]
pub fn black() -> (c: Color)
    ensures
        c == spec_black(),
{
    Color { r: 0, g: 0, b: 0 }
}

/// The default display color of a progress source that was never seeded.
#[verifier::when_used_as_spec(spec_white)]
pub fn white() -> (c: Color)
    ensures
        c == spec_white(),
{
    Color { r: 255, g: 255, b: 255 }
}

/// A muted resting color.
#[verifier::when_used_as_spec(spec_gray)]
pub fn gray() -> (c: Color)
    ensures
        c == spec_gray(),
{
    Color { r: 80, g: 65, b: 80 }
}

/// The dim substrate shown while the screen is locked.
#[verifier::when_used_as_spec(spec_dim_gray)]
pub fn dim_gray() -> (c: Color)
    ensures
        c == spec_dim_gray(),
{
    Color { r: 40, g: 35, b: 40 }
}

/// Flash color for a vanished progress source whose bar was visible.
#[verifier::when_used_as_spec(spec_red)]
pub fn red() -> (c: Color)
    ensures
        c == spec_red(),
{
    Color { r: 255, g: 0, b: 0 }
}

/// Flash color for a fresh progress source with more entries to come.
#[verifier::when_used_as_spec(spec_green)]
pub fn green() -> (c: Color)
    ensures
        c == spec_green(),
{
    Color { r: 0, g: 255, b: 0 }
}

/// Flash color for a progress source without a visible bar.
#[verifier::when_used_as_spec(spec_blue)]
pub fn blue() -> (c: Color)
    ensures
        c == spec_blue(),
{
    Color { r: 0, g: 0, b: 255 }
}

/// Flash color for a finished or hidden progress source.
#[verifier::when_used_as_spec(spec_purple)]
pub fn purple() -> (c: Color)
    ensures
        c == spec_purple(),
{
    Color { r: 255, g: 0, b: 255 }
}

/// Builds a color from its three channels in `[r, g, b]` order.
pub fn u8_to_col(arr: [u8; 3]) -> (c: Color)
    ensures
        c == spec_rgb(arr[0], arr[1], arr[2]),
{
    Color { r: arr[0], g: arr[1], b: arr[2] }
}

/// One channel of `lerp_color`: the weighted mean
/// `(from * (den - num) + to * num) / den`, truncated.
pub open spec fn lerp_channel(from: u8, to: u8, num: int, den: int) -> int {
    (from * (den - num) + to * num) / den
}

/// Channel-wise linear interpolation between two colors at position
/// `num / den` (clamped to 1 when `num > den`).
pub open spec fn spec_lerp_color(from: Color, to: Color, num: int, den: int) -> Color {
    let n = if num > den { den } else { num };
    Color {
        r: lerp_channel(from.r, to.r, n, den) as u8,
        g: lerp_channel(from.g, to.g, n, den) as u8,
        b: lerp_channel(from.b, to.b, n, den) as u8,
    }
}

/// A lerped channel stays within the range spanned by 8-bit endpoints.
pub proof fn lemma_lerp_channel_bounds(from: u8, to: u8, num: int, den: int)
    requires
        0 <= num <= den,
        0 < den,
    ensures
        0 <= from * (den - num),
        0 <= to * num,
        from * (den - num) + to * num <= 255 * den,
        0 <= lerp_channel(from, to, num, den) <= 255,
{
    assert(from * (den - num) + to * num <= 255 * den && from * (den - num) >= 0 && to * num
        >= 0) by (nonlinear_arith)
        requires
            0 <= num <= den,
            0 < den,
            from <= 255,
            to <= 255,
    ;
    assert(255 * den / den == 255) by (nonlinear_arith)
        requires
            0 < den,
    ;
    vstd::arithmetic::div_mod::lemma_div_is_ordered(
        from * (den - num) + to * num,
        255 * den,
        den,
    );
    vstd::arithmetic::div_mod::lemma_div_pos_is_pos(from * (den - num) + to * num, den);
}

/// Linear interpolation between `from` and `to` at position `num / den`.
/// `num` values above `den` are clamped, so the position always lies in
/// `[0, 1]`; each channel is truncated toward zero.
pub fn lerp_color(from: &Color, to: &Color, num: u32, den: u32) -> (c: Color)
    requires
        den > 0,
    ensures
        c == spec_lerp_color(*from, *to, num as int, den as int),
{
    let n: u32 = if num > den {
        den
    } else {
        num
    };
    proof {
        lemma_lerp_channel_bounds(from.r, to.r, n as int, den as int);
        lemma_lerp_channel_bounds(from.g, to.g, n as int, den as int);
        lemma_lerp_channel_bounds(from.b, to.b, n as int, den as int);
        assert(255 * (den as int) <= 255 * 0xFFFF_FFFF);
    }
    let r: u64 = (from.r as u64 * (den - n) as u64 + to.r as u64 * n as u64) / den as u64;
    let g: u64 = (from.g as u64 * (den - n) as u64 + to.g as u64 * n as u64) / den as u64;
    let b: u64 = (from.b as u64 * (den - n) as u64 + to.b as u64 * n as u64) / den as u64;
    Color { r: r as u8, g: g as u8, b: b as u8 }
}

/// Wide accumulator for summing many color contributions without 8-bit
/// clipping, before dividing by the contributor count. Scratch state of a
/// single composite pass; never persisted.
#[derive(Clone, Copy, PartialEq, Eq, Structural, Debug)]
pub struct WideColor {
    pub r: u128,
    pub g: u128,
    pub b: u128,
}

impl WideColor {
    /// The zero accumulator.
    pub fn zero() -> (w: WideColor)
        ensures
            w.r == 0 && w.g == 0 && w.b == 0,
    {
        WideColor { r: 0, g: 0, b: 0 }
    }

    /// Adds one 8-bit color contribution, channel-wise.
    pub fn add(&mut self, rhs: &Color)
        requires
            old(self).r + rhs.r <= u128::MAX,
            old(self).g + rhs.g <= u128::MAX,
            old(self).b + rhs.b <= u128::MAX,
        ensures
            final (self).r == old(self).r + rhs.r,
            final (self).g == old(self).g + rhs.g,
            final (self).b == old(self).b + rhs.b,
    {
        self.r = self.r + rhs.r as u128;
        self.g = self.g + rhs.g as u128;
        self.b = self.b + rhs.b as u128;
    }
}

/// The color a CSS color string denotes, if any: what
/// `css_color_parser` computes from the characters alone (alpha dropped).
pub uninterp spec fn css_color_of(s: Seq<char>) -> Option<(u8, u8, u8)>;

/// Relies on `css_color_parser::Color`'s `FromStr`: parses CSS3 color
/// strings (hex, rgb()/rgba(), named colors) without panicking; the result
/// depends on the string alone. The alpha channel is dropped here.
#[verifier::external_body]
fn css_parse(s: &str) -> (r: Option<(u8, u8, u8)>)
    ensures
        r == css_color_of(s@),
{
    match s.parse::<css_color_parser::Color>() {
        Ok(c) => Some((c.r, c.g, c.b)),
        Err(_) => None,
    }
}

/// The color `try_parse_hex` returns: the parsed CSS color, or nothing
/// when the string does not denote one.
pub open spec fn spec_try_parse_hex(s: Seq<char>) -> Option<Color> {
    match css_color_of(s) {
        Some(t) => Some(Color { r: t.0, g: t.1, b: t.2 }),
        None => None,
    }
}

/// Parses a CSS color string into a `Color`, reporting failure. A color
/// read from configuration must come through here, so that a string that
/// denotes no color can refuse startup instead of silently running with
/// an undefined color.
pub fn try_parse_hex(col: &str) -> (c: Option<Color>)
    ensures
        c == spec_try_parse_hex(col@),
{
    match css_parse(col) {
        Some(t) => Some(Color { r: t.0, g: t.1, b: t.2 }),
        None => None,
    }
}

/// The color `parse_hex` returns: the parsed CSS color, or black when the
/// string does not denote one.
pub open spec fn spec_parse_hex(s: Seq<char>) -> Color {
    match spec_try_parse_hex(s) {
        Some(c) => c,
        None => spec_black(),
    }
}

/// Parses a CSS color string into a `Color`, falling back to black on any
/// string that denotes no color: only for fixed palette strings known to
/// parse. Configuration goes through `try_parse_hex`, whose result
/// distinguishes the failure.
pub fn parse_hex(col: &str) -> (c: Color)
    ensures
        c == spec_parse_hex(col@),
{
    match try_parse_hex(col) {
        Some(c) => c,
        None => black(),
    }
}

/// Interpolating a color with itself is the identity, at every position.
pub proof fn lemma_lerp_color_self(c: Color, num: int, den: int)
    requires
        0 < den,
        0 <= num,
    ensures
        spec_lerp_color(c, c, num, den) == c,
{
    let n = if num > den { den } else { num };
    assert(c.r * (den - n) + c.r * n == c.r * den) by (nonlinear_arith);
    assert(c.g * (den - n) + c.g * n == c.g * den) by (nonlinear_arith);
    assert(c.b * (den - n) + c.b * n == c.b * den) by (nonlinear_arith);
    assert(c.r * den / den == c.r as int) by (nonlinear_arith)
        requires
            0 < den,
    ;
    assert(c.g * den / den == c.g as int) by (nonlinear_arith)
        requires
            0 < den,
    ;
    assert(c.b * den / den == c.b as int) by (nonlinear_arith)
        requires
            0 < den,
    ;
}

/// At position 0 interpolation returns the first endpoint; at position 1
/// (`num == den`) it returns the second.
pub proof fn lemma_lerp_color_endpoints(a: Color, b: Color, den: int)
    requires
        0 < den,
    ensures
        spec_lerp_color(a, b, 0, den) == a,
        spec_lerp_color(a, b, den, den) == b,
{
    assert(a.r * (den - 0) + b.r * 0 == a.r * den) by (nonlinear_arith);
    assert(a.g * (den - 0) + b.g * 0 == a.g * den) by (nonlinear_arith);
    assert(a.b * (den - 0) + b.b * 0 == a.b * den) by (nonlinear_arith);
    assert(a.r * (den - den) + b.r * den == b.r * den) by (nonlinear_arith);
    assert(a.g * (den - den) + b.g * den == b.g * den) by (nonlinear_arith);
    assert(a.b * (den - den) + b.b * den == b.b * den) by (nonlinear_arith);
    assert(a.r * den / den == a.r as int) by (nonlinear_arith)
        requires
            0 < den,
    ;
    assert(a.g * den / den == a.g as int) by (nonlinear_arith)
        requires
            0 < den,
    ;
    assert(a.b * den / den == a.b as int) by (nonlinear_arith)
        requires
            0 < den,
    ;
    assert(b.r * den / den == b.r as int) by (nonlinear_arith)
        requires
            0 < den,
    ;
    assert(b.g * den / den == b.g as int) by (nonlinear_arith)
        requires
            0 < den,
    ;
    assert(b.b * den / den == b.b as int) by (nonlinear_arith)
        requires
            0 < den,
    ;
}

} // verus!

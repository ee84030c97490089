//! The color model: variants, hex parsing, canonical text and color-space conversion.
use vstd::prelude::*;

use crate::text::{
    dec_text, hex_char_value, hex_digit, hex_fixed, hex_number, hex_value, is_hex_char, is_hex_digit,
    push_char, push_decimal, push_hex_fixed, push_str,
};

verus! {

/// A color as it can appear in a stylesheet.
#[derive(PartialEq, Eq, Debug)]
pub enum Color {
    /// A named color, written as is.
    Named(String),
    /// `0xRRGGBBAA`, written `#RRGGBBAA`.
    Hex(u32),
    /// `0xRRGGBB`, written `#RRGGBB`.
    OpaqueHex(u32),
    Rgb { r: u8, g: u8, b: u8 },
    Rgba { r: u8, g: u8, b: u8, a: u8 },
    /// Hue in degrees `[0, 360)`, saturation and lightness in percent `[0, 100]`.
    Hsl { h: u16, s: u8, l: u8 },
    Hsla { h: u16, s: u8, l: u8, a: u8 },
    /// A reference to a custom property, with an optional fallback color.
    Var { var: String, fallback: Option<Box<Color>> },
    /// Raw stylesheet text.
    Literal(String),
}

/// Red, green, blue and alpha channels, each `0..=255`.
#[derive(Clone, Copy, PartialEq, Eq, Structural, Debug)]
pub struct RgbaChannels {
    pub r: u8,
    pub g: u8,
    pub b: u8,
    pub a: u8,
}

/// Hue in degrees, saturation and lightness in percent, alpha `0..=255`.
#[derive(Clone, Copy, PartialEq, Eq, Structural, Debug)]
pub struct HslaChannels {
    pub h: u16,
    pub s: u8,
    pub l: u8,
    pub a: u8,
}

impl HslaChannels {
    pub open spec fn wf(&self) -> bool {
        self.h < 360 && self.s <= 100 && self.l <= 100
    }
}

/// Text that is not `#` followed by six or eight hexadecimal digits.
#[derive(Clone, PartialEq, Eq, Debug)]
pub struct ColorParseError {
    pub fragment: String,
}

/// A color that cannot be converted without a theme or a name table.
#[derive(Clone, Copy, PartialEq, Eq, Structural, Debug)]
pub enum ConversionError {
    /// Named colors, custom-property references and raw text have no channels.
    NoChannels,
}

/// `x / y` rounded to the nearest integer, halves upwards (`x >= 0`, `y > 0`).
pub open spec fn round_div(x: int, y: int) -> int {
    (2 * x + y) / (2 * y)
}

/// The `q` term of the HSL conversion, scaled by `10_000`.
pub open spec fn hsl_q(s: int, l: int) -> int {
    if l < 50 {
        l * (100 + s)
    } else {
        100 * l + 100 * s - l * s
    }
}

/// The `p` term of the HSL conversion, scaled by `10_000`.
pub open spec fn hsl_p(s: int, l: int) -> int {
    200 * l - hsl_q(s, l)
}

/// A hue offset in degrees brought back into `[0, 360]`.
pub open spec fn wrap_hue(t: int) -> int {
    if t < 0 {
        t + 360
    } else if t > 360 {
        t - 360
    } else {
        t
    }
}

/// One channel of the hue rotation at hue `t` degrees, scaled by `600_000`.
pub open spec fn hue_channel(p: int, q: int, t: int) -> int {
    if t < 60 {
        60 * p + (q - p) * t
    } else if t < 180 {
        60 * q
    } else if t < 240 {
        60 * p + (q - p) * (240 - t)
    } else {
        60 * p
    }
}

/// One channel `0..=255` of the color with hue `h`, saturation `s` and lightness `l`,
/// sampled at hue offset `shift` degrees, rounded to the nearest integer.
pub open spec fn hsl_channel(h: int, s: int, l: int, shift: int) -> int {
    round_div(255 * hue_channel(hsl_p(s, l), hsl_q(s, l), wrap_hue(h + shift)), 600_000)
}

/// The rgb channels of an hsl color: red at `+120` degrees, green at `0`, blue at `-120`.
pub open spec fn hsl_rgb(h: int, s: int, l: int) -> Seq<int> {
    seq![hsl_channel(h, s, l, 120), hsl_channel(h, s, l, 0), hsl_channel(h, s, l, -120)]
}

proof fn lemma_hsl_terms(s: int, l: int)
    requires
        0 <= s <= 100,
        0 <= l <= 100,
    ensures
        0 <= hsl_p(s, l) <= hsl_q(s, l) <= 10_000,
{
    if l < 50 {
        assert(l * (100 + s) <= 49 * 200) by (nonlinear_arith)
            requires
                0 <= s <= 100,
                0 <= l < 50,
        ;
        assert(l * s <= 100 * l) by (nonlinear_arith)
            requires
                0 <= s <= 100,
                0 <= l,
        ;
        assert(l * (100 + s) == 100 * l + l * s) by (nonlinear_arith);
    } else {
        assert(s * (100 - l) <= 100 * (100 - l)) by (nonlinear_arith)
            requires
                0 <= s <= 100,
                l <= 100,
        ;
        assert(s * (100 - l) >= 0) by (nonlinear_arith)
            requires
                0 <= s,
                l <= 100,
        ;
        assert(100 * s - l * s == s * (100 - l)) by (nonlinear_arith);
    }
}

proof fn lemma_hue_channel_bounds(p: int, q: int, t: int)
    requires
        0 <= p <= q <= 10_000,
        0 <= t <= 360,
    ensures
        0 <= hue_channel(p, q, t) <= 600_000,
{
    if t < 60 {
        assert(0 <= (q - p) * t <= (q - p) * 60) by (nonlinear_arith)
            requires
                0 <= q - p,
                0 <= t < 60,
        ;
    } else if t < 180 {
    } else if t < 240 {
        assert(0 <= (q - p) * (240 - t) <= (q - p) * 60) by (nonlinear_arith)
            requires
                0 <= q - p,
                180 <= t < 240,
        ;
    }
}

/// One channel of the hue rotation at hue offset `t` degrees (brought back into
/// `[0, 360]` first), scaled by `600_000`; it lies between `60 * p` and `60 * q`.
fn hue_to_rgb(p: u64, q: u64, t: i64) -> (r: u64)
    requires
        p <= q <= 10_000,
        -360 <= t <= 720,
    ensures
        r == hue_channel(p as int, q as int, wrap_hue(t as int)),
        60 * p <= r <= 60 * q,
        r <= 600_000,
{
    let u: i64 = if t < 0 {
        t + 360
    } else if t > 360 {
        t - 360
    } else {
        t
    };
    let u: u64 = if u < 0 {
        0
    } else if u > 360 {
        360
    } else {
        u as u64
    };
    proof {
        assert(u as int == wrap_hue(t as int));
        lemma_hue_channel_bounds(p as int, q as int, u as int);
    }
    if u < 60 {
        assert(0 <= (q - p) * u <= (q - p) * 60) by (nonlinear_arith)
            requires
                p <= q,
                u < 60,
        ;
        60 * p + (q - p) * u
    } else if u < 180 {
        60 * q
    } else if u < 240 {
        assert(0 <= (q - p) * (240 - u) <= (q - p) * 60) by (nonlinear_arith)
            requires
                p <= q,
                180 <= u < 240,
        ;
        60 * p + (q - p) * (240 - u)
    } else {
        60 * p
    }
}

fn scale_channel(n: u64) -> (r: u8)
    requires
        n <= 600_000,
    ensures
        r as int == round_div(255 * n as int, 600_000),
{
    let m: u64 = 510 * n + 600_000;
    assert(m <= 306_600_000);
    assert(m / 1_200_000 <= 255);
    assert(round_div(255 * n as int, 600_000) == m / 1_200_000);
    (m / 1_200_000) as u8
}

/// Converts an hsl color to rgb: hue in degrees, saturation and lightness in percent.
/// Each channel is the exact rational result of the standard conversion times 255,
/// rounded to the nearest integer.
pub fn hsl_to_rgb(h: u16, s: u8, l: u8) -> (r: [u8; 3])
    requires
        h < 360,
        s <= 100,
        l <= 100,
    ensures
        r@.len() == 3,
        forall|i: int| 0 <= i < 3 ==> r@[i] as int == #[trigger] hsl_rgb(h as int, s as int, l as int)[i],
{
    proof {
        lemma_hsl_terms(s as int, l as int);
    }
    let (h, s, l) = (h as u64, s as u64, l as u64);
    let q: u64 = if l < 50 {
        l * (100 + s)
    } else {
        assert(l * s <= 100 * 100) by (nonlinear_arith)
            requires
                l <= 100,
                s <= 100,
        ;
        100 * l + 100 * s - l * s
    };
    let p: u64 = 200 * l - q;
    let r = scale_channel(hue_to_rgb(p, q, h as i64 + 120));
    let g = scale_channel(hue_to_rgb(p, q, h as i64));
    let b = scale_channel(hue_to_rgb(p, q, h as i64 - 120));
    let out = [r, g, b];
    assert(out@[0] == r && out@[1] == g && out@[2] == b);
    out
}

/// The hue in degrees `[0, 360)` of rgb channels, rounded.
pub open spec fn rgb_hue(r: int, g: int, b: int) -> int {
    let mx = if r >= g && r >= b {
        r
    } else if g >= b {
        g
    } else {
        b
    };
    let mn = if r <= g && r <= b {
        r
    } else if g <= b {
        g
    } else {
        b
    };
    let d = mx - mn;
    if d == 0 {
        0
    } else {
        let scaled = if mx == r {
            360 * d + 60 * (g - b)
        } else if mx == g {
            480 * d + 60 * (b - r)
        } else {
            600 * d + 60 * (r - g)
        };
        round_div(scaled, d) % 360
    }
}

/// The saturation in percent of rgb channels, rounded.
pub open spec fn rgb_saturation(r: int, g: int, b: int) -> int {
    let mx = if r >= g && r >= b {
        r
    } else if g >= b {
        g
    } else {
        b
    };
    let mn = if r <= g && r <= b {
        r
    } else if g <= b {
        g
    } else {
        b
    };
    let d = mx - mn;
    let sum = mx + mn;
    if d == 0 {
        0
    } else if sum <= 255 {
        round_div(100 * d, sum)
    } else {
        round_div(100 * d, 510 - sum)
    }
}

/// The lightness in percent of rgb channels, rounded.
pub open spec fn rgb_lightness(r: int, g: int, b: int) -> int {
    let mx = if r >= g && r >= b {
        r
    } else if g >= b {
        g
    } else {
        b
    };
    let mn = if r <= g && r <= b {
        r
    } else if g <= b {
        g
    } else {
        b
    };
    round_div(100 * (mx + mn), 510)
}

/// Converts rgb channels to hsl: hue in degrees, saturation and lightness in percent.
pub fn rgb_to_hsl(r: u8, g: u8, b: u8) -> (out: (u16, u8, u8))
    ensures
        out.0 as int == rgb_hue(r as int, g as int, b as int),
        out.1 as int == rgb_saturation(r as int, g as int, b as int),
        out.2 as int == rgb_lightness(r as int, g as int, b as int),
        out.0 < 360,
        out.1 <= 100,
        out.2 <= 100,
{
    let (r, g, b) = (r as u64, g as u64, b as u64);
    let mx: u64 = if r >= g && r >= b {
        r
    } else if g >= b {
        g
    } else {
        b
    };
    let mn: u64 = if r <= g && r <= b {
        r
    } else if g <= b {
        g
    } else {
        b
    };
    let d: u64 = mx - mn;
    let sum: u64 = mx + mn;
    let l: u64 = (200 * sum + 510) / 1020;
    if d == 0 {
        return (0, 0, l as u8);
    }
    let s: u64 = if sum <= 255 {
        assert((200 * d + sum) / (2 * sum) <= 100) by (nonlinear_arith)
            requires
                0 < d <= sum,
        ;
        (200 * d + sum) / (2 * sum)
    } else {
        assert((200 * d + (510 - sum)) / (2 * (510 - sum)) <= 100) by (nonlinear_arith)
            requires
                0 < d <= 510 - sum,
        ;
        (200 * d + (510 - sum)) / (2 * (510 - sum))
    };
    let scaled: u64 = if mx == r {
        360 * d + 60 * g - 60 * b
    } else if mx == g {
        480 * d + 60 * b - 60 * r
    } else {
        600 * d + 60 * r - 60 * g
    };
    let h: u64 = ((2 * scaled + d) / (2 * d)) % 360;
    (h as u16, s as u8, l as u8)
}

impl Color {
    /// Creates a named color.
    pub fn named(name: &str) -> (r: Color)
        ensures
            r matches Color::Named(n) && n@ == name@,
    {
        Color::Named(name.to_owned())
    }

    /// Creates a color from `0xRRGGBBAA`.
    pub fn hex_code(value: u32) -> (r: Color)
        ensures
            r == Color::Hex(value),
    {
        Color::Hex(value)
    }

    /// The channel ranges: hue below 360 degrees, saturation and lightness at most 100
    /// percent, six-digit hex within 24 bits.
    pub open spec fn wf(&self) -> bool
        decreases self,
    {
        match self {
            Color::OpaqueHex(v) => *v < 0x100_0000,
            Color::Hsl { h, s, l } => *h < 360 && *s <= 100 && *l <= 100,
            Color::Hsla { h, s, l, .. } => *h < 360 && *s <= 100 && *l <= 100,
            Color::Var { fallback, .. } => match fallback {
                Some(f) => f.wf(),
                None => true,
            },
            _ => true,
        }
    }

    /// Whether the channels lie in their ranges.
    pub fn is_wf(&self) -> (r: bool)
        ensures
            r == self.wf(),
        decreases self,
    {
        match self {
            Color::OpaqueHex(v) => *v < 0x100_0000,
            Color::Hsl { h, s, l } => *h < 360 && *s <= 100 && *l <= 100,
            Color::Hsla { h, s, l, .. } => *h < 360 && *s <= 100 && *l <= 100,
            Color::Var { fallback, .. } => match fallback {
                Some(f) => f.is_wf(),
                None => true,
            },
            _ => true,
        }
    }

    /// The canonical stylesheet text of this color.
    pub open spec fn css_text(&self) -> Seq<char>
        decreases self,
    {
        match self {
            Color::Named(n) => n@,
            Color::Hex(v) => seq!['#'] + hex_fixed(*v as nat, 8),
            Color::OpaqueHex(v) => seq!['#'] + hex_fixed(*v as nat, 6),
            Color::Rgb { r, g, b } => "rgb("@ + dec_text(*r as nat) + ", "@ + dec_text(*g as nat)
                + ", "@ + dec_text(*b as nat) + ")"@,
            Color::Rgba { r, g, b, a } => "rgba("@ + dec_text(*r as nat) + ", "@ + dec_text(
                *g as nat,
            ) + ", "@ + dec_text(*b as nat) + ", "@ + dec_text(*a as nat) + ")"@,
            Color::Hsl { h, s, l } => "hsl("@ + dec_text(*h as nat) + ", "@ + dec_text(*s as nat)
                + ", "@ + dec_text(*l as nat) + ")"@,
            Color::Hsla { h, s, l, a } => "hsla("@ + dec_text(*h as nat) + ", "@ + dec_text(
                *s as nat,
            ) + ", "@ + dec_text(*l as nat) + ", "@ + dec_text(*a as nat) + ")"@,
            Color::Var { var, fallback } => match fallback {
                None => "var("@ + var@ + ")"@,
                Some(f) => "var("@ + var@ + ", "@ + f.css_text() + ")"@,
            },
            Color::Literal(t) => t@,
        }
    }

    /// Writes the canonical stylesheet text of this color.
    pub fn to_css(&self) -> (r: String)
        ensures
            r@ == self.css_text(),
        decreases self,
    {
        let mut out = String::new();
        match self {
            Color::Named(n) => {
                push_str(&mut out, n.as_str());
            },
            Color::Hex(v) => {
                push_char(&mut out, '#');
                push_hex_fixed(&mut out, *v, 8);
            },
            Color::OpaqueHex(v) => {
                push_char(&mut out, '#');
                push_hex_fixed(&mut out, *v, 6);
            },
            Color::Rgb { r, g, b } => {
                push_str(&mut out, "rgb(");
                push_decimal(&mut out, *r as u64);
                push_str(&mut out, ", ");
                push_decimal(&mut out, *g as u64);
                push_str(&mut out, ", ");
                push_decimal(&mut out, *b as u64);
                push_str(&mut out, ")");
            },
            Color::Rgba { r, g, b, a } => {
                push_str(&mut out, "rgba(");
                push_decimal(&mut out, *r as u64);
                push_str(&mut out, ", ");
                push_decimal(&mut out, *g as u64);
                push_str(&mut out, ", ");
                push_decimal(&mut out, *b as u64);
                push_str(&mut out, ", ");
                push_decimal(&mut out, *a as u64);
                push_str(&mut out, ")");
            },
            Color::Hsl { h, s, l } => {
                push_str(&mut out, "hsl(");
                push_decimal(&mut out, *h as u64);
                push_str(&mut out, ", ");
                push_decimal(&mut out, *s as u64);
                push_str(&mut out, ", ");
                push_decimal(&mut out, *l as u64);
                push_str(&mut out, ")");
            },
            Color::Hsla { h, s, l, a } => {
                push_str(&mut out, "hsla(");
                push_decimal(&mut out, *h as u64);
                push_str(&mut out, ", ");
                push_decimal(&mut out, *s as u64);
                push_str(&mut out, ", ");
                push_decimal(&mut out, *l as u64);
                push_str(&mut out, ", ");
                push_decimal(&mut out, *a as u64);
                push_str(&mut out, ")");
            },
            Color::Var { var, fallback } => {
                push_str(&mut out, "var(");
                push_str(&mut out, var.as_str());
                match fallback {
                    None => {},
                    Some(f) => {
                        push_str(&mut out, ", ");
                        let inner = f.to_css();
                        push_str(&mut out, inner.as_str());
                    },
                }
                push_str(&mut out, ")");
            },
            Color::Literal(t) => {
                push_str(&mut out, t.as_str());
            },
        }
        proof {
            reveal_strlit("rgb(");
            reveal_strlit("rgba(");
            reveal_strlit("hsl(");
            reveal_strlit("hsla(");
            reveal_strlit("var(");
            reveal_strlit(", ");
            reveal_strlit(")");
        }
        assert(out@ =~= self.css_text());
        out
    }

    /// The rgba channels of this color, where it has channels of its own.
    pub open spec fn rgba_spec(&self) -> Result<RgbaChannels, ConversionError> {
        match self {
            Color::Hex(v) => Ok(
                RgbaChannels {
                    r: (*v / 0x100_0000) as u8,
                    g: (*v / 0x1_0000 % 0x100) as u8,
                    b: (*v / 0x100 % 0x100) as u8,
                    a: (*v % 0x100) as u8,
                },
            ),
            Color::OpaqueHex(v) => Ok(
                RgbaChannels {
                    r: (*v / 0x1_0000 % 0x100) as u8,
                    g: (*v / 0x100 % 0x100) as u8,
                    b: (*v % 0x100) as u8,
                    a: 255,
                },
            ),
            Color::Rgb { r, g, b } => Ok(RgbaChannels { r: *r, g: *g, b: *b, a: 255 }),
            Color::Rgba { r, g, b, a } => Ok(RgbaChannels { r: *r, g: *g, b: *b, a: *a }),
            Color::Hsl { h, s, l } => Ok(
                RgbaChannels {
                    r: hsl_rgb(*h as int, *s as int, *l as int)[0] as u8,
                    g: hsl_rgb(*h as int, *s as int, *l as int)[1] as u8,
                    b: hsl_rgb(*h as int, *s as int, *l as int)[2] as u8,
                    a: 255,
                },
            ),
            Color::Hsla { h, s, l, a } => Ok(
                RgbaChannels {
                    r: hsl_rgb(*h as int, *s as int, *l as int)[0] as u8,
                    g: hsl_rgb(*h as int, *s as int, *l as int)[1] as u8,
                    b: hsl_rgb(*h as int, *s as int, *l as int)[2] as u8,
                    a: *a,
                },
            ),
            _ => Err(ConversionError::NoChannels),
        }
    }

    /// The rgba channels of this color; named colors, references and raw text fail.
    pub fn to_rgba(&self) -> (r: Result<RgbaChannels, ConversionError>)
        requires
            self.wf(),
        ensures
            r == self.rgba_spec(),
    {
        match self {
            Color::Hex(v) => Ok(
                RgbaChannels {
                    r: (*v / 0x100_0000) as u8,
                    g: (*v / 0x1_0000 % 0x100) as u8,
                    b: (*v / 0x100 % 0x100) as u8,
                    a: (*v % 0x100) as u8,
                },
            ),
            Color::OpaqueHex(v) => Ok(
                RgbaChannels {
                    r: (*v / 0x1_0000 % 0x100) as u8,
                    g: (*v / 0x100 % 0x100) as u8,
                    b: (*v % 0x100) as u8,
                    a: 255,
                },
            ),
            Color::Rgb { r, g, b } => Ok(RgbaChannels { r: *r, g: *g, b: *b, a: 255 }),
            Color::Rgba { r, g, b, a } => Ok(RgbaChannels { r: *r, g: *g, b: *b, a: *a }),
            Color::Hsl { h, s, l } => {
                let c = hsl_to_rgb(*h, *s, *l);
                Ok(RgbaChannels { r: c[0], g: c[1], b: c[2], a: 255 })
            },
            Color::Hsla { h, s, l, a } => {
                let c = hsl_to_rgb(*h, *s, *l);
                Ok(RgbaChannels { r: c[0], g: c[1], b: c[2], a: *a })
            },
            _ => Err(ConversionError::NoChannels),
        }
    }

    /// The hsla channels of this color, where it has channels of its own.
    pub open spec fn hsla_spec(&self) -> Result<HslaChannels, ConversionError> {
        match self {
            Color::Hsl { h, s, l } => Ok(HslaChannels { h: *h, s: *s, l: *l, a: 255 }),
            Color::Hsla { h, s, l, a } => Ok(HslaChannels { h: *h, s: *s, l: *l, a: *a }),
            _ => match self.rgba_spec() {
                Ok(c) => Ok(
                    HslaChannels {
                        h: rgb_hue(c.r as int, c.g as int, c.b as int) as u16,
                        s: rgb_saturation(c.r as int, c.g as int, c.b as int) as u8,
                        l: rgb_lightness(c.r as int, c.g as int, c.b as int) as u8,
                        a: c.a,
                    },
                ),
                Err(e) => Err(e),
            },
        }
    }

    /// The hsla channels of this color; named colors, references and raw text fail.
    pub fn to_hsla(&self) -> (r: Result<HslaChannels, ConversionError>)
        requires
            self.wf(),
        ensures
            r == self.hsla_spec(),
            r matches Ok(c) ==> c.wf(),
    {
        match self {
            Color::Hsl { h, s, l } => Ok(HslaChannels { h: *h, s: *s, l: *l, a: 255 }),
            Color::Hsla { h, s, l, a } => Ok(HslaChannels { h: *h, s: *s, l: *l, a: *a }),
            _ => match self.to_rgba() {
                Ok(c) => {
                    let (h, s, l) = rgb_to_hsl(c.r, c.g, c.b);
                    Ok(HslaChannels { h, s, l, a: c.a })
                },
                Err(e) => Err(e),
            },
        }
    }
}

/// Whether `t` is `#` followed by six or eight hexadecimal digits.
pub open spec fn is_hex_color_text(t: Seq<char>) -> bool {
    (t.len() == 7 || t.len() == 9) && t[0] == '#' && forall|i: int|
        1 <= i < t.len() ==> is_hex_char(#[trigger] t[i])
}

/// The color that hex text denotes.
pub open spec fn hex_color_of(t: Seq<char>) -> Color {
    if t.len() == 7 {
        Color::OpaqueHex(hex_number(t.drop_first()) as u32)
    } else {
        Color::Hex(hex_number(t.drop_first()) as u32)
    }
}

proof fn lemma_hex_number_bound(d: Seq<char>)
    requires
        forall|i: int| 0 <= i < d.len() ==> is_hex_char(#[trigger] d[i]),
    ensures
        hex_number(d) < pow16(d.len()),
    decreases d.len(),
{
    if d.len() > 0 {
        let p = d.drop_last();
        assert forall|i: int| 0 <= i < p.len() implies is_hex_char(#[trigger] p[i]) by {
            assert(p[i] == d[i]);
        }
        lemma_hex_number_bound(p);
        assert(is_hex_char(d[d.len() - 1]));
        assert(pow16(d.len()) == 16 * pow16(p.len()));
    }
}

/// Sixteen to the power `n`.
pub open spec fn pow16(n: nat) -> nat
    decreases n,
{
    if n == 0 {
        1
    } else {
        16 * pow16((n - 1) as nat)
    }
}

/// Parses `#RRGGBB` or `#RRGGBBAA`, in either case; anything else fails.
pub fn parse_color(text: &str) -> (r: Result<Color, ColorParseError>)
    ensures
        match r {
            Ok(c) => is_hex_color_text(text@) && c == hex_color_of(text@) && c.wf(),
            Err(e) => !is_hex_color_text(text@) && e.fragment@ == text@,
        },
{
    let n = text.unicode_len();
    if !(n == 7 || n == 9) || text.get_char(0) != '#' {
        return Err(ColorParseError { fragment: text.to_owned() });
    }
    let mut value: u32 = 0;
    let mut i: usize = 1;
    while i < n
        invariant
            n == text@.len(),
            n == 7 || n == 9,
            1 <= i <= n,
            text@[0] == '#',
            forall|k: int| 1 <= k < i ==> is_hex_char(#[trigger] text@[k]),
            value as nat == hex_number(text@.subrange(1, i as int)),
        decreases n - i,
    {
        let c = text.get_char(i);
        if !is_hex_digit(c) {
            return Err(ColorParseError { fragment: text.to_owned() });
        }
        let d = hex_char_value(c);
        let ghost prefix = text@.subrange(1, i as int);
        let ghost next = text@.subrange(1, i + 1);
        proof {
            assert(next.drop_last() == prefix);
            assert(next.last() == c);
            assert forall|k: int| 0 <= k < prefix.len() implies is_hex_char(#[trigger] prefix[k]) by {
                assert(prefix[k] == text@[k + 1]);
            }
            lemma_hex_number_bound(prefix);
            assert(prefix.len() <= 7);
            assert(pow16(7) == 0x1000_0000) by {
                reveal_with_fuel(pow16, 8);
            }
            assert(pow16(prefix.len()) <= pow16(7)) by {
                lemma_pow16_mono(prefix.len(), 7);
            }
        }
        value = value * 16 + d;
        i = i + 1;
    }
    proof {
        assert(text@.drop_first() == text@.subrange(1, n as int));
    }
    if n == 7 {
        proof {
            let d = text@.drop_first();
            assert forall|k: int| 0 <= k < d.len() implies is_hex_char(#[trigger] d[k]) by {
                assert(d[k] == text@[k + 1]);
            }
            lemma_hex_number_bound(d);
            assert(pow16(6) == 0x100_0000) by {
                reveal_with_fuel(pow16, 7);
            }
        }
        Ok(Color::OpaqueHex(value))
    } else {
        Ok(Color::Hex(value))
    }
}

proof fn lemma_pow16_mono(a: nat, b: nat)
    requires
        a <= b,
    ensures
        pow16(a) <= pow16(b),
    decreases b,
{
    if a < b {
        lemma_pow16_mono(a, (b - 1) as nat);
    }
}

/// A number read from hex digits, written back in as many digits, gives those digits
/// in upper case.
proof fn lemma_hex_fixed_of_number(d: Seq<char>)
    requires
        forall|i: int| 0 <= i < d.len() ==> is_hex_char(#[trigger] d[i]),
    ensures
        hex_fixed(hex_number(d), d.len()) == d.map_values(|c: char| hex_digit(hex_value(c))),
    decreases d.len(),
{
    if d.len() > 0 {
        let p = d.drop_last();
        assert forall|i: int| 0 <= i < p.len() implies is_hex_char(#[trigger] p[i]) by {
            assert(p[i] == d[i]);
        }
        lemma_hex_fixed_of_number(p);
        assert(is_hex_char(d.last()));
        let n = hex_number(d);
        assert(n / 16 == hex_number(p));
        assert(n % 16 == hex_value(d.last()));
        assert(d.map_values(|c: char| hex_digit(hex_value(c))) =~= p.map_values(
            |c: char| hex_digit(hex_value(c)),
        ).push(hex_digit(hex_value(d.last()))));
    }
}


/// Parsing hex color text and writing the color back gives the same text, with the
/// digits in upper case.
pub proof fn lemma_hex_round_trip(t: Seq<char>)
    requires
        is_hex_color_text(t),
    ensures
        hex_color_of(t).css_text() == seq!['#'] + t.drop_first().map_values(
            |c: char| hex_digit(hex_value(c)),
        ),
{
    let d = t.drop_first();
    assert forall|i: int| 0 <= i < d.len() implies is_hex_char(#[trigger] d[i]) by {
        assert(d[i] == t[i + 1]);
    }
    lemma_hex_fixed_of_number(d);
    lemma_hex_number_bound(d);
    if t.len() == 7 {
        assert(pow16(6) == 0x100_0000) by {
                reveal_with_fuel(pow16, 7);
            }
    } else {
        assert(pow16(8) == 0x1_0000_0000) by {
                reveal_with_fuel(pow16, 9);
            }
    }
}

} // verus!

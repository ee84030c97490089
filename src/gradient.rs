//! Gradients: colors at control points in `[0, 1]`, sampled by linear interpolation.
use vstd::prelude::*;

use crate::color::{Color, ConversionError, HslaChannels, RgbaChannels, round_div};

verus! {

/// Control points are written in thousandths of the unit interval.
pub const POSITION_SCALE: u32 = 1000;

/// The color space in which a gradient interpolates.
#[derive(Clone, Copy, PartialEq, Eq, Structural, Debug)]
pub enum GradientMode {
    /// The space of the endpoints themselves: hsl when both are hsl colors, rgb otherwise.
    Raw,
    Rgb,
    Hsl,
}

/// Why a list of control points does not make a gradient.
#[derive(Clone, Copy, PartialEq, Eq, Structural, Debug)]
pub enum GradientError {
    /// There are no control points.
    Empty,
    /// A position lies beyond one (above `POSITION_SCALE` thousandths).
    OutOfRange,
    /// Positions do not strictly increase.
    Unordered,
}

/// Colors at strictly increasing positions in thousandths, with a color space.
pub struct Gradient {
    points: Vec<(u32, Color)>,
    mode: GradientMode,
}

/// The points lie in `[0, POSITION_SCALE]` and strictly increase.
pub open spec fn positions_ok(ps: Seq<(u32, Color)>) -> bool {
    &&& ps.len() > 0
    &&& forall|i: int| 0 <= i < ps.len() ==> (#[trigger] ps[i]).0 <= POSITION_SCALE
    &&& forall|i: int| 0 <= i < ps.len() - 1 ==> (#[trigger] ps[i]).0 < ps[i + 1].0
}

/// The first error in a list of control points, if any.
pub open spec fn points_error(ps: Seq<(u32, Color)>) -> Option<GradientError> {
    if ps.len() == 0 {
        Some(GradientError::Empty)
    } else if exists|i: int| 0 <= i < ps.len() && (#[trigger] ps[i]).0 > POSITION_SCALE {
        Some(GradientError::OutOfRange)
    } else if exists|i: int| 0 <= i < ps.len() - 1 && (#[trigger] ps[i]).0 >= ps[i + 1].0 {
        Some(GradientError::Unordered)
    } else {
        None
    }
}

/// `a + (b - a) * num / den`, rounded half away from `a`.
pub open spec fn lerp(a: int, b: int, num: int, den: int) -> int {
    if b >= a {
        a + round_div((b - a) * num, den)
    } else {
        a - round_div((a - b) * num, den)
    }
}

proof fn lemma_lerp_between(a: int, b: int, num: int, den: int)
    requires
        0 <= num <= den,
        0 < den,
    ensures
        a <= b ==> a <= lerp(a, b, num, den) <= b,
        b < a ==> b <= lerp(a, b, num, den) <= a,
{
    let d = if b >= a {
        b - a
    } else {
        a - b
    };
    assert(0 <= round_div(d * num, den) <= d) by (nonlinear_arith)
        requires
            0 <= num <= den,
            0 < den,
            0 <= d,
    {
        assert(d * num <= d * den);
        assert(2 * (d * num) + den <= 2 * (d * den) + den);
        assert((2 * (d * num) + den) / (2 * den) <= (2 * (d * den) + den) / (2 * den));
        assert((2 * (d * den) + den) == d * (2 * den) + den);
        assert((d * (2 * den) + den) / (2 * den) == d);
    }
}

fn lerp_channel(a: u16, b: u16, num: u32, den: u32) -> (r: u16)
    requires
        num <= den,
        0 < den <= POSITION_SCALE,
    ensures
        r as int == lerp(a as int, b as int, num as int, den as int),
        a <= b ==> a <= r <= b,
        b < a ==> b <= r <= a,
{
    proof {
        lemma_lerp_between(a as int, b as int, num as int, den as int);
    }
    let (a, b, num, den) = (a as u64, b as u64, num as u64, den as u64);
    if b >= a {
        assert((b - a) * num <= 65535 * 1000) by (nonlinear_arith)
            requires
                b - a <= 65535,
                num <= 1000,
        ;
        (a + (2 * ((b - a) * num) + den) / (2 * den)) as u16
    } else {
        assert((a - b) * num <= 65535 * 1000) by (nonlinear_arith)
            requires
                a - b <= 65535,
                num <= 1000,
        ;
        (a - (2 * ((a - b) * num) + den) / (2 * den)) as u16
    }
}

/// Whether a color is written in hsl.
pub open spec fn is_hsl_color(c: Color) -> bool {
    c is Hsl || c is Hsla
}

/// Interpolates channel by channel at `num / den` of the way from `x` to `y`.
pub open spec fn blend(mode: GradientMode, x: Color, y: Color, num: int, den: int) -> Result<
    Color,
    ConversionError,
> {
    let in_hsl = match mode {
        GradientMode::Hsl => true,
        GradientMode::Rgb => false,
        GradientMode::Raw => is_hsl_color(x) && is_hsl_color(y),
    };
    if in_hsl {
        match (x.hsla_spec(), y.hsla_spec()) {
            (Ok(a), Ok(b)) => Ok(
                Color::Hsla {
                    h: lerp(a.h as int, b.h as int, num, den) as u16,
                    s: lerp(a.s as int, b.s as int, num, den) as u8,
                    l: lerp(a.l as int, b.l as int, num, den) as u8,
                    a: lerp(a.a as int, b.a as int, num, den) as u8,
                },
            ),
            (Err(e), _) => Err(e),
            (_, Err(e)) => Err(e),
        }
    } else {
        match (x.rgba_spec(), y.rgba_spec()) {
            (Ok(a), Ok(b)) => Ok(
                Color::Rgba {
                    r: lerp(a.r as int, b.r as int, num, den) as u8,
                    g: lerp(a.g as int, b.g as int, num, den) as u8,
                    b: lerp(a.b as int, b.b as int, num, den) as u8,
                    a: lerp(a.a as int, b.a as int, num, den) as u8,
                },
            ),
            (Err(e), _) => Err(e),
            (_, Err(e)) => Err(e),
        }
    }
}

fn blend_colors(mode: GradientMode, x: &Color, y: &Color, num: u32, den: u32) -> (r: Result<
    Color,
    ConversionError,
>)
    requires
        x.wf(),
        y.wf(),
        num <= den,
        0 < den <= POSITION_SCALE,
    ensures
        r == blend(mode, *x, *y, num as int, den as int),
        r matches Ok(c) ==> c.wf(),
{
    let x_hsl = match x {
        Color::Hsl { .. } => true,
        Color::Hsla { .. } => true,
        _ => false,
    };
    let y_hsl = match y {
        Color::Hsl { .. } => true,
        Color::Hsla { .. } => true,
        _ => false,
    };
    let in_hsl = match mode {
        GradientMode::Hsl => true,
        GradientMode::Rgb => false,
        GradientMode::Raw => x_hsl && y_hsl,
    };
    if in_hsl {
        let a: HslaChannels = match x.to_hsla() {
            Ok(c) => c,
            Err(e) => {
                return Err(e);
            },
        };
        let b: HslaChannels = match y.to_hsla() {
            Ok(c) => c,
            Err(e) => {
                return Err(e);
            },
        };
        Ok(
            Color::Hsla {
                h: lerp_channel(a.h, b.h, num, den),
                s: lerp_channel(a.s as u16, b.s as u16, num, den) as u8,
                l: lerp_channel(a.l as u16, b.l as u16, num, den) as u8,
                a: lerp_channel(a.a as u16, b.a as u16, num, den) as u8,
            },
        )
    } else {
        let a: RgbaChannels = match x.to_rgba() {
            Ok(c) => c,
            Err(e) => {
                return Err(e);
            },
        };
        let b: RgbaChannels = match y.to_rgba() {
            Ok(c) => c,
            Err(e) => {
                return Err(e);
            },
        };
        Ok(
            Color::Rgba {
                r: lerp_channel(a.r as u16, b.r as u16, num, den) as u8,
                g: lerp_channel(a.g as u16, b.g as u16, num, den) as u8,
                b: lerp_channel(a.b as u16, b.b as u16, num, den) as u8,
                a: lerp_channel(a.a as u16, b.a as u16, num, den) as u8,
            },
        )
    }
}

/// The segment of the points that holds `t`, searching from segment `i`: the first
/// whose right end lies beyond `t`, or the last.
pub open spec fn segment_from(ps: Seq<(u32, Color)>, t: int, i: int) -> int
    decreases ps.len() - i,
{
    if i + 2 >= ps.len() || t < ps[i + 1].0 {
        i
    } else {
        segment_from(ps, t, i + 1)
    }
}

/// The color at position `t` (in thousandths): the blend of the two points of the
/// segment that holds `t`, in proportion to the distance from the left one, clamped to
/// the segment; a gradient of one point is that color.
#[verifier::opaque]
pub open spec fn sample(ps: Seq<(u32, Color)>, mode: GradientMode, t: int) -> Result<
    Color,
    ConversionError,
> {
    if ps.len() == 1 {
        blend(mode, ps[0].1, ps[0].1, 0, 1)
    } else {
        let i = segment_from(ps, t, 0);
        let lo = ps[i].0 as int;
        let hi = ps[i + 1].0 as int;
        let num = if t <= lo {
            0
        } else if t >= hi {
            hi - lo
        } else {
            t - lo
        };
        blend(mode, ps[i].1, ps[i + 1].1, num, hi - lo)
    }
}

/// A gradient of two points at zero and one is the linear blend of its two colors at
/// every position.
pub proof fn lemma_two_point_sample(ps: Seq<(u32, Color)>, mode: GradientMode, t: int)
    requires
        ps.len() == 2,
        ps[0].0 == 0,
        ps[1].0 == POSITION_SCALE,
        0 <= t <= POSITION_SCALE,
    ensures
        sample(ps, mode, t) == blend(mode, ps[0].1, ps[1].1, t, POSITION_SCALE as int),
{
    reveal(sample);
}

/// What converting a control point's color into the declared space fails with, if it
/// fails: an hsl or rgb gradient converts every point; a raw gradient keeps its
/// colors as given.
pub open spec fn point_conversion(mode: GradientMode, c: Color) -> Option<ConversionError> {
    match mode {
        GradientMode::Hsl => match c.hsla_spec() {
            Err(e) => Some(e),
            Ok(_) => None,
        },
        GradientMode::Rgb => match c.rgba_spec() {
            Err(e) => Some(e),
            Ok(_) => None,
        },
        GradientMode::Raw => None,
    }
}

/// Every control point converts into the declared space.
pub open spec fn points_convert(ps: Seq<(u32, Color)>, mode: GradientMode) -> bool {
    forall|i: int| 0 <= i < ps.len() ==> point_conversion(mode, (#[trigger] ps[i]).1) is None
}

impl Gradient {
    /// The control points, in order of position.
    pub closed spec fn point_list(&self) -> Seq<(u32, Color)> {
        self.points@
    }

    /// The color space.
    pub closed spec fn mode_spec(&self) -> GradientMode {
        self.mode
    }

    /// Positions in range and strictly increasing; colors well formed.
    pub open spec fn wf(&self) -> bool {
        &&& positions_ok(self.point_list())
        &&& forall|i: int|
            0 <= i < self.point_list().len() ==> (#[trigger] self.point_list()[i]).1.wf()
    }

    /// A gradient through `points`; fails on an empty list, a position beyond one, or
    /// positions that do not strictly increase.
    pub fn new(points: Vec<(u32, Color)>, mode: GradientMode) -> (r: Result<Gradient, GradientError>)
        requires
            forall|i: int| 0 <= i < points@.len() ==> (#[trigger] points@[i]).1.wf(),
        ensures
            match r {
                Ok(g) => points_error(points@) is None && g.point_list() == points@
                    && g.mode_spec() == mode && g.wf(),
                Err(e) => points_error(points@) == Some(e),
            },
    {
        let n = points.len();
        if n == 0 {
            return Err(GradientError::Empty);
        }
        let mut i: usize = 0;
        while i < n
            invariant
                n == points@.len(),
                i <= n,
                forall|j: int| 0 <= j < i ==> (#[trigger] points@[j]).0 <= POSITION_SCALE,
            decreases n - i,
        {
            if points[i].0 > POSITION_SCALE {
                return Err(GradientError::OutOfRange);
            }
            i = i + 1;
        }
        let mut i: usize = 0;
        while i + 1 < n
            invariant
                n == points@.len(),
                n > 0,
                i < n,
                forall|j: int| 0 <= j < n ==> (#[trigger] points@[j]).0 <= POSITION_SCALE,
                forall|j: int| 0 <= j < i ==> (#[trigger] points@[j]).0 < points@[j + 1].0,
            decreases n - i,
        {
            if points[i].0 >= points[i + 1].0 {
                return Err(GradientError::Unordered);
            }
            i = i + 1;
        }
        Ok(Gradient { points, mode })
    }

    /// The color at position `t`, in thousandths.
    pub fn get(&self, t: u32) -> (r: Result<Color, ConversionError>)
        requires
            self.wf(),
            t <= POSITION_SCALE,
        ensures
            r == sample(self.point_list(), self.mode_spec(), t as int),
            r matches Ok(c) ==> c.wf(),
    {
        let ghost ps = self.points@;
        proof {
            reveal(sample);
        }
        let n = self.points.len();
        if n == 1 {
            return blend_colors(self.mode, &self.points[0].1, &self.points[0].1, 0, 1);
        }
        let mut i: usize = 0;
        while i + 2 < n && t >= self.points[i + 1].0
            invariant
                ps == self.points@,
                n == ps.len(),
                n >= 2,
                i + 1 < n,
                segment_from(ps, t as int, i as int) == segment_from(ps, t as int, 0),
            decreases n - i,
        {
            i = i + 1;
        }
        let lo = self.points[i].0;
        let hi = self.points[i + 1].0;
        let num = if t <= lo {
            0
        } else if t >= hi {
            hi - lo
        } else {
            t - lo
        };
        blend_colors(self.mode, &self.points[i].1, &self.points[i + 1].1, num, hi - lo)
    }

    /// Converts every control point into the declared color space; fails with the
    /// first point that cannot be converted.
    pub fn check_conversions(&self) -> (r: Result<(), ConversionError>)
        requires
            self.wf(),
        ensures
            match r {
                Ok(_) => points_convert(self.point_list(), self.mode_spec()),
                Err(e) => exists|i: int|
                    0 <= i < self.point_list().len() && point_conversion(
                        self.mode_spec(),
                        (#[trigger] self.point_list()[i]).1,
                    ) == Some(e),
            },
    {
        let mut i: usize = 0;
        while i < self.points.len()
            invariant
                self.wf(),
                i <= self.points@.len(),
                forall|j: int|
                    0 <= j < i ==> point_conversion(self.mode, (#[trigger] self.points@[j]).1)
                        is None,
            decreases self.points@.len() - i,
        {
            let c = &self.points[i].1;
            match self.mode {
                GradientMode::Hsl => match c.to_hsla() {
                    Err(e) => {
                        return Err(e);
                    },
                    Ok(_) => {},
                },
                GradientMode::Rgb => match c.to_rgba() {
                    Err(e) => {
                        return Err(e);
                    },
                    Ok(_) => {},
                },
                GradientMode::Raw => {},
            }
            i = i + 1;
        }
        Ok(())
    }
}

} // verus!

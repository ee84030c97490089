//! Building themes from a theme description: palettes of explicit selectors, and
//! palettes sampled from a gradient in eleven steps named `000`, `010`, ..., `100`.
use vstd::prelude::*;

use crate::assoc::{has_key, keys, lookup};
use crate::color::{hex_color_of, is_hex_color_text, parse_color, Color, ColorParseError, ConversionError};
use crate::gradient::{
    blend, lemma_two_point_sample, point_conversion, sample, Gradient, GradientError,
    GradientMode, POSITION_SCALE,
};
use crate::palette::{ColorByMode, Palette};
use crate::text::{digit_char, first_dot, hex_digit, push_char};
use crate::theme::{palette_var_text, Theme};

verus! {

/// How a selector is described: one color, or a color for each mode.
pub enum SelectorDescription {
    Constant(String),
    DarkLight { dark: String, light: String },
}

/// Control points as positions in thousandths and color texts, with a color space.
pub struct GradientDescription {
    pub points: Vec<(u32, String)>,
    pub mode: GradientMode,
}

/// A palette: optionally sampled from a gradient, optionally with explicit selectors,
/// which win over sampled ones of the same name.
pub struct PaletteDescription {
    pub gradient: Option<GradientDescription>,
    pub selectors: Option<Vec<(String, SelectorDescription)>>,
}

/// A theme: an optional prefix and palettes by name.
pub struct ThemeDescription {
    pub prefix: Option<String>,
    pub palettes: Vec<(String, PaletteDescription)>,
}

/// Why a theme description could not be loaded.
#[derive(PartialEq, Eq, Debug)]
pub enum LoadError {
    /// A color text starts with `#` but is not a hex color.
    Color(ColorParseError),
    /// The control points of a palette's gradient are not usable.
    Gradient { palette: String, error: GradientError },
    /// A control point of a gradient does not convert into its color space, or a step
    /// cannot be sampled.
    Conversion { palette: String, error: ConversionError },
}

/// The number of steps sampled from a gradient.
pub const GRADIENT_STEPS: u32 = 11;

/// The name of step `k`: `10 * k` in three digits.
pub open spec fn step_name(k: int) -> Seq<char> {
    seq![hex_digit(k / 10), hex_digit(k % 10), '0']
}

/// The position of step `k`, in thousandths.
pub open spec fn step_position(k: int) -> int {
    100 * k
}

fn write_step_name(k: u32) -> (r: String)
    requires
        k <= 10,
    ensures
        r@ == step_name(k as int),
{
    let mut out = String::new();
    push_char(&mut out, digit_char(k / 10));
    push_char(&mut out, digit_char(k % 10));
    push_char(&mut out, '0');
    proof {
        assert(out@ =~= step_name(k as int));
    }
    out
}

proof fn lemma_step_names_differ(j: int, k: int)
    requires
        0 <= j < k <= 10,
    ensures
        step_name(j) != step_name(k),
{
    assert(step_name(j)[0] != step_name(k)[0] || step_name(j)[1] != step_name(k)[1]);
}

/// The entry found for step `k` is the constant color of the gradient at `k / 10`.
pub open spec fn step_entry_ok(g: Gradient, e: Option<ColorByMode>, k: int) -> bool {
    match e {
        Some(ColorByMode::Constant(c)) => sample(g.point_list(), g.mode_spec(), step_position(k))
            == Ok::<Color, ConversionError>(c),
        _ => false,
    }
}

/// Step `k` of the entries is the constant color of the gradient at `k / 10`.
pub open spec fn step_holds(g: Gradient, s: Seq<(String, ColorByMode)>, k: int) -> bool {
    step_entry_ok(g, lookup(s, step_name(k)), k)
}

/// The palette sampled from a gradient: its selectors are the eleven step names, and
/// step `k` (for `k` from 0 to 10) is the constant color of the gradient at `k / 10`.
pub open spec fn is_step_palette(g: Gradient, p: Palette) -> bool {
    &&& keys(p@) == Seq::new(GRADIENT_STEPS as nat, |k: int| step_name(k))
    &&& forall|k: int| 0 <= k <= 10 ==> #[trigger] step_holds(g, p@, k)
}

/// Samples a gradient in eleven evenly spaced steps into a palette of constant
/// selectors; fails with the first sample that cannot be converted.
pub fn gradient_palette(g: &Gradient) -> (r: Result<Palette, ConversionError>)
    requires
        g.wf(),
    ensures
        match r {
            Ok(p) => p.wf() && is_step_palette(*g, p),
            Err(e) => exists|k: int|
                0 <= k <= 10 && #[trigger] sample(g.point_list(), g.mode_spec(), step_position(k))
                    == Err::<Color, ConversionError>(e),
        },
{
    let mut p = Palette::new();
    let mut k: u32 = 0;
    while k <= 10
        invariant
            k <= 11,
            p.wf(),
            g.wf(),
            keys(p@) == Seq::new(k as nat, |j: int| step_name(j)),
            forall|j: int| 0 <= j < k ==> #[trigger] step_holds(*g, p@, j),
        decreases 11 - k,
    {
        let c = match g.get(100 * k) {
            Ok(c) => c,
            Err(e) => {
                proof {
                    assert(sample(g.point_list(), g.mode_spec(), step_position(k as int)) == Err::<
                        Color,
                        ConversionError,
                    >(e));
                }
                return Err(e);
            },
        };
        let name = write_step_name(k);
        let ghost before = p@;
        proof {
            assert(!crate::assoc::has_key(before, name@)) by {
                if crate::assoc::has_key(before, name@) {
                    let w = choose|w: int| 0 <= w < before.len() && #[trigger] before[w].0@ == name@;
                    assert(keys(before).len() == before.len());
                    assert(keys(before)[w] == before[w].0@);
                    assert(Seq::new(k as nat, |j: int| step_name(j))[w] == step_name(w));
                    assert(keys(before)[w] == step_name(w));
                    lemma_step_names_differ(w, k as int);
                }
            }
        }
        p.insert_constant(name.as_str(), c);
        proof {
            assert forall|j: int| 0 <= j < k implies step_name(j) != name@ by {
                lemma_step_names_differ(j, k as int);
            }
            assert forall|j: int| 0 <= j < k + 1 implies #[trigger] step_holds(*g, p@, j) by {
                assert(lookup(p@, step_name(j)) == if step_name(j) == name@ {
                    Some(ColorByMode::Constant(c))
                } else {
                    lookup(before, step_name(j))
                });
                if j < k {
                    assert(step_holds(*g, before, j));
                }
            }
            assert(keys(p@) =~= Seq::new((k + 1) as nat, |j: int| step_name(j)));
        }
        k = k + 1;
    }
    Ok(p)
}

/// Letters, digits, `_` and `-`.
pub open spec fn is_name_char(c: char) -> bool {
    ('a' <= c && c <= 'z') || ('A' <= c && c <= 'Z') || ('0' <= c && c <= '9') || c == '_' || c
        == '-'
}

/// `palette.selector`: two non-empty names of letters, digits, `_` and `-` around one dot.
pub open spec fn is_palette_ref(s: Seq<char>) -> bool {
    &&& 0 < first_dot(s) < s.len() - 1
    &&& forall|i: int| 0 <= i < s.len() && i != first_dot(s) ==> is_name_char(#[trigger] s[i])
}

/// What a color text describes, for a theme with the given prefix: hex text is that
/// color; a palette reference is the custom property of that palette selector; any
/// other text is a named color.
pub open spec fn color_described(prefix: Seq<char>, text: String, c: Color) -> bool {
    let t = text@;
    if t.len() > 0 && t[0] == '#' {
        is_hex_color_text(t) && c == hex_color_of(t)
    } else if is_palette_ref(t) {
        match c {
            Color::Var { var, fallback } => fallback is None && var@ == palette_var_text(
                prefix,
                t.subrange(0, first_dot(t)),
                t.subrange(first_dot(t) + 1, t.len() as int),
            ),
            _ => false,
        }
    } else {
        c == Color::Named(text)
    }
}

/// Whether a color text is malformed: it starts with `#` but is not hex color text.
pub open spec fn color_text_malformed(t: Seq<char>) -> bool {
    t.len() > 0 && t[0] == '#' && !is_hex_color_text(t)
}

/// Finds the dot of a palette reference, if the text is one.
fn palette_ref_dot(t: &str) -> (r: Option<usize>)
    ensures
        match r {
            Some(d) => is_palette_ref(t@) && d == first_dot(t@),
            None => !is_palette_ref(t@),
        },
{
    let n = t.unicode_len();
    let mut dot: usize = 0;
    let mut found = false;
    let mut ok = true;
    let mut i: usize = 0;
    while i < n
        invariant
            n == t@.len(),
            i <= n,
            found ==> dot < i && first_dot(t@.subrange(0, i as int)) == dot,
            !found ==> first_dot(t@.subrange(0, i as int)) == i,
            ok ==> forall|j: int|
                0 <= j < i && (!found || j != dot) ==> is_name_char(#[trigger] t@[j]),
            !ok ==> exists|j: int|
                0 <= j < i && (!found || j != dot) && !is_name_char(#[trigger] t@[j]),
        decreases n - i,
    {
        let c = t.get_char(i);
        proof {
            assert(t@.subrange(0, i + 1).drop_last() == t@.subrange(0, i as int));
        }
        if c == '.' && !found {
            found = true;
            dot = i;
        } else if !(('a' <= c && c <= 'z') || ('A' <= c && c <= 'Z') || ('0' <= c && c <= '9')
            || c == '_' || c == '-') {
            ok = false;
        }
        i = i + 1;
    }
    proof {
        assert(t@.subrange(0, n as int) =~= t@);
    }
    if found && ok && 0 < dot && dot + 1 < n {
        Some(dot)
    } else {
        None
    }
}

/// Reads a color text for a theme: hex text, a palette reference, or a named color.
pub fn describe_color(theme: &Theme, text: &String) -> (r: Result<Color, ColorParseError>)
    ensures
        match r {
            Ok(c) => color_described(theme.prefix_text(), *text, c) && c.wf(),
            Err(e) => color_text_malformed(text@) && e.fragment@ == text@,
        },
{
    let t = text.as_str();
    let n = t.unicode_len();
    if n > 0 && t.get_char(0) == '#' {
        return parse_color(t);
    }
    match palette_ref_dot(t) {
        Some(d) => {
            let palette = t.substring_char(0, d);
            let selector = t.substring_char(d + 1, n);
            Ok(Color::Var { var: theme.palette_var(palette, selector), fallback: None })
        },
        None => Ok(Color::Named(text.clone())),
    }
}

/// A gradient of two colors at zero and one gives a palette of eleven selectors named
/// `000` to `100`, each the constant linear blend of the two colors at its step.
pub proof fn lemma_two_color_gradient_palette(g: Gradient, p: Palette)
    requires
        g.wf(),
        g.point_list().len() == 2,
        g.point_list()[0].0 == 0,
        g.point_list()[1].0 == POSITION_SCALE,
        is_step_palette(g, p),
    ensures
        keys(p@).len() == GRADIENT_STEPS,
        forall|k: int| 0 <= k <= 10 ==> #[trigger] keys(p@)[k] == step_name(k),
        forall|k: int|
            0 <= k <= 10 ==> match #[trigger] lookup(p@, step_name(k)) {
                Some(ColorByMode::Constant(c)) => blend(
                    g.mode_spec(),
                    g.point_list()[0].1,
                    g.point_list()[1].1,
                    step_position(k),
                    POSITION_SCALE as int,
                ) == Ok::<Color, ConversionError>(c),
                _ => false,
            },
{
    assert forall|k: int| 0 <= k <= 10 implies match #[trigger] lookup(p@, step_name(k)) {
        Some(ColorByMode::Constant(c)) => blend(
            g.mode_spec(),
            g.point_list()[0].1,
            g.point_list()[1].1,
            step_position(k),
            POSITION_SCALE as int,
        ) == Ok::<Color, ConversionError>(c),
        _ => false,
    } by {
        assert(step_holds(g, p@, k));
        lemma_two_point_sample(g.point_list(), g.mode_spec(), step_position(k));
    }
}

/// What a selector description describes, for a theme with the given prefix.
pub open spec fn selector_described(prefix: Seq<char>, d: SelectorDescription, e: ColorByMode) -> bool {
    match (d, e) {
        (SelectorDescription::Constant(t), ColorByMode::Constant(c)) => color_described(prefix, t, c),
        (
            SelectorDescription::DarkLight { dark, light },
            ColorByMode::ModeBased { dark: cd, light: cl },
        ) => color_described(prefix, dark, cd) && color_described(prefix, light, cl),
        _ => false,
    }
}

/// Whether one of the colors of a palette description is written `t`.
pub open spec fn palette_has_color_text(d: PaletteDescription, t: Seq<char>) -> bool {
    ||| (match d.gradient {
        Some(g) => exists|j: int| 0 <= j < g.points@.len() && (#[trigger] g.points@[j]).1@ == t,
        None => false,
    })
    ||| (match d.selectors {
        Some(sel) => exists|j: int|
            0 <= j < sel@.len() && match (#[trigger] sel@[j]).1 {
                SelectorDescription::Constant(c) => c@ == t,
                SelectorDescription::DarkLight { dark, light } => dark@ == t || light@ == t,
            },
        None => false,
    })
}

/// No entry after `i` among the first `n` has the key of entry `i`.
pub open spec fn last_of_key<V>(s: Seq<(String, V)>, i: int, n: int) -> bool {
    forall|j: int| i < j < n ==> #[trigger] s[j].0@ != s[i].0@
}

fn load_error_of_color(e: ColorParseError) -> (r: LoadError)
    ensures
        r == LoadError::Color(e),
{
    LoadError::Color(e)
}

/// `ps` holds the control points read from `gd`: the same positions, and the colors
/// that the color texts describe.
pub open spec fn points_described(prefix: Seq<char>, gd: GradientDescription, ps: Seq<(u32, Color)>) -> bool {
    &&& ps.len() == gd.points@.len()
    &&& forall|i: int|
        0 <= i < ps.len() ==> (#[trigger] ps[i]).0 == gd.points@[i].0 && color_described(
            prefix,
            gd.points@[i].1,
            ps[i].1,
        )
}

/// No color text of the gradient is malformed.
pub open spec fn gradient_colors_ok(gd: GradientDescription) -> bool {
    forall|j: int| 0 <= j < gd.points@.len() ==> !color_text_malformed((#[trigger] gd.points@[j]).1@)
}

/// The first problem with the positions of control points, if any: none, one beyond
/// `POSITION_SCALE`, or positions that do not strictly increase.
pub open spec fn positions_error(pts: Seq<(u32, String)>) -> Option<GradientError> {
    if pts.len() == 0 {
        Some(GradientError::Empty)
    } else if exists|i: int| 0 <= i < pts.len() && (#[trigger] pts[i]).0 > POSITION_SCALE {
        Some(GradientError::OutOfRange)
    } else if exists|i: int| 0 <= i < pts.len() - 1 && (#[trigger] pts[i]).0 >= pts[i + 1].0 {
        Some(GradientError::Unordered)
    } else {
        None
    }
}

/// The gradient of `gd` has readable colors and its positions fail with `error`.
pub open spec fn gradient_error_in(gd: GradientDescription, error: GradientError) -> bool {
    gradient_colors_ok(gd) && positions_error(gd.points@) == Some(error)
}

/// Some gradient read from `gd` fails with `error`: a control point does not convert
/// into the declared space, or a step cannot be sampled.
pub open spec fn conversion_fails(prefix: Seq<char>, gd: GradientDescription, error: ConversionError) -> bool {
    exists|ps: Seq<(u32, Color)>|
        #[trigger] points_described(prefix, gd, ps) && ((exists|i: int|
            0 <= i < ps.len() && point_conversion(gd.mode, (#[trigger] ps[i]).1) == Some(error))
            || (exists|k: int|
            0 <= k <= 10 && #[trigger] sample(ps, gd.mode, step_position(k)) == Err::<
                Color,
                ConversionError,
            >(error)))
}

/// Every gradient read from `gd` converts each control point into the declared space
/// and can be sampled at all eleven steps.
pub open spec fn conversions_succeed(prefix: Seq<char>, gd: GradientDescription) -> bool {
    forall|ps: Seq<(u32, Color)>|
        #[trigger] points_described(prefix, gd, ps) ==> (forall|i: int|
            0 <= i < ps.len() ==> point_conversion(gd.mode, (#[trigger] ps[i]).1) is None) && (
        forall|k: int| 0 <= k <= 10 ==> #[trigger] sample(ps, gd.mode, step_position(k)) is Ok)
}

proof fn lemma_positions_error(prefix: Seq<char>, gd: GradientDescription, ps: Seq<(u32, Color)>)
    requires
        points_described(prefix, gd, ps),
    ensures
        crate::gradient::points_error(ps) == positions_error(gd.points@),
{
    let pts = gd.points@;
    if exists|i: int| 0 <= i < pts.len() && (#[trigger] pts[i]).0 > POSITION_SCALE {
        let i = choose|i: int| 0 <= i < pts.len() && (#[trigger] pts[i]).0 > POSITION_SCALE;
        assert(ps[i].0 > POSITION_SCALE);
    }
    if exists|i: int| 0 <= i < ps.len() && (#[trigger] ps[i]).0 > POSITION_SCALE {
        let i = choose|i: int| 0 <= i < ps.len() && (#[trigger] ps[i]).0 > POSITION_SCALE;
        assert(pts[i].0 > POSITION_SCALE);
    }
    if exists|i: int| 0 <= i < pts.len() - 1 && (#[trigger] pts[i]).0 >= pts[i + 1].0 {
        let i = choose|i: int| 0 <= i < pts.len() - 1 && (#[trigger] pts[i]).0 >= pts[i + 1].0;
        assert(ps[i].0 >= ps[i + 1].0);
    }
    if exists|i: int| 0 <= i < ps.len() - 1 && (#[trigger] ps[i]).0 >= ps[i + 1].0 {
        let i = choose|i: int| 0 <= i < ps.len() - 1 && (#[trigger] ps[i]).0 >= ps[i + 1].0;
        assert(pts[i].0 >= pts[i + 1].0);
    }
}

/// Reads the colors of a gradient description and checks its control points.
fn describe_gradient(theme: &Theme, name: &String, gd: &GradientDescription) -> (r: Result<
    Gradient,
    LoadError,
>)
    ensures
        match r {
            Ok(g) => {
                &&& g.wf()
                &&& g.mode_spec() == gd.mode
                &&& points_described(theme.prefix_text(), *gd, g.point_list())
                &&& gradient_colors_ok(*gd)
                &&& positions_error(gd.points@) is None
            },
            Err(e) => match e {
                LoadError::Color(c) => color_text_malformed(c.fragment@) && exists|j: int|
                    0 <= j < gd.points@.len() && (#[trigger] gd.points@[j]).1@ == c.fragment@,
                LoadError::Gradient { palette, error } => palette@ == name@ && gradient_error_in(
                    *gd,
                    error,
                ),
                _ => false,
            },
        },
{
    let mut pts: Vec<(u32, Color)> = Vec::new();
    let mut i: usize = 0;
    while i < gd.points.len()
        invariant
            i <= gd.points@.len(),
            pts@.len() == i,
            forall|j: int|
                0 <= j < i ==> (#[trigger] pts@[j]).0 == gd.points@[j].0 && color_described(
                    theme.prefix_text(),
                    gd.points@[j].1,
                    pts@[j].1,
                ) && pts@[j].1.wf() && !color_text_malformed(gd.points@[j].1@),
        decreases gd.points@.len() - i,
    {
        let c = match describe_color(theme, &gd.points[i].1) {
            Ok(c) => c,
            Err(e) => {
                proof {
                    assert(gd.points@[i as int].1@ == e.fragment@);
                }
                return Err(load_error_of_color(e));
            },
        };
        pts.push((gd.points[i].0, c));
        i = i + 1;
    }
    let ghost pv = pts@;
    proof {
        assert(points_described(theme.prefix_text(), *gd, pv));
        assert forall|j: int| 0 <= j < gd.points@.len() implies !color_text_malformed(
            (#[trigger] gd.points@[j]).1@,
        ) by {
            assert(pv[j].0 == gd.points@[j].0);
        }
        lemma_positions_error(theme.prefix_text(), *gd, pv);
    }
    match Gradient::new(pts, gd.mode) {
        Ok(g) => Ok(g),
        Err(error) => Err(LoadError::Gradient { palette: name.clone(), error }),
    }
}

/// Whether the explicit selectors of `d` name `q`.
pub open spec fn selector_named(d: PaletteDescription, q: Seq<char>) -> bool {
    match d.selectors {
        Some(sel) => has_key(sel@, q),
        None => false,
    }
}

/// Whether `q` is one of the eleven step names.
pub open spec fn is_step_name(q: Seq<char>) -> bool {
    exists|k: int| 0 <= k <= 10 && #[trigger] step_name(k) == q
}

/// Step `k` of the entries is the constant color that the control points `ps` give at
/// `k / 10` in the color space `mode`.
pub open spec fn step_sampled(
    ps: Seq<(u32, Color)>,
    mode: GradientMode,
    s: Seq<(String, ColorByMode)>,
    k: int,
) -> bool {
    match lookup(s, step_name(k)) {
        Some(ColorByMode::Constant(c)) => sample(ps, mode, step_position(k)) == Ok::<
            Color,
            ConversionError,
        >(c),
        _ => false,
    }
}

/// No color text of the palette description is malformed.
pub open spec fn colors_well_formed(d: PaletteDescription) -> bool {
    &&& match d.gradient {
        Some(gd) => gradient_colors_ok(gd),
        None => true,
    }
    &&& match d.selectors {
        Some(sel) => forall|j: int|
            0 <= j < sel@.len() ==> match (#[trigger] sel@[j]).1 {
                SelectorDescription::Constant(c) => !color_text_malformed(c@),
                SelectorDescription::DarkLight { dark, light } => !color_text_malformed(dark@)
                    && !color_text_malformed(light@),
            },
        None => true,
    }
}

/// A palette description loads: its color texts are well formed, and its gradient, if
/// any, has usable positions, converts every control point into its color space and
/// can be sampled at every step.
pub open spec fn palette_loadable(prefix: Seq<char>, d: PaletteDescription) -> bool {
    &&& colors_well_formed(d)
    &&& match d.gradient {
        Some(gd) => positions_error(gd.points@) is None && conversions_succeed(prefix, gd),
        None => true,
    }
}

/// `p` is built from `desc` for a theme with the given prefix: it is well formed; its
/// selectors are the eleven step names (when a gradient is described) and the explicit
/// selectors, no others; each step that no explicit selector overrides is the constant
/// color that the gradient read from the description gives at that step; and each
/// explicit selector (the last entry of its name) holds the colors its description
/// describes.
pub open spec fn palette_described(prefix: Seq<char>, desc: PaletteDescription, p: Palette) -> bool {
    &&& p.wf()
    &&& desc.gradient is Some ==> forall|k: int| 0 <= k <= 10 ==> #[trigger] has_key(p@, step_name(k))
    &&& forall|q: Seq<char>|
        #[trigger] has_key(p@, q) ==> (desc.gradient is Some && is_step_name(q)) || selector_named(
            desc,
            q,
        )
    &&& match desc.gradient {
        Some(gd) => exists|ps: Seq<(u32, Color)>|
            #[trigger] points_described(prefix, gd, ps) && forall|k: int|
                0 <= k <= 10 ==> selector_named(desc, step_name(k)) || #[trigger] step_sampled(
                    ps,
                    gd.mode,
                    p@,
                    k,
                ),
        None => true,
    }
    &&& match desc.selectors {
        Some(sel) => forall|i: int|
            0 <= i < sel@.len() && last_of_key(sel@, i, sel@.len() as int) ==> match lookup(
                p@,
                #[trigger] sel@[i].0@,
            ) {
                Some(e) => selector_described(prefix, sel@[i].1, e),
                None => false,
            },
        None => true,
    }
}

/// Why a palette description fails with a gradient error: its gradient's colors are
/// readable and its positions fail with `error`.
pub open spec fn palette_gradient_error(d: PaletteDescription, error: GradientError) -> bool {
    match d.gradient {
        Some(gd) => gradient_error_in(gd, error),
        None => false,
    }
}

/// Why a palette description fails with a conversion error: a gradient read from it
/// fails with `error`, at a control point or at one of the eleven steps.
pub open spec fn palette_conversion_error(prefix: Seq<char>, d: PaletteDescription, error: ConversionError) -> bool {
    match d.gradient {
        Some(gd) => conversion_fails(prefix, gd, error),
        None => false,
    }
}

/// Builds one palette: the gradient steps first, then the explicit selectors in order,
/// each replacing any earlier entry of its name. It fails exactly when the description
/// does not load, with an error that says why.
pub fn build_palette(theme: &Theme, name: &String, desc: &PaletteDescription) -> (r: Result<
    Palette,
    LoadError,
>)
    ensures
        match r {
            Ok(p) => palette_described(theme.prefix_text(), *desc, p),
            Err(e) => match e {
                LoadError::Color(c) => color_text_malformed(c.fragment@) && palette_has_color_text(
                    *desc,
                    c.fragment@,
                ),
                LoadError::Gradient { palette, error } => palette@ == name@
                    && palette_gradient_error(*desc, error),
                LoadError::Conversion { palette, error } => palette@ == name@
                    && palette_conversion_error(theme.prefix_text(), *desc, error),
            },
        },
        palette_loadable(theme.prefix_text(), *desc) ==> r is Ok,
{
    let ghost prefix = theme.prefix_text();
    let ghost mut gps: Seq<(u32, Color)> = Seq::empty();
    let mut palette = match &desc.gradient {
        Some(gd) => {
            let g = match describe_gradient(theme, name, gd) {
                Ok(g) => g,
                Err(e) => {
                    proof {
                        if let LoadError::Color(c) = &e {
                            let j = choose|j: int|
                                0 <= j < gd.points@.len() && (#[trigger] gd.points@[j]).1@
                                    == c.fragment@;
                            assert(!gradient_colors_ok(*gd));
                        }
                    }
                    return Err(e);
                },
            };
            proof {
                gps = g.point_list();
            }
            match g.check_conversions() {
                Ok(_) => {},
                Err(error) => {
                    proof {
                        assert(points_described(prefix, *gd, gps));
                        let i = choose|i: int|
                            0 <= i < gps.len() && point_conversion(gd.mode, (#[trigger] gps[i]).1)
                                == Some(error);
                        assert(conversion_fails(prefix, *gd, error));
                    }
                    return Err(LoadError::Conversion { palette: name.clone(), error });
                },
            }
            match gradient_palette(&g) {
                Ok(p) => {
                    proof {
                        assert forall|k: int| 0 <= k <= 10 implies #[trigger] has_key(p@, step_name(k)) by {
                            assert(Seq::new(GRADIENT_STEPS as nat, |j: int| step_name(j))[k] == step_name(k));
                            assert(keys(p@).len() == p@.len());
                            assert(keys(p@)[k] == step_name(k));
                            assert(keys(p@)[k] == p@[k].0@);
                        }
                        assert forall|q: Seq<char>| #[trigger] has_key(p@, q) implies is_step_name(q) by {
                            let w = choose|w: int| 0 <= w < p@.len() && #[trigger] p@[w].0@ == q;
                            assert(keys(p@).len() == p@.len());
                            assert(keys(p@).len() == GRADIENT_STEPS);
                            assert(keys(p@)[w] == p@[w].0@);
                            assert(Seq::new(GRADIENT_STEPS as nat, |j: int| step_name(j))[w] == step_name(w));
                            assert(step_name(w) == q);
                            assert(0 <= w <= 10);
                        }
                        assert forall|k: int| 0 <= k <= 10 implies #[trigger] step_sampled(
                            gps,
                            gd.mode,
                            p@,
                            k,
                        ) by {
                            assert(step_holds(g, p@, k));
                        }
                    }
                    p
                },
                Err(error) => {
                    proof {
                        assert(points_described(prefix, *gd, gps));
                        let k = choose|k: int|
                            0 <= k <= 10 && #[trigger] sample(
                                g.point_list(),
                                g.mode_spec(),
                                step_position(k),
                            ) == Err::<Color, ConversionError>(error);
                        assert(sample(gps, gd.mode, step_position(k)) == Err::<
                            Color,
                            ConversionError,
                        >(error));
                        assert(conversion_fails(prefix, *gd, error));
                    }
                    return Err(LoadError::Conversion { palette: name.clone(), error });
                },
            }
        },
        None => Palette::new(),
    };
    let ghost base = palette@;
    proof {
        match &desc.gradient {
            Some(gd) => {
                assert(points_described(prefix, *gd, gps));
            },
            None => {
                assert forall|q: Seq<char>| !has_key(base, q) by {}
            },
        }
    }
    match &desc.selectors {
        None => {
            proof {
                match &desc.gradient {
                    Some(gd) => {
                        assert(forall|k: int|
                            0 <= k <= 10 ==> selector_named(*desc, step_name(k)) || #[trigger] step_sampled(
                                gps,
                                gd.mode,
                                palette@,
                                k,
                            ));
                    },
                    None => {},
                }
            }
        },
        Some(sel) => {
            let mut i: usize = 0;
            while i < sel.len()
                invariant
                    i <= sel@.len(),
                    desc.selectors == Some(*sel),
                    prefix == theme.prefix_text(),
                    palette.wf(),
                    forall|q: Seq<char>| has_key(base, q) ==> #[trigger] has_key(palette@, q),
                    forall|q: Seq<char>|
                        #[trigger] has_key(palette@, q) ==> has_key(base, q) || has_key(
                            sel@.subrange(0, i as int),
                            q,
                        ),
                    desc.gradient is None ==> forall|q: Seq<char>| !#[trigger] has_key(base, q),
                    desc.gradient is Some ==> forall|q: Seq<char>|
                        #[trigger] has_key(base, q) ==> is_step_name(q),
                    match &desc.gradient {
                        Some(gd) => points_described(prefix, *gd, gps) && forall|k: int|
                            0 <= k <= 10 ==> has_key(sel@.subrange(0, i as int), step_name(k))
                                || #[trigger] step_sampled(gps, gd.mode, palette@, k),
                        None => true,
                    },
                    forall|j: int|
                        0 <= j < i && last_of_key(sel@, j, i as int) ==> match lookup(
                            palette@,
                            #[trigger] sel@[j].0@,
                        ) {
                            Some(e) => selector_described(theme.prefix_text(), sel@[j].1, e),
                            None => false,
                        },
                decreases sel@.len() - i,
            {
                let key = sel[i].0.as_str();
                let ghost before = palette@;
                match &sel[i].1 {
                    SelectorDescription::Constant(t) => {
                        let c = match describe_color(theme, t) {
                            Ok(c) => c,
                            Err(e) => {
                                proof {
                                    assert(sel@[i as int].1 == SelectorDescription::Constant(*t));
                                    assert(!colors_well_formed(*desc));
                                }
                                return Err(load_error_of_color(e));
                            },
                        };
                        palette.insert_constant(key, c);
                    },
                    SelectorDescription::DarkLight { dark, light } => {
                        let d = match describe_color(theme, dark) {
                            Ok(c) => c,
                            Err(e) => {
                                proof {
                                    assert(sel@[i as int].1 == SelectorDescription::DarkLight {
                                        dark: *dark,
                                        light: *light,
                                    });
                                    assert(match sel@[i as int].1 {
                                        SelectorDescription::Constant(c) => c@ == e.fragment@,
                                        SelectorDescription::DarkLight { dark, light } => dark@
                                            == e.fragment@ || light@ == e.fragment@,
                                    });
                                    assert(!colors_well_formed(*desc));
                                }
                                return Err(load_error_of_color(e));
                            },
                        };
                        let l = match describe_color(theme, light) {
                            Ok(c) => c,
                            Err(e) => {
                                proof {
                                    assert(sel@[i as int].1 == SelectorDescription::DarkLight {
                                        dark: *dark,
                                        light: *light,
                                    });
                                    assert(match sel@[i as int].1 {
                                        SelectorDescription::Constant(c) => c@ == e.fragment@,
                                        SelectorDescription::DarkLight { dark, light } => dark@
                                            == e.fragment@ || light@ == e.fragment@,
                                    });
                                    assert(!colors_well_formed(*desc));
                                }
                                return Err(load_error_of_color(e));
                            },
                        };
                        palette.insert_by_mode(key, d, l);
                    },
                }
                proof {
                    let sub = sel@.subrange(0, i as int);
                    let sub1 = sel@.subrange(0, i + 1);
                    assert(sub1[i as int] == sel@[i as int]);
                    assert(has_key(sub1, key@));
                    assert forall|q: Seq<char>| has_key(sub, q) implies has_key(sub1, q) by {
                        let w = choose|w: int| 0 <= w < sub.len() && #[trigger] sub[w].0@ == q;
                        assert(sub1[w] == sub[w]);
                    }
                    assert forall|q: Seq<char>| has_key(base, q) implies #[trigger] has_key(palette@, q) by {
                        assert(has_key(before, q));
                        crate::assoc::lemma_lookup_absent_or_found(before, q);
                        crate::assoc::lemma_lookup_absent_or_found(palette@, q);
                    }
                    assert forall|q: Seq<char>| #[trigger] has_key(palette@, q) implies has_key(base, q)
                        || has_key(sub1, q) by {
                        crate::assoc::lemma_lookup_absent_or_found(before, q);
                        crate::assoc::lemma_lookup_absent_or_found(palette@, q);
                        if q != key@ {
                            assert(has_key(before, q));
                        }
                    }
                    match &desc.gradient {
                        Some(gd) => {
                            assert forall|k: int| 0 <= k <= 10 implies has_key(sub1, step_name(k))
                                || #[trigger] step_sampled(gps, gd.mode, palette@, k) by {
                                if step_name(k) != key@ {
                                    if !has_key(sub, step_name(k)) {
                                        assert(step_sampled(gps, gd.mode, before, k));
                                    }
                                }
                            }
                        },
                        None => {},
                    }
                    assert forall|j: int|
                        0 <= j < i + 1 && last_of_key(sel@, j, i + 1) implies match lookup(
                        palette@,
                        #[trigger] sel@[j].0@,
                    ) {
                        Some(e) => selector_described(theme.prefix_text(), sel@[j].1, e),
                        None => false,
                    } by {
                        if j < i {
                            assert(sel@[i as int].0@ != sel@[j].0@);
                            assert(last_of_key(sel@, j, i as int));
                        }
                    }
                }
                i = i + 1;
            }
            proof {
                assert(sel@.subrange(0, sel@.len() as int) =~= sel@);
            }
        },
    }
    proof {
        match &desc.gradient {
            Some(gd) => {
                assert(points_described(prefix, *gd, gps));
            },
            None => {},
        }
    }
    Ok(palette)
}

/// The prefix of the theme that a description builds: its own, or `happy`.
pub open spec fn description_prefix(desc: ThemeDescription) -> Seq<char> {
    match desc.prefix {
        Some(p) => p@,
        None => "happy"@,
    }
}

/// Builds a theme from its description: the prefix (`happy` when absent), then each
/// palette in order, replacing any earlier palette of the same name. Color texts that
/// name `palette.selector` become that selector's custom property. It fails exactly
/// when some palette description does not load, with the error of the first one.
pub fn from_theme_description(desc: &ThemeDescription) -> (r: Result<Theme, LoadError>)
    ensures
        match r {
            Ok(t) => {
                &&& t.wf()
                &&& t.prefix_text() == description_prefix(*desc)
                &&& forall|i: int|
                    0 <= i < desc.palettes@.len() ==> #[trigger] t.palette_spec(
                        desc.palettes@[i].0@,
                    ) is Some
                &&& forall|q: Seq<char>|
                    #[trigger] t.palette_spec(q) is Some ==> has_key(desc.palettes@, q)
                &&& forall|i: int|
                    0 <= i < desc.palettes@.len() && last_of_key(
                        desc.palettes@,
                        i,
                        desc.palettes@.len() as int,
                    ) ==> match #[trigger] t.palette_spec(desc.palettes@[i].0@) {
                        Some(p) => palette_described(t.prefix_text(), desc.palettes@[i].1, p),
                        None => false,
                    }
            },
            Err(e) => match e {
                LoadError::Color(c) => color_text_malformed(c.fragment@) && exists|i: int|
                    0 <= i < desc.palettes@.len() && palette_has_color_text(
                        #[trigger] desc.palettes@[i].1,
                        c.fragment@,
                    ),
                LoadError::Gradient { palette, error } => exists|i: int|
                    0 <= i < desc.palettes@.len() && #[trigger] desc.palettes@[i].0@ == palette@
                        && palette_gradient_error(desc.palettes@[i].1, error),
                LoadError::Conversion { palette, error } => exists|i: int|
                    0 <= i < desc.palettes@.len() && #[trigger] desc.palettes@[i].0@ == palette@
                        && palette_conversion_error(
                        description_prefix(*desc),
                        desc.palettes@[i].1,
                        error,
                    ),
            },
        },
        (forall|i: int|
            0 <= i < desc.palettes@.len() ==> #[trigger] palette_loadable(
                description_prefix(*desc),
                desc.palettes@[i].1,
            )) ==> r is Ok,
{
    let mut theme = match &desc.prefix {
        Some(p) => Theme::with_prefix(p.as_str()),
        None => Theme::new(),
    };
    let ghost prefix = theme.prefix_text();
    let mut i: usize = 0;
    while i < desc.palettes.len()
        invariant
            i <= desc.palettes@.len(),
            theme.wf(),
            theme.prefix_text() == prefix,
            prefix == description_prefix(*desc),
            forall|j: int|
                0 <= j < i ==> #[trigger] theme.palette_spec(desc.palettes@[j].0@) is Some,
            forall|q: Seq<char>|
                #[trigger] theme.palette_spec(q) is Some ==> has_key(
                    desc.palettes@.subrange(0, i as int),
                    q,
                ),
            forall|j: int|
                0 <= j < i && last_of_key(desc.palettes@, j, i as int) ==> match #[trigger] theme.palette_spec(
                    desc.palettes@[j].0@,
                ) {
                    Some(p) => palette_described(prefix, desc.palettes@[j].1, p),
                    None => false,
                },
        decreases desc.palettes@.len() - i,
    {
        let name = &desc.palettes[i].0;
        let p = match build_palette(&theme, name, &desc.palettes[i].1) {
            Ok(p) => p,
            Err(e) => {
                proof {
                    assert(desc.palettes@[i as int].0@ == name@);
                    assert(desc.palettes@[i as int].1 == desc.palettes[i as int].1);
                    assert(!palette_loadable(prefix, desc.palettes@[i as int].1));
                }
                return Err(e);
            },
        };
        theme.insert_palette(name.as_str(), p);
        proof {
            let sub = desc.palettes@.subrange(0, i as int);
            let sub1 = desc.palettes@.subrange(0, i + 1);
            assert(sub1[i as int] == desc.palettes@[i as int]);
            assert forall|q: Seq<char>| #[trigger] theme.palette_spec(q) is Some implies has_key(
                sub1,
                q,
            ) by {
                if q == name@ {
                    assert(sub1[i as int].0@ == q);
                } else {
                    let w = choose|w: int| 0 <= w < sub.len() && #[trigger] sub[w].0@ == q;
                    assert(sub1[w] == sub[w]);
                }
            }
            assert forall|j: int| 0 <= j < i + 1 implies #[trigger] theme.palette_spec(
                desc.palettes@[j].0@,
            ) is Some by {}
            assert forall|j: int|
                0 <= j < i + 1 && last_of_key(desc.palettes@, j, i + 1) implies match #[trigger] theme.palette_spec(
                desc.palettes@[j].0@,
            ) {
                Some(p) => palette_described(prefix, desc.palettes@[j].1, p),
                None => false,
            } by {
                if j < i {
                    assert(desc.palettes@[i as int].0@ != desc.palettes@[j].0@);
                    assert(last_of_key(desc.palettes@, j, i as int));
                }
            }
        }
        i = i + 1;
    }
    proof {
        assert(desc.palettes@.subrange(0, desc.palettes@.len() as int) =~= desc.palettes@);
    }
    Ok(theme)
}

/// Loading a palette described by a gradient of two colors at zero and one, with no
/// explicit selectors, gives exactly the eleven step selectors `000` to `100`, each the
/// constant linear blend of the two colors read from the description at its step.
pub proof fn lemma_loaded_two_color_gradient(prefix: Seq<char>, d: PaletteDescription, p: Palette)
    requires
        palette_described(prefix, d, p),
        d.selectors is None,
        d.gradient matches Some(gd) && gd.points@.len() == 2 && gd.points@[0].0 == 0
            && gd.points@[1].0 == POSITION_SCALE,
    ensures
        forall|q: Seq<char>| #[trigger] has_key(p@, q) <==> is_step_name(q),
        exists|ps: Seq<(u32, Color)>|
            #[trigger] points_described(prefix, d.gradient->Some_0, ps) && forall|k: int|
                0 <= k <= 10 ==> match #[trigger] lookup(p@, step_name(k)) {
                    Some(ColorByMode::Constant(c)) => blend(
                        d.gradient->Some_0.mode,
                        ps[0].1,
                        ps[1].1,
                        step_position(k),
                        POSITION_SCALE as int,
                    ) == Ok::<Color, ConversionError>(c),
                    _ => false,
                },
{
    let gd = d.gradient->Some_0;
    assert forall|q: Seq<char>| is_step_name(q) implies #[trigger] has_key(p@, q) by {
        let k = choose|k: int| 0 <= k <= 10 && #[trigger] step_name(k) == q;
        assert(has_key(p@, step_name(k)));
    }
    let ps = choose|ps: Seq<(u32, Color)>|
        #[trigger] points_described(prefix, gd, ps) && forall|k: int|
            0 <= k <= 10 ==> selector_named(d, step_name(k)) || #[trigger] step_sampled(
                ps,
                gd.mode,
                p@,
                k,
            );
    assert(ps[0].0 == 0 && ps[1].0 == POSITION_SCALE);
    assert forall|k: int| 0 <= k <= 10 implies match #[trigger] lookup(p@, step_name(k)) {
        Some(ColorByMode::Constant(c)) => blend(
            gd.mode,
            ps[0].1,
            ps[1].1,
            step_position(k),
            POSITION_SCALE as int,
        ) == Ok::<Color, ConversionError>(c),
        _ => false,
    } by {
        assert(step_sampled(ps, gd.mode, p@, k));
        lemma_two_point_sample(ps, gd.mode, step_position(k));
    }
}

} // verus!

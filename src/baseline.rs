//! The base style sheet: every palette selector as a custom property on `html`, and
//! the default look of the root, the body and system components.
use vstd::prelude::*;

use crate::assoc::{has_key, keys, lookup};
use crate::color::Color;
use crate::palette::ThemeMode;
use crate::sx::{
    lemma_merge_keys, lemma_merge_keys_from, lemma_merge_left_wins, lemma_merge_nested,
    lemma_merge_right_only, merge_rel, sx_wf, value_wf, Sx, SxValue,
};
use crate::text::push_str;
use crate::theme::{palette_var_text, Theme};

verus! {

/// A copy of a color.
pub fn copy_color(c: &Color) -> (r: Color)
    ensures
        r == *c,
    decreases c,
{
    match c {
        Color::Named(n) => Color::Named(n.clone()),
        Color::Hex(v) => Color::Hex(*v),
        Color::OpaqueHex(v) => Color::OpaqueHex(*v),
        Color::Rgb { r, g, b } => Color::Rgb { r: *r, g: *g, b: *b },
        Color::Rgba { r, g, b, a } => Color::Rgba { r: *r, g: *g, b: *b, a: *a },
        Color::Hsl { h, s, l } => Color::Hsl { h: *h, s: *s, l: *l },
        Color::Hsla { h, s, l, a } => Color::Hsla { h: *h, s: *s, l: *l, a: *a },
        Color::Var { var, fallback } => Color::Var {
            var: var.clone(),
            fallback: match fallback {
                Some(f) => Some(Box::new(copy_color(f))),
                None => None,
            },
        },
        Color::Literal(t) => Color::Literal(t.clone()),
    }
}

/// The color in rgba form where it has channels, and unchanged otherwise.
pub fn rgba_or_same(c: &Color) -> (r: Color)
    requires
        c.wf(),
    ensures
        match c.rgba_spec() {
            Ok(ch) => r == Color::Rgba { r: ch.r, g: ch.g, b: ch.b, a: ch.a },
            Err(_) => r == *c,
        },
{
    match c.to_rgba() {
        Ok(ch) => Color::Rgba { r: ch.r, g: ch.g, b: ch.b, a: ch.a },
        Err(_) => copy_color(c),
    }
}

/// A document of one entry.
fn single(key: &str, value: SxValue) -> (r: Sx)
    requires
        value_wf(value),
    ensures
        sx_wf(r),
        has_key(r@, key@),
        lookup(r@, key@) == Some(value),
        forall|q: Seq<char>| #[trigger] has_key(r@, q) ==> q == key@,
{
    let mut s = Sx::new();
    s.insert(key, value);
    proof {
        assert(lookup(s@, key@) is Some);
        crate::assoc::lemma_lookup_absent_or_found(s@, key@);
        assert forall|q: Seq<char>| #[trigger] has_key(s@, q) implies q == key@ by {
            crate::assoc::lemma_lookup_absent_or_found(s@, q);
        }
    }
    s
}

fn literal(text: &str) -> (r: SxValue)
    ensures
        value_wf(r),
{
    SxValue::from_text(text)
}

/// Merges `b` into `a`, keeping the keys of both.
fn merge_keeping(a: Sx, b: Sx) -> (r: Sx)
    requires
        sx_wf(a),
        sx_wf(b),
    ensures
        sx_wf(r),
        merge_rel(a@, b@, r@),
        forall|q: Seq<char>| has_key(a@, q) || has_key(b@, q) ==> #[trigger] has_key(r@, q),
        forall|q: Seq<char>| #[trigger] has_key(r@, q) ==> has_key(a@, q) || has_key(b@, q),
{
    let ghost (ga, gb) = (a, b);
    let r = a.merge(b);
    proof {
        assert forall|q: Seq<char>| has_key(ga@, q) || has_key(gb@, q) implies #[trigger] has_key(r@, q) by {
            lemma_merge_keys(ga, gb, r, q);
        }
        assert forall|q: Seq<char>| #[trigger] has_key(r@, q) implies has_key(ga@, q) || has_key(gb@, q) by {
            lemma_merge_keys_from(ga, gb, r, q);
        }
    }
    r
}

/// The document under `html`, if `s` holds one there.
pub open spec fn html_doc(s: Sx) -> Option<Sx> {
    match lookup(s@, "html"@) {
        Some(SxValue::Nested(h)) => Some(h),
        _ => None,
    }
}

/// `h` holds the custom property of every selector of the first `n` palettes of `theme`.
pub open spec fn has_palette_vars(theme: Theme, n: int, h: Sx) -> bool {
    forall|i: int, q: Seq<char>|
        0 <= i < n && has_key(theme.palette_list()[i].1@, q) ==> #[trigger] has_key(
            h@,
            palette_var_text(theme.prefix_text(), theme.palette_list()[i].0@, q),
        )
}

/// The color that the base style sheet writes for a selected color: its rgba form
/// where it has channels in range, else the color itself.
pub open spec fn baseline_color(c: Color) -> Color {
    if c.wf() {
        match c.rgba_spec() {
            Ok(ch) => Color::Rgba { r: ch.r, g: ch.g, b: ch.b, a: ch.a },
            Err(_) => c,
        }
    } else {
        c
    }
}

/// No earlier palette than `i` gives any of its selectors the custom property of
/// selector `q` of palette `i`.
pub open spec fn first_producer(theme: Theme, i: int, q: Seq<char>) -> bool {
    forall|i2: int, q2: Seq<char>|
        0 <= i2 < i && has_key(theme.palette_list()[i2].1@, q2) ==> #[trigger] palette_var_text(
            theme.prefix_text(),
            theme.palette_list()[i2].0@,
            q2,
        ) != palette_var_text(theme.prefix_text(), theme.palette_list()[i].0@, q)
}

/// Under the custom property of each selector of the first `n` palettes, `h` holds the
/// selected color as `baseline_color` writes it, where that palette is the first to
/// give the property.
pub open spec fn has_palette_values(theme: Theme, mode: ThemeMode, n: int, h: Sx) -> bool {
    forall|i: int, q: Seq<char>|
        0 <= i < n && has_key(theme.palette_list()[i].1@, q) && first_producer(theme, i, q)
            ==> #[trigger] lookup(
            h@,
            palette_var_text(theme.prefix_text(), theme.palette_list()[i].0@, q),
        ) == Some(
            SxValue::Color(
                baseline_color(theme.palette_list()[i].1.select_spec(q, mode)->Some_0),
            ),
        )
}

/// Every key of `h` is the custom property of a selector of the first `n` palettes.
pub open spec fn vars_only(theme: Theme, n: int, h: Sx) -> bool {
    forall|k: Seq<char>|
        #[trigger] has_key(h@, k) ==> exists|i: int, q: Seq<char>|
            0 <= i < n && has_key(theme.palette_list()[i].1@, q) && #[trigger] palette_var_text(
                theme.prefix_text(),
                theme.palette_list()[i].0@,
                q,
            ) == k
}

proof fn lemma_var_injective(prefix: Seq<char>, p: Seq<char>, a: Seq<char>, b: Seq<char>)
    requires
        palette_var_text(prefix, p, a) == palette_var_text(prefix, p, b),
    ensures
        a == b,
{
    let base = "--"@ + prefix + "-palette-"@ + p + "-"@;
    assert(palette_var_text(prefix, p, a) == base + a);
    assert(palette_var_text(prefix, p, b) == base + b);
    assert(a =~= (base + a).subrange(base.len() as int, (base + a).len() as int));
    assert(b =~= (base + b).subrange(base.len() as int, (base + b).len() as int));
}

proof fn lemma_html_wf(s: Sx)
    requires
        sx_wf(s),
        html_doc(s) is Some,
    ensures
        sx_wf(html_doc(s)->Some_0),
{
    crate::assoc::lemma_lookup_absent_or_found(s@, "html"@);
    let w = choose|w: int| 0 <= w < s@.len() && #[trigger] s@[w].0@ == "html"@;
    crate::assoc::lemma_lookup_unique(s@, w);
    assert(s@[w].1 == SxValue::Nested(html_doc(s)->Some_0));
}

/// `.{prefix}-system`
pub open spec fn system_class_text(prefix: Seq<char>) -> Seq<char> {
    "."@ + prefix + "-system"@
}

/// The base style sheet of a theme under a concrete mode: each palette selector as the
/// custom property `--{prefix}-palette-{palette}-{selector}` on `html` (in rgba form
/// where the color has channels), then the root colors, the outlined success variant
/// of system components, and the body.
pub fn baseline(theme: &Theme, mode: &ThemeMode) -> (r: Sx)
    requires
        *mode != ThemeMode::System,
        theme.wf(),
    ensures
        sx_wf(r),
        theme.palette_list().len() > 0 ==> match html_doc(r) {
            Some(h) => has_palette_vars(*theme, theme.palette_list().len() as int, h)
                && has_palette_values(*theme, *mode, theme.palette_list().len() as int, h),
            None => false,
        },
        has_key(r@, ":root"@),
        has_key(r@, system_class_text(theme.prefix_text())),
        has_key(r@, "body"@),
{
    let mut emit = Sx::new();
    let palettes = theme.palettes();
    let mut i: usize = 0;
    while i < palettes.len()
        invariant
            sx_wf(emit),
            *mode != ThemeMode::System,
            palettes@ == theme.palette_list(),
            i <= palettes@.len(),
            i == 0 ==> emit@.len() == 0,
            theme.wf(),
            i > 0 ==> match html_doc(emit) {
                Some(h) => has_palette_vars(*theme, i as int, h) && sx_wf(h)
                    && has_palette_values(*theme, *mode, i as int, h) && vars_only(*theme, i as int, h),
                None => false,
            },
        decreases palettes@.len() - i,
    {
        let palette_name = palettes[i].0.as_str();
        let palette = &palettes[i].1;
        proof {
            assert(palette.wf());
        }
        let selectors = palette.selectors();
        let mut to_merge = Sx::new();
        let mut j: usize = 0;
        while j < selectors.len()
            invariant
                sx_wf(to_merge),
                *mode != ThemeMode::System,
                j <= selectors@.len(),
                selectors@.map_values(|s: String| s@) == keys(palette@),
                palette_name@ == theme.palette_list()[i as int].0@,
                forall|w: int|
                    0 <= w < j ==> #[trigger] has_key(
                        to_merge@,
                        palette_var_text(theme.prefix_text(), palette_name@, selectors@[w]@),
                    ),
                *palette == theme.palette_list()[i as int].1,
                palette.wf(),
                forall|w: int|
                    0 <= w < j ==> #[trigger] lookup(
                        to_merge@,
                        palette_var_text(theme.prefix_text(), palette_name@, selectors@[w]@),
                    ) == Some(
                        SxValue::Color(baseline_color(palette.select_spec(selectors@[w]@, *mode)->Some_0)),
                    ),
                forall|k: Seq<char>|
                    #[trigger] has_key(to_merge@, k) ==> exists|w: int|
                        0 <= w < j && #[trigger] palette_var_text(
                            theme.prefix_text(),
                            palette_name@,
                            selectors@[w]@,
                        ) == k,
            decreases selectors@.len() - j,
        {
            let selector_name = selectors[j].as_str();
            proof {
                assert(keys(palette@).len() == palette@.len());
                assert(selectors@.map_values(|s: String| s@).len() == selectors@.len());
                assert(keys(palette@)[j as int] == palette@[j as int].0@);
                assert(selectors@.map_values(|s: String| s@)[j as int] == selector_name@);
                assert(has_key(palette@, selector_name@));
                crate::assoc::lemma_lookup_absent_or_found(palette@, selector_name@);
            }
            match palette.get(selector_name, mode) {
                Some(c) => {
                    let value = if c.is_wf() {
                        rgba_or_same(c)
                    } else {
                        copy_color(c)
                    };
                    let var = theme.palette_var(palette_name, selector_name);
                    let ghost before = to_merge@;
                    to_merge.insert(var.as_str(), SxValue::Color(value));
                    proof {
                        let pre = theme.prefix_text();
                        assert forall|w: int| 0 <= w < j + 1 implies #[trigger] has_key(
                            to_merge@,
                            palette_var_text(theme.prefix_text(), palette_name@, selectors@[w]@),
                        ) by {
                            let q = palette_var_text(theme.prefix_text(), palette_name@, selectors@[w]@);
                            crate::assoc::lemma_lookup_absent_or_found(before, q);
                            crate::assoc::lemma_lookup_absent_or_found(to_merge@, q);
                        }
                        assert forall|w: int| 0 <= w < j + 1 implies #[trigger] lookup(
                            to_merge@,
                            palette_var_text(theme.prefix_text(), palette_name@, selectors@[w]@),
                        ) == Some(
                            SxValue::Color(baseline_color(palette.select_spec(selectors@[w]@, *mode)->Some_0)),
                        ) by {
                            if w < j {
                                assert(keys(palette@)[w] == palette@[w].0@);
                                assert(selectors@.map_values(|s: String| s@)[w] == selectors@[w]@);
                                assert(selectors@[w]@ != selector_name@);
                                if palette_var_text(pre, palette_name@, selectors@[w]@)
                                    == palette_var_text(pre, palette_name@, selector_name@) {
                                    lemma_var_injective(pre, palette_name@, selectors@[w]@, selector_name@);
                                }
                            }
                        }
                        assert forall|k: Seq<char>| #[trigger] has_key(to_merge@, k) implies exists|w: int|
                            0 <= w < j + 1 && #[trigger] palette_var_text(
                                theme.prefix_text(),
                                palette_name@,
                                selectors@[w]@,
                            ) == k by {
                            crate::assoc::lemma_lookup_absent_or_found(before, k);
                            crate::assoc::lemma_lookup_absent_or_found(to_merge@, k);
                            if k == var@ {
                                assert(palette_var_text(pre, palette_name@, selectors@[j as int]@) == k);
                            } else {
                                assert(has_key(before, k));
                            }
                        }
                    }
                },
                None => {
                    proof {
                        assert(false);
                    }
                },
            }
            j = j + 1;
        }
        proof {
            assert forall|q: Seq<char>| has_key(palette@, q) implies #[trigger] has_key(
                to_merge@,
                palette_var_text(theme.prefix_text(), palette_name@, q),
            ) by {
                let w = choose|w: int| 0 <= w < palette@.len() && #[trigger] palette@[w].0@ == q;
                assert(keys(palette@).len() == palette@.len());
                assert(selectors@.map_values(|s: String| s@).len() == selectors@.len());
                assert(keys(palette@)[w] == palette@[w].0@);
                assert(selectors@.map_values(|s: String| s@)[w] == selectors@[w]@);
            }
        }
        let ghost old_emit = emit;
        let part = single("html", SxValue::Nested(to_merge));
        let ghost gpart = part;
        emit = merge_keeping(emit, part);
        proof {
            reveal_strlit("html");
            if i == 0 {
                assert(!has_key(old_emit@, "html"@));
                lemma_merge_right_only(old_emit, gpart, emit, "html"@);
                assert(html_doc(emit) == Some(to_merge));
            } else {
                let h = html_doc(old_emit)->Some_0;
                lemma_merge_nested(old_emit, gpart, emit, "html"@, h, to_merge);
            }
            let m = html_doc(emit)->Some_0;
            lemma_html_wf(emit);
            let pre = theme.prefix_text();
            let pl = theme.palette_list();
            assert forall|k: int, q: Seq<char>|
                0 <= k < i + 1 && has_key(theme.palette_list()[k].1@, q) implies #[trigger] has_key(
                m@,
                palette_var_text(theme.prefix_text(), theme.palette_list()[k].0@, q),
            ) by {
                if k < i {
                    let h = html_doc(old_emit)->Some_0;
                    assert(has_key(
                        h@,
                        palette_var_text(theme.prefix_text(), theme.palette_list()[k].0@, q),
                    ));
                } else {
                    assert(has_key(
                        to_merge@,
                        palette_var_text(theme.prefix_text(), palette_name@, q),
                    ));
                }
            }
            // every selector of palette `i` is one of `selectors`
            assert forall|q: Seq<char>| has_key(palette@, q) implies exists|w: int|
                0 <= w < selectors@.len() && selectors@[w]@ == q by {
                let w = choose|w: int| 0 <= w < palette@.len() && #[trigger] palette@[w].0@ == q;
                assert(keys(palette@).len() == palette@.len());
                assert(selectors@.map_values(|s: String| s@).len() == selectors@.len());
                assert(keys(palette@)[w] == palette@[w].0@);
                assert(selectors@.map_values(|s: String| s@)[w] == selectors@[w]@);
            }
            assert forall|k: Seq<char>| #[trigger] has_key(m@, k) implies exists|i2: int, q: Seq<char>|
                0 <= i2 < i + 1 && has_key(pl[i2].1@, q) && #[trigger] palette_var_text(
                    pre,
                    pl[i2].0@,
                    q,
                ) == k by {
                if i > 0 {
                    let h = html_doc(old_emit)->Some_0;
                    lemma_merge_keys_from(h, to_merge, m, k);
                    if has_key(h@, k) {
                        let (i2, q) = choose|i2: int, q: Seq<char>|
                            0 <= i2 < i && has_key(pl[i2].1@, q) && #[trigger] palette_var_text(
                                pre,
                                pl[i2].0@,
                                q,
                            ) == k;
                        assert(palette_var_text(pre, pl[i2].0@, q) == k);
                    } else {
                        let w = choose|w: int|
                            0 <= w < selectors@.len() && #[trigger] palette_var_text(
                                pre,
                                palette_name@,
                                selectors@[w]@,
                            ) == k;
                        assert(keys(palette@).len() == palette@.len());
                        assert(selectors@.map_values(|s: String| s@).len() == selectors@.len());
                        assert(keys(palette@)[w] == palette@[w].0@);
                        assert(selectors@.map_values(|s: String| s@)[w] == selectors@[w]@);
                        assert(has_key(pl[i as int].1@, selectors@[w]@));
                        assert(palette_var_text(pre, pl[i as int].0@, selectors@[w]@) == k);
                    }
                } else {
                    let w = choose|w: int|
                        0 <= w < selectors@.len() && #[trigger] palette_var_text(
                            pre,
                            palette_name@,
                            selectors@[w]@,
                        ) == k;
                    assert(keys(palette@).len() == palette@.len());
                    assert(selectors@.map_values(|s: String| s@).len() == selectors@.len());
                    assert(keys(palette@)[w] == palette@[w].0@);
                    assert(selectors@.map_values(|s: String| s@)[w] == selectors@[w]@);
                    assert(has_key(pl[i as int].1@, selectors@[w]@));
                    assert(palette_var_text(pre, pl[i as int].0@, selectors@[w]@) == k);
                }
            }
            assert forall|k: int, q: Seq<char>|
                0 <= k < i + 1 && has_key(pl[k].1@, q) && first_producer(*theme, k, q)
                    implies #[trigger] lookup(m@, palette_var_text(pre, pl[k].0@, q)) == Some(
                SxValue::Color(baseline_color(pl[k].1.select_spec(q, *mode)->Some_0)),
            ) by {
                let key = palette_var_text(pre, pl[k].0@, q);
                if k < i {
                    let h = html_doc(old_emit)->Some_0;
                    assert(lookup(h@, key) == Some(
                        SxValue::Color(baseline_color(pl[k].1.select_spec(q, *mode)->Some_0)),
                    ));
                    lemma_merge_left_wins(h, to_merge, m, key);
                } else {
                    let w = choose|w: int| 0 <= w < selectors@.len() && selectors@[w]@ == q;
                    assert(lookup(
                        to_merge@,
                        palette_var_text(pre, palette_name@, selectors@[w]@),
                    ) == Some(
                        SxValue::Color(baseline_color(palette.select_spec(selectors@[w]@, *mode)->Some_0)),
                    ));
                    crate::assoc::lemma_lookup_absent_or_found(to_merge@, key);
                    if i > 0 {
                        let h = html_doc(old_emit)->Some_0;
                        if has_key(h@, key) {
                            let (i2, q2) = choose|i2: int, q2: Seq<char>|
                                0 <= i2 < i && has_key(pl[i2].1@, q2) && #[trigger] palette_var_text(
                                    pre,
                                    pl[i2].0@,
                                    q2,
                                ) == key;
                            assert(palette_var_text(pre, pl[i2].0@, q2) != key);
                        }
                        lemma_merge_right_only(h, to_merge, m, key);
                    }
                }
            }
        }
        i = i + 1;
    }

    let root = {
        let mut s = Sx::new();
        s.insert("color", literal("text.primary"));
        s.insert("bgcolor", literal("background.level1"));
        s
    };
    let disabled = {
        let mut s = Sx::new();
        s.insert("borderColor", literal("success.outlinedDisabledBorder"));
        s.insert("color", literal("success.outlinedDisabledColor"));
        s
    };
    let outlined = {
        let mut s = Sx::new();
        s.insert("borderWidth", literal("3px"));
        s.insert("borderColor", literal("success.outlinedBorder"));
        s.insert("borderStyle", literal("solid"));
        s.insert("padding", literal("3px"));
        s.insert("color", literal("success.outlinedColor"));
        s.insert("[disabled]", SxValue::Nested(disabled));
        s
    };
    let mut system_class = String::new();
    push_str(&mut system_class, ".");
    push_str(&mut system_class, theme.prefix_str());
    push_str(&mut system_class, "-system");
    proof {
        reveal_strlit(".");
        reveal_strlit("-system");
        assert(system_class@ =~= system_class_text(theme.prefix_text()));
    }
    let system = single(
        system_class.as_str(),
        SxValue::Nested(
            single("[color=success]", SxValue::Nested(single("[variant=outlined]", SxValue::Nested(outlined)))),
        ),
    );
    let mut second = single(":root", SxValue::Nested(root));
    second = merge_keeping(second, system);
    let body = {
        let mut s = Sx::new();
        s.insert("background-color", literal("background.body"));
        s.insert("margin", literal("0px"));
        s
    };
    let tail = single("body", SxValue::Nested(body));
    let ghost (e0, g2, gt) = (emit, second, tail);
    let emit = merge_keeping(emit, second);
    let ghost e1 = emit;
    let r = merge_keeping(emit, tail);
    proof {
        reveal_strlit("html");
        reveal_strlit(":root");
        reveal_strlit("body");
        assert(!has_key(g2@, "html"@)) by {
            if has_key(g2@, "html"@) {
                assert(system_class@[0] == '.');
                assert(":root"@[0] == ':');
            }
        }
        assert(!has_key(gt@, "html"@)) by {
            if has_key(gt@, "html"@) {
                assert("body"@[0] == 'b');
            }
        }
        if palettes@.len() > 0 {
            crate::assoc::lemma_lookup_absent_or_found(g2@, "html"@);
            crate::assoc::lemma_lookup_absent_or_found(gt@, "html"@);
            lemma_merge_left_wins(e0, g2, e1, "html"@);
            lemma_merge_left_wins(e1, gt, r, "html"@);
        }
    }
    r
}

} // verus!

//! Themes: a naming prefix, named palettes and named breakpoints.
use vstd::prelude::*;

use crate::assoc::{find_key, insert_key, keys, lookup, unique_keys};
use crate::color::Color;
use crate::palette::{ColorByMode, Palette};
use crate::text::push_str;

verus! {

/// A theme owns its palettes and breakpoints; custom properties it names carry its prefix.
pub struct Theme {
    pub prefix: String,
    palettes: Vec<(String, Palette)>,
    breakpoints: Vec<(String, u32)>,
}

/// `--{prefix}-palette-{palette}-{selector}`
pub open spec fn palette_var_text(prefix: Seq<char>, palette: Seq<char>, selector: Seq<char>) -> Seq<
    char,
> {
    "--"@ + prefix + "-palette-"@ + palette + "-"@ + selector
}

/// `--{prefix}-{class}-{var}`
pub open spec fn class_var_text(prefix: Seq<char>, class: Seq<char>, var: Seq<char>) -> Seq<char> {
    "--"@ + prefix + "-"@ + class + "-"@ + var
}

impl Theme {
    /// The naming prefix.
    pub closed spec fn prefix_text(&self) -> Seq<char> {
        self.prefix@
    }

    /// The palettes, by name, in insertion order.
    pub closed spec fn palette_list(&self) -> Seq<(String, Palette)> {
        self.palettes@
    }

    /// The breakpoints: a name and a minimum width in pixels.
    pub closed spec fn breakpoint_list(&self) -> Seq<(String, u32)> {
        self.breakpoints@
    }

    /// Palette and breakpoint names are unique, and every palette is well formed.
    pub open spec fn wf(&self) -> bool {
        &&& unique_keys(self.palette_list())
        &&& unique_keys(self.breakpoint_list())
        &&& forall|i: int|
            0 <= i < self.palette_list().len() ==> (#[trigger] self.palette_list()[i]).1.wf()
    }

    /// The palette named `name`, if any.
    pub open spec fn palette_spec(&self, name: Seq<char>) -> Option<Palette> {
        lookup(self.palette_list(), name)
    }

    /// The naming prefix.
    pub fn prefix_str(&self) -> (r: &str)
        ensures
            r@ == self.prefix_text(),
    {
        self.prefix.as_str()
    }

    /// A theme with the prefix `happy`.
    pub fn new() -> (r: Theme)
        ensures
            r.wf(),
            r.prefix_text() == "happy"@,
            r.palette_list().len() == 0,
            standard_breakpoints(r.breakpoint_list()),
    {
        Theme::with_prefix("happy")
    }

    /// A theme with the given prefix, no palettes and the standard breakpoints.
    pub fn with_prefix(prefix: &str) -> (r: Theme)
        ensures
            r.wf(),
            r.prefix_text() == prefix@,
            r.palette_list().len() == 0,
            standard_breakpoints(r.breakpoint_list()),
    {
        let mut breakpoints: Vec<(String, u32)> = Vec::new();
        breakpoints.push(("xs".to_owned(), 0));
        breakpoints.push(("sm".to_owned(), 600));
        breakpoints.push(("md".to_owned(), 900));
        breakpoints.push(("lg".to_owned(), 1200));
        breakpoints.push(("xl".to_owned(), 1536));
        proof {
            reveal_strlit("xs");
            reveal_strlit("sm");
            reveal_strlit("md");
            reveal_strlit("lg");
            reveal_strlit("xl");
            assert(keys(breakpoints@) =~= seq!["xs"@, "sm"@, "md"@, "lg"@, "xl"@]);
            assert(breakpoints@.map_values(|e: (String, u32)| e.1) =~= seq![
                0u32,
                600u32,
                900u32,
                1200u32,
                1536u32,
            ]);
            assert forall|i: int, j: int|
                0 <= i < breakpoints@.len() && 0 <= j < breakpoints@.len() && i != j implies #[trigger] breakpoints@[i].0@
                != #[trigger] breakpoints@[j].0@ by {
                let a = keys(breakpoints@)[i];
                let b = keys(breakpoints@)[j];
                assert(a[0] != b[0] || a[1] != b[1]);
            }
        }
        Theme { prefix: prefix.to_owned(), palettes: Vec::new(), breakpoints }
    }

    /// The palette named `name`, if any.
    pub fn get_palette(&self, name: &str) -> (r: Option<&Palette>)
        ensures
            match r {
                Some(p) => self.palette_spec(name@) == Some(*p),
                None => self.palette_spec(name@) is None,
            },
    {
        match find_key(&self.palettes, name) {
            Some(i) => Some(&self.palettes[i].1),
            None => None,
        }
    }

    /// The palette named `name`, for changing in place, if any.
    pub fn palette_mut(&mut self, name: &str) -> (r: Option<&mut Palette>)
        requires
            old(self).wf(),
        ensures
            match r {
                Some(p) => {
                    &&& old(self).palette_spec(name@) == Some(*p)
                    &&& final(self).prefix_text() == old(self).prefix_text()
                    &&& final(self).breakpoint_list() == old(self).breakpoint_list()
                    &&& keys(final(self).palette_list()) == keys(old(self).palette_list())
                    &&& forall|q: Seq<char>| #[trigger]
                        final(self).palette_spec(q) == if q == name@ {
                            Some(*final(p))
                        } else {
                            old(self).palette_spec(q)
                        }
                    &&& final(p).wf() ==> final(self).wf()
                },
                None => old(self).palette_spec(name@) is None && *final(self) == *old(self),
            },
    {
        match find_key(&self.palettes, name) {
            Some(i) => Some(self.palette_at(i, name)),
            None => None,
        }
    }

    fn palette_at(&mut self, i: usize, name: &str) -> (p: &mut Palette)
        requires
            old(self).wf(),
            i < old(self).palette_list().len(),
            old(self).palette_list()[i as int].0@ == name@,
        ensures
            old(self).palette_spec(name@) == Some(*p),
            final(self).prefix_text() == old(self).prefix_text(),
            final(self).breakpoint_list() == old(self).breakpoint_list(),
            keys(final(self).palette_list()) == keys(old(self).palette_list()),
            forall|q: Seq<char>| #[trigger]
                final(self).palette_spec(q) == if q == name@ {
                    Some(*final(p))
                } else {
                    old(self).palette_spec(q)
                },
            final(p).wf() ==> final(self).wf(),
    {
        let ghost before = self.palettes@;
        proof {
            crate::assoc::lemma_lookup_unique(before, i as int);
        }
        let entry = &mut self.palettes[i];
        let p = &mut entry.1;
        proof {
            let e = (before[i as int].0, *final(p));
            assert forall|q: Seq<char>| #[trigger]
                lookup(before.update(i as int, e), q) == if q == name@ {
                    Some(*final(p))
                } else {
                    lookup(before, q)
                } by {
                crate::assoc::lemma_lookup_update(before, i as int, e, q);
            }
            crate::assoc::lemma_lookup_update(before, i as int, e, name@);
            assert(keys(before.update(i as int, e)) =~= keys(before));
        }
        p
    }

    /// Stores a palette under `name`, replacing any palette of that name.
    pub fn insert_palette(&mut self, name: &str, palette: Palette)
        requires
            old(self).wf(),
            palette.wf(),
        ensures
            final(self).wf(),
            final(self).prefix_text() == old(self).prefix_text(),
            final(self).breakpoint_list() == old(self).breakpoint_list(),
            forall|q: Seq<char>| #[trigger]
                final(self).palette_spec(q) == if q == name@ {
                    Some(palette)
                } else {
                    old(self).palette_spec(q)
                },
    {
        let ghost before = self.palettes@;
        insert_key(&mut self.palettes, name.to_owned(), palette);
        proof {
            assert forall|i: int| 0 <= i < self.palettes@.len() implies (
            #[trigger] self.palettes@[i]).1.wf() by {
                crate::assoc::lemma_lookup_unique(self.palettes@, i);
                let k = self.palettes@[i].0@;
                if k != name@ {
                    crate::assoc::lemma_lookup_absent_or_found(before, k);
                    let j = choose|j: int| 0 <= j < before.len() && #[trigger] before[j].0@ == k;
                    crate::assoc::lemma_lookup_unique(before, j);
                }
            }
        }
    }

    /// The palette named `name`, created empty when absent, for changing in place.
    pub fn palette(&mut self, name: &str) -> (r: &mut Palette)
        requires
            old(self).wf(),
        ensures
            old(self).palette_spec(name@) matches Some(p) ==> *r == p,
            old(self).palette_spec(name@) is None ==> r@ == Seq::<
                (String, ColorByMode),
            >::empty(),
            final(self).prefix_text() == old(self).prefix_text(),
            final(self).breakpoint_list() == old(self).breakpoint_list(),
            forall|q: Seq<char>| #[trigger]
                final(self).palette_spec(q) == if q == name@ {
                    Some(*final(r))
                } else {
                    old(self).palette_spec(q)
                },
            final(r).wf() ==> final(self).wf(),
    {
        let i = match find_key(&self.palettes, name) {
            Some(i) => i,
            None => {
                self.insert_palette(name, Palette::new());
                assert(self.palette_spec(name@) is Some);
                match find_key(&self.palettes, name) {
                    Some(i) => i,
                    None => 0,
                }
            },
        };
        self.palette_at(i, name)
    }

    /// `--{prefix}-palette-{palette}-{selector}`
    pub fn palette_var(&self, palette: &str, selector: &str) -> (r: String)
        ensures
            r@ == palette_var_text(self.prefix_text(), palette@, selector@),
    {
        let mut out = String::new();
        push_str(&mut out, "--");
        push_str(&mut out, self.prefix.as_str());
        push_str(&mut out, "-palette-");
        push_str(&mut out, palette);
        push_str(&mut out, "-");
        push_str(&mut out, selector);
        proof {
            reveal_strlit("--");
            reveal_strlit("-palette-");
            reveal_strlit("-");
            assert(out@ =~= palette_var_text(self.prefix_text(), palette@, selector@));
        }
        out
    }

    /// `--{prefix}-{class}-{var_name}`
    pub fn class_var(&self, class: &str, var_name: &str) -> (r: String)
        ensures
            r@ == class_var_text(self.prefix_text(), class@, var_name@),
    {
        let mut out = String::new();
        push_str(&mut out, "--");
        push_str(&mut out, self.prefix.as_str());
        push_str(&mut out, "-");
        push_str(&mut out, class);
        push_str(&mut out, "-");
        push_str(&mut out, var_name);
        proof {
            reveal_strlit("--");
            reveal_strlit("-");
            assert(out@ =~= class_var_text(self.prefix_text(), class@, var_name@));
        }
        out
    }

    /// All palettes with their names, in insertion order.
    pub fn palettes(&self) -> (r: &Vec<(String, Palette)>)
        ensures
            r@ == self.palette_list(),
    {
        &self.palettes
    }

    /// The breakpoints with their minimum widths, in insertion order.
    pub fn breakpoints(&self) -> (r: &Vec<(String, u32)>)
        ensures
            r@ == self.breakpoint_list(),
    {
        &self.breakpoints
    }

    /// Sets the minimum width in pixels of the breakpoint `name`.
    pub fn insert_breakpoint(&mut self, name: &str, width: u32)
        requires
            old(self).wf(),
        ensures
            final(self).wf(),
            final(self).prefix_text() == old(self).prefix_text(),
            final(self).palette_list() == old(self).palette_list(),
            forall|q: Seq<char>| #[trigger]
                lookup(final(self).breakpoint_list(), q) == if q == name@ {
                    Some(width)
                } else {
                    lookup(old(self).breakpoint_list(), q)
                },
    {
        insert_key(&mut self.breakpoints, name.to_owned(), width);
    }
}

/// The breakpoints `xs` 0, `sm` 600, `md` 900, `lg` 1200 and `xl` 1536 pixels, in that order.
pub open spec fn standard_breakpoints(b: Seq<(String, u32)>) -> bool {
    &&& keys(b) == seq!["xs"@, "sm"@, "md"@, "lg"@, "xl"@]
    &&& b.map_values(|e: (String, u32)| e.1) == seq![0u32, 600u32, 900u32, 1200u32, 1536u32]
}

/// The selector `sel` of palette `p` of the theme holds `e`.
pub open spec fn holds(t: Theme, p: Seq<char>, sel: Seq<char>, e: ColorByMode) -> bool {
    match t.palette_spec(p) {
        Some(pal) => lookup(pal@, sel) == Some(e),
        None => false,
    }
}

/// The colors of the built-in theme, by palette and selector.
pub open spec fn is_default_theme(t: Theme) -> bool {
    &&& holds(t, "common"@, "black"@, ColorByMode::Constant(Color::OpaqueHex(0x000000)))
    &&& holds(t, "common"@, "white"@, ColorByMode::Constant(Color::OpaqueHex(0xFFFFFF)))
    &&& holds(
        t,
        "background"@,
        "body"@,
        ColorByMode::ModeBased { dark: Color::OpaqueHex(0x0F0F0F), light: Color::OpaqueHex(0xFFFFFF) },
    )
    &&& holds(
        t,
        "background"@,
        "level1"@,
        ColorByMode::ModeBased { dark: Color::OpaqueHex(0x1A1A1A), light: Color::OpaqueHex(0xF5F5F5) },
    )
    &&& holds(
        t,
        "text"@,
        "primary"@,
        ColorByMode::ModeBased { dark: Color::OpaqueHex(0xF5F5F5), light: Color::OpaqueHex(0x0F0F0F) },
    )
    &&& holds(
        t,
        "success"@,
        "outlinedBorder"@,
        ColorByMode::ModeBased { dark: Color::OpaqueHex(0x2E7D32), light: Color::OpaqueHex(0x1B5E20) },
    )
    &&& holds(
        t,
        "success"@,
        "outlinedColor"@,
        ColorByMode::ModeBased { dark: Color::OpaqueHex(0x66BB6A), light: Color::OpaqueHex(0x2E7D32) },
    )
    &&& holds(
        t,
        "success"@,
        "outlinedDisabledBorder"@,
        ColorByMode::ModeBased { dark: Color::OpaqueHex(0x2E4D30), light: Color::OpaqueHex(0xA5D6A7) },
    )
    &&& holds(
        t,
        "success"@,
        "outlinedDisabledColor"@,
        ColorByMode::ModeBased { dark: Color::OpaqueHex(0x4E6E50), light: Color::OpaqueHex(0x81C784) },
    )
}

/// The built-in theme: prefix `happy` with the palettes `common`, `background`,
/// `text` and `success`.
impl Default for Theme {
    fn default() -> (r: Theme)
        ensures
            r.wf(),
            r.prefix_text() == "happy"@,
            is_default_theme(r),
    {
        let mut theme = Theme::new();

        let mut common = Palette::new();
        common.insert_constant("black", Color::OpaqueHex(0x000000));
        common.insert_constant("white", Color::OpaqueHex(0xFFFFFF));
        theme.insert_palette("common", common);

        let mut background = Palette::new();
        background.insert_by_mode("body", Color::OpaqueHex(0x0F0F0F), Color::OpaqueHex(0xFFFFFF));
        background.insert_by_mode("level1", Color::OpaqueHex(0x1A1A1A), Color::OpaqueHex(0xF5F5F5));
        theme.insert_palette("background", background);

        let mut text = Palette::new();
        text.insert_by_mode("primary", Color::OpaqueHex(0xF5F5F5), Color::OpaqueHex(0x0F0F0F));
        theme.insert_palette("text", text);

        let mut success = Palette::new();
        success.insert_by_mode("outlinedBorder", Color::OpaqueHex(0x2E7D32), Color::OpaqueHex(0x1B5E20));
        success.insert_by_mode("outlinedColor", Color::OpaqueHex(0x66BB6A), Color::OpaqueHex(0x2E7D32));
        success.insert_by_mode(
            "outlinedDisabledBorder",
            Color::OpaqueHex(0x2E4D30),
            Color::OpaqueHex(0xA5D6A7),
        );
        success.insert_by_mode(
            "outlinedDisabledColor",
            Color::OpaqueHex(0x4E6E50),
            Color::OpaqueHex(0x81C784),
        );
        theme.insert_palette("success", success);
        proof {
            reveal_strlit("common");
            reveal_strlit("background");
            reveal_strlit("text");
            reveal_strlit("success");
            assert("common"@[0] != "background"@[0]);
            assert("common"@[0] != "text"@[0]);
            assert("common"@[0] != "success"@[0]);
            assert("background"@[0] != "text"@[0]);
            assert("background"@[0] != "success"@[0]);
            assert("text"@[0] != "success"@[0]);
            reveal_strlit("black");
            reveal_strlit("white");
            reveal_strlit("body");
            reveal_strlit("level1");
            reveal_strlit("outlinedBorder");
            reveal_strlit("outlinedColor");
            reveal_strlit("outlinedDisabledBorder");
            reveal_strlit("outlinedDisabledColor");
            assert("black"@[0] != "white"@[0]);
            assert("body"@[0] != "level1"@[0]);
            assert("outlinedBorder"@[8] != "outlinedColor"@[8]);
            assert("outlinedBorder"@[8] != "outlinedDisabledBorder"@[8]);
            assert("outlinedBorder"@[8] != "outlinedDisabledColor"@[8]);
            assert("outlinedColor"@[8] != "outlinedDisabledBorder"@[8]);
            assert("outlinedColor"@[8] != "outlinedDisabledColor"@[8]);
            assert("outlinedDisabledBorder"@[16] != "outlinedDisabledColor"@[16]);
        }
        theme
    }
}

} // verus!

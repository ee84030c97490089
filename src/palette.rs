//! Palettes: named color selectors, each constant or chosen by the theme mode.
use vstd::prelude::*;

use crate::assoc::{find_key, has_key, insert_key, keys, lookup, unique_keys};
use crate::color::Color;

verus! {

/// Dark or light; `System` stands for the host's preference until it is detected.
#[derive(Clone, Copy, PartialEq, Eq, Structural, Debug)]
pub enum ThemeMode {
    Dark,
    Light,
    System,
}

/// The colors of one selector.
#[derive(PartialEq, Eq, Debug)]
pub enum ColorByMode {
    Constant(Color),
    ModeBased { dark: Color, light: Color },
}

/// The color that an entry gives under a concrete mode.
pub open spec fn color_for_mode(entry: ColorByMode, mode: ThemeMode) -> Color {
    match entry {
        ColorByMode::Constant(c) => c,
        ColorByMode::ModeBased { dark, light } => if mode == ThemeMode::Dark {
            dark
        } else {
            light
        },
    }
}

/// A palette maps selector names to colors.
#[derive(PartialEq, Eq, Debug)]
pub struct Palette {
    selector_to_colors: Vec<(String, ColorByMode)>,
}

impl View for Palette {
    type V = Seq<(String, ColorByMode)>;

    closed spec fn view(&self) -> Seq<(String, ColorByMode)> {
        self.selector_to_colors@
    }
}

impl Palette {
    /// Selector names are unique.
    pub open spec fn wf(&self) -> bool {
        unique_keys(self@)
    }

    /// The color of `selector` under a concrete `mode`, if the palette has it.
    pub open spec fn select_spec(&self, selector: Seq<char>, mode: ThemeMode) -> Option<Color> {
        match lookup(self@, selector) {
            Some(entry) => Some(color_for_mode(entry, mode)),
            None => None,
        }
    }

    /// An empty palette.
    pub fn new() -> (r: Palette)
        ensures
            r@ == Seq::<(String, ColorByMode)>::empty(),
            r.wf(),
    {
        Palette { selector_to_colors: Vec::new() }
    }

    /// Sets `key` to a color that does not depend on the mode, replacing any earlier entry.
    pub fn insert_constant(&mut self, key: &str, val: Color)
        requires
            old(self).wf(),
        ensures
            final(self).wf(),
            forall|q: Seq<char>| #[trigger]
                lookup(final(self)@, q) == if q == key@ {
                    Some(ColorByMode::Constant(val))
                } else {
                    lookup(old(self)@, q)
                },
            has_key(old(self)@, key@) ==> keys(final(self)@) == keys(old(self)@),
            !has_key(old(self)@, key@) ==> keys(final(self)@) == keys(old(self)@).push(key@),
    {
        insert_key(&mut self.selector_to_colors, key.to_owned(), ColorByMode::Constant(val));
    }

    /// Sets `key` to a pair of colors chosen by the mode, replacing any earlier entry.
    pub fn insert_by_mode(&mut self, key: &str, dark: Color, light: Color)
        requires
            old(self).wf(),
        ensures
            final(self).wf(),
            forall|q: Seq<char>| #[trigger]
                lookup(final(self)@, q) == if q == key@ {
                    Some(ColorByMode::ModeBased { dark, light })
                } else {
                    lookup(old(self)@, q)
                },
            has_key(old(self)@, key@) ==> keys(final(self)@) == keys(old(self)@),
            !has_key(old(self)@, key@) ==> keys(final(self)@) == keys(old(self)@).push(key@),
    {
        insert_key(
            &mut self.selector_to_colors,
            key.to_owned(),
            ColorByMode::ModeBased { dark, light },
        );
    }

    /// The selector names, in insertion order.
    pub fn selectors(&self) -> (r: Vec<String>)
        ensures
            r@.map_values(|s: String| s@) == keys(self@),
    {
        let mut out: Vec<String> = Vec::new();
        let mut i: usize = 0;
        while i < self.selector_to_colors.len()
            invariant
                i <= self@.len(),
                self@ == self.selector_to_colors@,
                out@.len() == i,
                forall|j: int| 0 <= j < i ==> #[trigger] out@[j]@ == self@[j].0@,
            decreases self@.len() - i,
        {
            let name = self.selector_to_colors[i].0.clone();
            out.push(name);
            i = i + 1;
        }
        proof {
            assert(out@.map_values(|s: String| s@) =~= keys(self@));
        }
        out
    }

    /// The color of `selector` under `mode`; `None` when the palette lacks the selector.
    pub fn get(&self, selector: &str, mode: &ThemeMode) -> (r: Option<&Color>)
        requires
            *mode != ThemeMode::System,
        ensures
            match r {
                Some(c) => self.select_spec(selector@, *mode) == Some(*c),
                None => self.select_spec(selector@, *mode) is None,
            },
    {
        match find_key(&self.selector_to_colors, selector) {
            None => None,
            Some(i) => match &self.selector_to_colors[i].1 {
                ColorByMode::Constant(c) => Some(c),
                ColorByMode::ModeBased { dark, light } => match mode {
                    ThemeMode::Dark => Some(dark),
                    _ => Some(light),
                },
            },
        }
    }
}

} // verus!

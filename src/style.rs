//! The variant, color scheme and size of a component.
use vstd::prelude::*;

use crate::text::str_eq;

verus! {

/// The look of a component.
#[derive(Clone, Copy, PartialEq, Eq, Structural, Debug)]
pub enum Variant {
    Plain,
    Outlined,
    Soft,
    Solid,
}

impl Variant {
    /// The lower-case name.
    pub open spec fn name_spec(&self) -> Seq<char> {
        match self {
            Variant::Plain => "plain"@,
            Variant::Outlined => "outlined"@,
            Variant::Soft => "soft"@,
            Variant::Solid => "solid"@,
        }
    }

    /// The lower-case name.
    pub fn name(&self) -> (r: &'static str)
        ensures
            r@ == self.name_spec(),
    {
        match self {
            Variant::Plain => "plain",
            Variant::Outlined => "outlined",
            Variant::Soft => "soft",
            Variant::Solid => "solid",
        }
    }

    /// The value with the given name, if any.
    pub fn from_name(text: &str) -> (r: Option<Variant>)
        ensures
            match r {
                Some(v) => v.name_spec() == text@,
                None => forall|v: Variant| v.name_spec() != text@,
            },
    {
        if str_eq(text, "plain") {
            Some(Variant::Plain)
        } else if str_eq(text, "outlined") {
            Some(Variant::Outlined)
        } else if str_eq(text, "soft") {
            Some(Variant::Soft)
        } else if str_eq(text, "solid") {
            Some(Variant::Solid)
        } else {
            None
        }
    }
}

impl Default for Variant {
    fn default() -> (r: Variant)
        ensures
            r == Variant::Plain,
    {
        Variant::Plain
    }
}
/// The color scheme of a component.
#[derive(Clone, Copy, PartialEq, Eq, Structural, Debug)]
pub enum Color {
    Neutral,
    Primary,
    Success,
    Fatal,
    Warn,
}

impl Color {
    /// The lower-case name.
    pub open spec fn name_spec(&self) -> Seq<char> {
        match self {
            Color::Neutral => "neutral"@,
            Color::Primary => "primary"@,
            Color::Success => "success"@,
            Color::Fatal => "fatal"@,
            Color::Warn => "warn"@,
        }
    }

    /// The lower-case name.
    pub fn name(&self) -> (r: &'static str)
        ensures
            r@ == self.name_spec(),
    {
        match self {
            Color::Neutral => "neutral",
            Color::Primary => "primary",
            Color::Success => "success",
            Color::Fatal => "fatal",
            Color::Warn => "warn",
        }
    }

    /// The value with the given name, if any.
    pub fn from_name(text: &str) -> (r: Option<Color>)
        ensures
            match r {
                Some(v) => v.name_spec() == text@,
                None => forall|v: Color| v.name_spec() != text@,
            },
    {
        if str_eq(text, "neutral") {
            Some(Color::Neutral)
        } else if str_eq(text, "primary") {
            Some(Color::Primary)
        } else if str_eq(text, "success") {
            Some(Color::Success)
        } else if str_eq(text, "fatal") {
            Some(Color::Fatal)
        } else if str_eq(text, "warn") {
            Some(Color::Warn)
        } else {
            None
        }
    }
}

impl Default for Color {
    fn default() -> (r: Color)
        ensures
            r == Color::Neutral,
    {
        Color::Neutral
    }
}
/// The size of a component.
#[derive(Clone, Copy, PartialEq, Eq, Structural, Debug)]
pub enum Size {
    Xs,
    Sm,
    Md,
    Lg,
    Xl,
}

impl Size {
    /// The lower-case name.
    pub open spec fn name_spec(&self) -> Seq<char> {
        match self {
            Size::Xs => "xs"@,
            Size::Sm => "sm"@,
            Size::Md => "md"@,
            Size::Lg => "lg"@,
            Size::Xl => "xl"@,
        }
    }

    /// The lower-case name.
    pub fn name(&self) -> (r: &'static str)
        ensures
            r@ == self.name_spec(),
    {
        match self {
            Size::Xs => "xs",
            Size::Sm => "sm",
            Size::Md => "md",
            Size::Lg => "lg",
            Size::Xl => "xl",
        }
    }

    /// The value with the given name, if any.
    pub fn from_name(text: &str) -> (r: Option<Size>)
        ensures
            match r {
                Some(v) => v.name_spec() == text@,
                None => forall|v: Size| v.name_spec() != text@,
            },
    {
        if str_eq(text, "xs") {
            Some(Size::Xs)
        } else if str_eq(text, "sm") {
            Some(Size::Sm)
        } else if str_eq(text, "md") {
            Some(Size::Md)
        } else if str_eq(text, "lg") {
            Some(Size::Lg)
        } else if str_eq(text, "xl") {
            Some(Size::Xl)
        } else {
            None
        }
    }
}

impl Default for Size {
    fn default() -> (r: Size)
        ensures
            r == Size::Md,
    {
        Size::Md
    }
}
} // verus!

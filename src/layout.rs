//! Flex layout values.
use vstd::prelude::*;

use crate::text::str_eq;

verus! {

/// The direction of a flex container.
#[derive(Clone, Copy, PartialEq, Eq, Structural, Debug)]
pub enum Direction {
    Row,
    RowReverse,
    Column,
    ColumnReverse,
}

impl Direction {
    /// The name of the value.
    pub open spec fn name_spec(&self) -> Seq<char> {
        match self {
            Direction::Row => "Row"@,
            Direction::RowReverse => "RowReverse"@,
            Direction::Column => "Column"@,
            Direction::ColumnReverse => "ColumnReverse"@,
        }
    }

    /// The name of the value.
    pub fn name(&self) -> (r: &'static str)
        ensures
            r@ == self.name_spec(),
    {
        match self {
            Direction::Row => "Row",
            Direction::RowReverse => "RowReverse",
            Direction::Column => "Column",
            Direction::ColumnReverse => "ColumnReverse",
        }
    }

    /// The value with the given name, if any.
    pub fn from_name(text: &str) -> (r: Option<Direction>)
        ensures
            match r {
                Some(v) => v.name_spec() == text@,
                None => forall|v: Direction| v.name_spec() != text@,
            },
    {
        if str_eq(text, "Row") {
            Some(Direction::Row)
        } else if str_eq(text, "RowReverse") {
            Some(Direction::RowReverse)
        } else if str_eq(text, "Column") {
            Some(Direction::Column)
        } else if str_eq(text, "ColumnReverse") {
            Some(Direction::ColumnReverse)
        } else {
            None
        }
    }
}

impl Default for Direction {
    fn default() -> (r: Direction)
        ensures
            r == Direction::Row,
    {
        Direction::Row
    }
}
/// The cross-axis alignment of flex items.
#[derive(Clone, Copy, PartialEq, Eq, Structural, Debug)]
pub enum AlignItems {
    FlexStart,
    Center,
    FlexEnd,
    Stretch,
    Baseline,
}

impl AlignItems {
    /// The name of the value.
    pub open spec fn name_spec(&self) -> Seq<char> {
        match self {
            AlignItems::FlexStart => "FlexStart"@,
            AlignItems::Center => "Center"@,
            AlignItems::FlexEnd => "FlexEnd"@,
            AlignItems::Stretch => "Stretch"@,
            AlignItems::Baseline => "Baseline"@,
        }
    }

    /// The name of the value.
    pub fn name(&self) -> (r: &'static str)
        ensures
            r@ == self.name_spec(),
    {
        match self {
            AlignItems::FlexStart => "FlexStart",
            AlignItems::Center => "Center",
            AlignItems::FlexEnd => "FlexEnd",
            AlignItems::Stretch => "Stretch",
            AlignItems::Baseline => "Baseline",
        }
    }

    /// The value with the given name, if any.
    pub fn from_name(text: &str) -> (r: Option<AlignItems>)
        ensures
            match r {
                Some(v) => v.name_spec() == text@,
                None => forall|v: AlignItems| v.name_spec() != text@,
            },
    {
        if str_eq(text, "FlexStart") {
            Some(AlignItems::FlexStart)
        } else if str_eq(text, "Center") {
            Some(AlignItems::Center)
        } else if str_eq(text, "FlexEnd") {
            Some(AlignItems::FlexEnd)
        } else if str_eq(text, "Stretch") {
            Some(AlignItems::Stretch)
        } else if str_eq(text, "Baseline") {
            Some(AlignItems::Baseline)
        } else {
            None
        }
    }
}

impl Default for AlignItems {
    fn default() -> (r: AlignItems)
        ensures
            r == AlignItems::FlexStart,
    {
        AlignItems::FlexStart
    }
}
/// The main-axis distribution of flex items.
#[derive(Clone, Copy, PartialEq, Eq, Structural, Debug)]
pub enum JustifyContent {
    FlexStart,
    Center,
    FlexEnd,
    SpaceBetween,
    SpaceAround,
    SpaceEvenly,
}

impl JustifyContent {
    /// The name of the value.
    pub open spec fn name_spec(&self) -> Seq<char> {
        match self {
            JustifyContent::FlexStart => "FlexStart"@,
            JustifyContent::Center => "Center"@,
            JustifyContent::FlexEnd => "FlexEnd"@,
            JustifyContent::SpaceBetween => "SpaceBetween"@,
            JustifyContent::SpaceAround => "SpaceAround"@,
            JustifyContent::SpaceEvenly => "SpaceEvenly"@,
        }
    }

    /// The name of the value.
    pub fn name(&self) -> (r: &'static str)
        ensures
            r@ == self.name_spec(),
    {
        match self {
            JustifyContent::FlexStart => "FlexStart",
            JustifyContent::Center => "Center",
            JustifyContent::FlexEnd => "FlexEnd",
            JustifyContent::SpaceBetween => "SpaceBetween",
            JustifyContent::SpaceAround => "SpaceAround",
            JustifyContent::SpaceEvenly => "SpaceEvenly",
        }
    }

    /// The value with the given name, if any.
    pub fn from_name(text: &str) -> (r: Option<JustifyContent>)
        ensures
            match r {
                Some(v) => v.name_spec() == text@,
                None => forall|v: JustifyContent| v.name_spec() != text@,
            },
    {
        if str_eq(text, "FlexStart") {
            Some(JustifyContent::FlexStart)
        } else if str_eq(text, "Center") {
            Some(JustifyContent::Center)
        } else if str_eq(text, "FlexEnd") {
            Some(JustifyContent::FlexEnd)
        } else if str_eq(text, "SpaceBetween") {
            Some(JustifyContent::SpaceBetween)
        } else if str_eq(text, "SpaceAround") {
            Some(JustifyContent::SpaceAround)
        } else if str_eq(text, "SpaceEvenly") {
            Some(JustifyContent::SpaceEvenly)
        } else {
            None
        }
    }
}

impl Default for JustifyContent {
    fn default() -> (r: JustifyContent)
        ensures
            r == JustifyContent::FlexStart,
    {
        JustifyContent::FlexStart
    }
}
} // verus!

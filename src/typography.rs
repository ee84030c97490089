//! Typography levels and the scale that gives details for each.
use vstd::prelude::*;

use crate::style::Size;
use crate::text::{push_str, str_eq};

verus! {

/// A level of typography.
#[derive(Clone, PartialEq, Eq, Debug)]
pub enum TypographyLevel {
    H1,
    H2,
    H3,
    H4,
    Title { size: Size },
    Body { size: Size },
    Custom(String),
}

/// The details of one level.
#[derive(Clone, Copy, PartialEq, Eq, Structural, Debug)]
pub struct LevelScale {}

/// `title-` and `body-`: the prefixes of sized levels.
pub open spec fn starts_with(t: Seq<char>, p: Seq<char>) -> bool {
    p.len() <= t.len() && t.subrange(0, p.len() as int) == p
}

/// The text of a level: `h1` to `h4`, `title-{size}`, `body-{size}`, or a custom name.
pub open spec fn level_text(l: TypographyLevel) -> Seq<char> {
    match l {
        TypographyLevel::H1 => "h1"@,
        TypographyLevel::H2 => "h2"@,
        TypographyLevel::H3 => "h3"@,
        TypographyLevel::H4 => "h4"@,
        TypographyLevel::Title { size } => "title-"@ + size.name_spec(),
        TypographyLevel::Body { size } => "body-"@ + size.name_spec(),
        TypographyLevel::Custom(s) => s@,
    }
}

/// A level as a kind and a text; two levels are equal exactly when these are.
pub open spec fn level_key(l: TypographyLevel) -> (int, Seq<char>) {
    match l {
        TypographyLevel::H1 => (0, Seq::empty()),
        TypographyLevel::H2 => (1, Seq::empty()),
        TypographyLevel::H3 => (2, Seq::empty()),
        TypographyLevel::H4 => (3, Seq::empty()),
        TypographyLevel::Title { size } => (10 + size_rank(size), Seq::empty()),
        TypographyLevel::Body { size } => (20 + size_rank(size), Seq::empty()),
        TypographyLevel::Custom(s) => (30, s@),
    }
}

/// The position of a size from the smallest.
pub open spec fn size_rank(s: Size) -> int {
    match s {
        Size::Xs => 0,
        Size::Sm => 1,
        Size::Md => 2,
        Size::Lg => 3,
        Size::Xl => 4,
    }
}

/// Whether a text names one of the fixed levels `h1` to `h4`.
pub open spec fn is_heading_text(t: Seq<char>) -> bool {
    t == "h1"@ || t == "h2"@ || t == "h3"@ || t == "h4"@
}

fn has_prefix<'a>(text: &'a str, prefix: &str) -> (r: Option<&'a str>)
    ensures
        match r {
            Some(rest) => starts_with(text@, prefix@) && rest@ == text@.subrange(
                prefix@.len() as int,
                text@.len() as int,
            ),
            None => !starts_with(text@, prefix@),
        },
{
    let n = text.unicode_len();
    let m = prefix.unicode_len();
    if m > n {
        return None;
    }
    if str_eq(text.substring_char(0, m), prefix) {
        Some(text.substring_char(m, n))
    } else {
        None
    }
}

impl TypographyLevel {
    /// The text of this level.
    pub fn as_text(&self) -> (r: String)
        ensures
            r@ == level_text(*self),
    {
        match self {
            TypographyLevel::H1 => "h1".to_owned(),
            TypographyLevel::H2 => "h2".to_owned(),
            TypographyLevel::H3 => "h3".to_owned(),
            TypographyLevel::H4 => "h4".to_owned(),
            TypographyLevel::Title { size } => {
                let mut out = "title-".to_owned();
                push_str(&mut out, size.name());
                out
            },
            TypographyLevel::Body { size } => {
                let mut out = "body-".to_owned();
                push_str(&mut out, size.name());
                out
            },
            TypographyLevel::Custom(s) => s.clone(),
        }
    }

    /// Reads a level: `h1` to `h4`, `title-{size}` and `body-{size}` with a known size,
    /// and any other text as a custom level. A sized form with an unknown size is `None`.
    pub fn from_text(text: &str) -> (r: Option<TypographyLevel>)
        ensures
            match r {
                Some(l) => level_text(l) == text@ && (l is Custom ==> !is_heading_text(text@)
                    && !starts_with(text@, "title-"@) && !starts_with(text@, "body-"@)),
                None => (starts_with(text@, "title-"@) || starts_with(text@, "body-"@)) && forall|
                    s: Size,
                | "title-"@ + s.name_spec() != text@ && "body-"@ + s.name_spec() != text@,
            },
    {
        proof {
            reveal_strlit("title-");
            reveal_strlit("body-");
        }
        if str_eq(text, "h1") {
            return Some(TypographyLevel::H1);
        } else if str_eq(text, "h2") {
            return Some(TypographyLevel::H2);
        } else if str_eq(text, "h3") {
            return Some(TypographyLevel::H3);
        } else if str_eq(text, "h4") {
            return Some(TypographyLevel::H4);
        }
        match has_prefix(text, "title-") {
            Some(rest) => {
                proof {
                    assert(text@ =~= "title-"@ + rest@);
                    assert(text@[0] == 't');
                    if starts_with(text@, "body-"@) {
                        assert(text@.subrange(0, 5)[0] == text@[0]);
                    }
                }
                return match Size::from_name(rest) {
                    Some(size) => Some(TypographyLevel::Title { size }),
                    None => {
                        proof {
                            assert forall|s: Size| "title-"@ + s.name_spec() != text@ && "body-"@
                                + s.name_spec() != text@ by {
                                if "title-"@ + s.name_spec() == text@ {
                                    assert(s.name_spec() =~= rest@);
                                }
                                if "body-"@ + s.name_spec() == text@ {
                                    assert(("body-"@ + s.name_spec())[0] == 'b');
                                }
                            }
                        }
                        None
                    },
                };
            },
            None => {},
        }
        match has_prefix(text, "body-") {
            Some(rest) => {
                proof {
                    assert(text@ =~= "body-"@ + rest@);
                }
                match Size::from_name(rest) {
                    Some(size) => Some(TypographyLevel::Body { size }),
                    None => {
                        proof {
                            assert forall|s: Size| "title-"@ + s.name_spec() != text@ && "body-"@
                                + s.name_spec() != text@ by {
                                if "body-"@ + s.name_spec() == text@ {
                                    assert(s.name_spec() =~= rest@);
                                }
                                if "title-"@ + s.name_spec() == text@ {
                                    assert(("title-"@ + s.name_spec())[0] == 't');
                                }
                            }
                        }
                        None
                    },
                }
            },
            None => Some(TypographyLevel::Custom(text.to_owned())),
        }
    }

    /// Whether two levels are the same level.
    pub fn same_as(&self, other: &TypographyLevel) -> (r: bool)
        ensures
            r == (level_key(*self) == level_key(*other)),
    {
        match (self, other) {
            (TypographyLevel::H1, TypographyLevel::H1) => true,
            (TypographyLevel::H2, TypographyLevel::H2) => true,
            (TypographyLevel::H3, TypographyLevel::H3) => true,
            (TypographyLevel::H4, TypographyLevel::H4) => true,
            (TypographyLevel::Title { size: a }, TypographyLevel::Title { size: b }) => {
                *a == *b
            },
            (TypographyLevel::Body { size: a }, TypographyLevel::Body { size: b }) => {
                *a == *b
            },
            (TypographyLevel::Custom(a), TypographyLevel::Custom(b)) => str_eq(a.as_str(), b.as_str()),
            _ => false,
        }
    }
}

/// Whether some pair of `s` is for a level with key `k`.
pub open spec fn has_level(s: Seq<(TypographyLevel, LevelScale)>, k: (int, Seq<char>)) -> bool {
    exists|j: int| 0 <= j < s.len() && level_key(#[trigger] s[j].0) == k
}

fn find_level(v: &Vec<(TypographyLevel, LevelScale)>, level: &TypographyLevel) -> (r: Option<usize>)
    ensures
        match r {
            Some(i) => i < v@.len() && level_key(v@[i as int].0) == level_key(*level),
            None => !has_level(v@, level_key(*level)),
        },
{
    let mut i: usize = 0;
    while i < v.len()
        invariant
            i <= v@.len(),
            forall|j: int| 0 <= j < i ==> level_key(#[trigger] v@[j].0) != level_key(*level),
        decreases v@.len() - i,
    {
        if v[i].0.same_as(level) {
            return Some(i);
        }
        i = i + 1;
    }
    None
}

/// The details of each level.
pub struct TypographyScale {
    pub levels: Vec<(TypographyLevel, LevelScale)>,
}

impl TypographyScale {
    /// A scale from pairs of a level and its details; a later pair for the same level
    /// replaces an earlier one.
    pub fn new(levels: Vec<(TypographyLevel, LevelScale)>) -> (r: TypographyScale)
        ensures
            forall|i: int, j: int|
                0 <= i < j < r.levels@.len() ==> level_key(#[trigger] r.levels@[i].0) != level_key(
                    #[trigger] r.levels@[j].0,
                ),
            forall|i: int|
                0 <= i < levels@.len() ==> #[trigger] has_level(r.levels@, level_key(levels@[i].0)),
            forall|j: int|
                0 <= j < r.levels@.len() ==> #[trigger] has_level(levels@, level_key(r.levels@[j].0)),
    {
        let ghost input = levels@;
        let mut out: Vec<(TypographyLevel, LevelScale)> = Vec::new();
        let mut rest = levels;
        let ghost mut k: int = 0;
        while rest.len() > 0
            invariant
                0 <= k <= input.len(),
                rest@ == input.subrange(k, input.len() as int),
                forall|i: int, j: int|
                    0 <= i < j < out@.len() ==> level_key(#[trigger] out@[i].0) != level_key(
                        #[trigger] out@[j].0,
                    ),
                forall|i: int| 0 <= i < k ==> #[trigger] has_level(out@, level_key(input[i].0)),
                forall|j: int|
                    0 <= j < out@.len() ==> #[trigger] has_level(
                        input.subrange(0, k),
                        level_key(out@[j].0),
                    ),
            decreases rest@.len(),
        {
            let (level, scale) = rest.remove(0);
            let ghost before = out@;
            let ghost key = level_key(level);
            proof {
                assert(input[k] == (level, scale));
                assert forall|j: int| 0 <= j < before.len() implies #[trigger] has_level(
                    input.subrange(0, k + 1),
                    level_key(before[j].0),
                ) by {
                    assert(has_level(input.subrange(0, k), level_key(before[j].0)));
                    let w = choose|w: int|
                        0 <= w < k && level_key(#[trigger] input.subrange(0, k)[w].0) == level_key(
                            before[j].0,
                        );
                    assert(input.subrange(0, k + 1)[w] == input.subrange(0, k)[w]);
                }
                assert(input.subrange(0, k + 1)[k] == input[k]);
                assert(has_level(input.subrange(0, k + 1), key));
            }
            match find_level(&out, &level) {
                Some(idx) => {
                    out.set(idx, (level, scale));
                    proof {
                        assert forall|i: int| 0 <= i < k + 1 implies #[trigger] has_level(
                            out@,
                            level_key(input[i].0),
                        ) by {
                            if i < k {
                                assert(has_level(before, level_key(input[i].0)));
                                let j = choose|j: int|
                                    0 <= j < before.len() && level_key(#[trigger] before[j].0)
                                        == level_key(input[i].0);
                                assert(level_key(out@[j].0) == level_key(before[j].0));
                            } else {
                                assert(level_key(out@[idx as int].0) == key);
                            }
                        }
                        assert forall|j: int| 0 <= j < out@.len() implies #[trigger] has_level(
                            input.subrange(0, k + 1),
                            level_key(out@[j].0),
                        ) by {
                            assert(level_key(out@[j].0) == level_key(before[j].0));
                        }
                        assert forall|a: int, b: int|
                            0 <= a < b < out@.len() implies level_key(#[trigger] out@[a].0)
                            != level_key(#[trigger] out@[b].0) by {
                            assert(level_key(out@[a].0) == level_key(before[a].0));
                            assert(level_key(out@[b].0) == level_key(before[b].0));
                        }
                    }
                },
                None => {
                    out.push((level, scale));
                    proof {
                        assert forall|i: int| 0 <= i < k + 1 implies #[trigger] has_level(
                            out@,
                            level_key(input[i].0),
                        ) by {
                            if i < k {
                                assert(has_level(before, level_key(input[i].0)));
                                let j = choose|j: int|
                                    0 <= j < before.len() && level_key(#[trigger] before[j].0)
                                        == level_key(input[i].0);
                                assert(out@[j] == before[j]);
                            } else {
                                assert(level_key(out@[before.len() as int].0) == key);
                            }
                        }
                        assert forall|j: int| 0 <= j < out@.len() implies #[trigger] has_level(
                            input.subrange(0, k + 1),
                            level_key(out@[j].0),
                        ) by {
                            if j < before.len() {
                                assert(out@[j] == before[j]);
                            }
                        }
                        assert forall|a: int, b: int|
                            0 <= a < b < out@.len() implies level_key(#[trigger] out@[a].0)
                            != level_key(#[trigger] out@[b].0) by {
                            if b == before.len() {
                                assert(out@[a] == before[a]);
                                if level_key(before[a].0) == key {
                                    assert(has_level(before, key));
                                }
                            } else {
                                assert(out@[a] == before[a]);
                                assert(out@[b] == before[b]);
                            }
                        }
                    }
                },
            }
            proof {
                k = k + 1;
                assert(rest@ =~= input.subrange(k, input.len() as int));
            }
        }
        proof {
            assert(input.subrange(0, k) =~= input);
        }
        TypographyScale { levels: out }
    }
}

} // verus!

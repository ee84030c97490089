//! System properties: short aliases for stylesheet properties, and breakpoint names
//! that stand for media queries.
use vstd::prelude::*;

use crate::assoc::{find_key, lookup};
use crate::text::{dec_text, push_decimal, push_str};

verus! {

/// Translates a property or selector fragment into another.
pub trait CssPropertyTranslator {
    /// What `query` translates to.
    spec fn translation(&self, query: Seq<char>) -> Seq<char>;

    fn translate(&self, query: &str) -> (r: String)
        ensures
            r@ == self.translation(query@),
    ;
}

/// The standard aliases, tried in this order.
pub open spec fn alias_of(q: Seq<char>) -> Option<Seq<char>> {
    if q == "p"@ {
        Some("padding"@)
    } else if q == "pl"@ {
        Some("paddingLeft"@)
    } else if q == "pr"@ {
        Some("paddingRight"@)
    } else if q == "pt"@ {
        Some("paddingTop"@)
    } else if q == "pd"@ {
        Some("paddingDown"@)
    } else if q == "bgcolor"@ {
        Some("backgroundColor"@)
    } else if q == "bg"@ {
        Some("background"@)
    } else {
        None
    }
}

/// `@media (min-width: {width}px)`
pub open spec fn media_query_text(width: nat) -> Seq<char> {
    "@media (min-width: "@ + dec_text(width) + "px)"@
}

/// The alias table of the standard system properties.
pub struct SystemProperties {
    mappings: Vec<(String, String)>,
}

impl SystemProperties {
    /// The aliases, in order.
    pub closed spec fn mapping_list(&self) -> Seq<(String, String)> {
        self.mappings@
    }

    /// The standard aliases: `p`, `pl`, `pr`, `pt`, `pd`, `bgcolor` and `bg`.
    pub fn new() -> (r: SystemProperties)
        ensures
            forall|q: Seq<char>| #[trigger]
                alias_of(q) == match lookup(r.mapping_list(), q) {
                    Some(v) => Some(v@),
                    None => None,
                },
    {
        let mut m: Vec<(String, String)> = Vec::new();
        m.push(("p".to_owned(), "padding".to_owned()));
        m.push(("pl".to_owned(), "paddingLeft".to_owned()));
        m.push(("pr".to_owned(), "paddingRight".to_owned()));
        m.push(("pt".to_owned(), "paddingTop".to_owned()));
        m.push(("pd".to_owned(), "paddingDown".to_owned()));
        m.push(("bgcolor".to_owned(), "backgroundColor".to_owned()));
        m.push(("bg".to_owned(), "background".to_owned()));
        proof {
            reveal_with_fuel(lookup, 8);
            let s = m@;
            assert(s.drop_last().drop_last().drop_last().drop_last().drop_last().drop_last().drop_last()
                =~= Seq::<(String, String)>::empty());
        }
        SystemProperties { mappings: m }
    }
}

impl CssPropertyTranslator for SystemProperties {
    open spec fn translation(&self, query: Seq<char>) -> Seq<char> {
        match lookup(self.mapping_list(), query) {
            Some(v) => v@,
            None => query,
        }
    }

    fn translate(&self, query: &str) -> (r: String) {
        match find_key(&self.mappings, query) {
            Some(i) => self.mappings[i].1.clone(),
            None => query.to_owned(),
        }
    }
}

/// Translates aliases first, then breakpoint names, and leaves anything else as it is.
pub struct TranslationUnit {
    props: SystemProperties,
    bps: Vec<(String, u32)>,
}

impl TranslationUnit {
    pub closed spec fn props_spec(&self) -> SystemProperties {
        self.props
    }

    pub closed spec fn breakpoint_list(&self) -> Seq<(String, u32)> {
        self.bps@
    }

    /// A translator with the standard aliases and the given breakpoints.
    pub fn new(bps: &Vec<(String, u32)>) -> (r: TranslationUnit)
        ensures
            forall|q: Seq<char>| #[trigger]
                alias_of(q) == match lookup(r.props_spec().mapping_list(), q) {
                    Some(v) => Some(v@),
                    None => None,
                },
            r.breakpoint_list() == bps@,
    {
        let mut copy: Vec<(String, u32)> = Vec::new();
        let mut i: usize = 0;
        while i < bps.len()
            invariant
                i <= bps@.len(),
                copy@ == bps@.subrange(0, i as int),
            decreases bps@.len() - i,
        {
            let name = bps[i].0.clone();
            copy.push((name, bps[i].1));
            proof {
                assert(copy@ =~= bps@.subrange(0, i + 1));
            }
            i = i + 1;
        }
        proof {
            assert(bps@.subrange(0, bps@.len() as int) =~= bps@);
        }
        TranslationUnit { props: SystemProperties::new(), bps: copy }
    }
}

impl CssPropertyTranslator for TranslationUnit {
    open spec fn translation(&self, query: Seq<char>) -> Seq<char> {
        match lookup(self.props_spec().mapping_list(), query) {
            Some(v) => v@,
            None => match lookup(self.breakpoint_list(), query) {
                Some(w) => media_query_text(w as nat),
                None => query,
            },
        }
    }

    fn translate(&self, query: &str) -> (r: String) {
        match find_key(&self.props.mappings, query) {
            Some(i) => self.props.mappings[i].1.clone(),
            None => match find_key(&self.bps, query) {
                Some(i) => {
                    let mut out = String::new();
                    push_str(&mut out, "@media (min-width: ");
                    push_decimal(&mut out, self.bps[i].1 as u64);
                    push_str(&mut out, "px)");
                    proof {
                        assert(out@ =~= media_query_text(self.bps@[i as int].1 as nat));
                    }
                    out
                },
                None => query.to_owned(),
            },
        }
    }
}

/// What a key translates to under the standard aliases and the breakpoints `bps`.
pub open spec fn translate_key(bps: Seq<(String, u32)>, q: Seq<char>) -> Seq<char> {
    match alias_of(q) {
        Some(v) => v,
        None => match lookup(bps, q) {
            Some(w) => media_query_text(w as nat),
            None => q,
        },
    }
}

} // verus!

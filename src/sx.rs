//! Style documents: ordered property maps of typed, possibly symbolic values, and
//! their merge.
use std::sync::Arc;
use vstd::prelude::*;

use crate::assoc::{find_key, has_key, insert_key, lookup, unique_keys};
use crate::color::Color;
use crate::text::{first_dot, int_text, push_char, push_int, push_str, trim, trim_text};
use crate::theme::Theme;

verus! {

/// A style document: property paths mapped to values, in declaration order, held as a
/// list of entries whose keys are unique.
#[derive(PartialEq)]
pub struct Sx {
    props: Vec<(String, SxValue)>,
}

/// A value in a style document.
#[derive(PartialEq)]
pub enum SxValue {
    Integer(i32),
    Dimension { value: i32, unit: String },
    /// Stylesheet text, written as is.
    CssLiteral(String),
    /// Text written between double quotes.
    String(String),
    Color(Color),
    /// A palette selector of the theme, resolved when compiling.
    ThemeToken { palette: String, selector: String },
    /// A custom property of a class, with an optional fallback value.
    ClassVar { class: String, var: String, fallback: Option<Box<SxValue>> },
    /// A value computed from the theme when compiling.
    Callback(FnSxValue),
    Nested(Sx),
}

/// A function of the theme, told apart from others by its identifier.
pub struct FnSxValue {
    id: u64,
    callback: ThemeCallback,
}

/// The caller's function behind a shared pointer; nothing about what it returns is
/// known.
#[verifier::external_body]
pub struct ThemeCallback {
    f: Arc<dyn Fn(&Theme) -> SxValue>,
}

/// Relies on `rand::random` for an identifier; any value may come back.
pub assume_specification<T>[ rand::random::<T> ]() -> T
    where
        rand::distributions::Standard: rand::distributions::Distribution<T>,
;

impl ThemeCallback {
    /// Relies on `Arc::new` to hold the caller's function.
    #[verifier::external_body]
    fn new<F: Fn(&Theme) -> SxValue + 'static>(f: F) -> Self {
        ThemeCallback { f: Arc::new(f) }
    }

    /// Runs the caller's function; its result is whatever the caller computes.
    #[verifier::external_body]
    fn call(&self, theme: &Theme) -> SxValue {
        (self.f)(theme)
    }
}

impl FnSxValue {
    /// Wraps `callback` under a fresh random identifier.
    pub fn new<F: Fn(&Theme) -> SxValue + 'static>(callback: F) -> (r: FnSxValue) {
        let id: u64 = rand::random::<u64>();
        FnSxValue { id, callback: ThemeCallback::new(callback) }
    }

    /// The identifier.
    pub closed spec fn id_spec(&self) -> u64 {
        self.id
    }

    pub fn id(&self) -> (r: u64)
        ensures
            r == self.id_spec(),
    {
        self.id
    }

    /// Runs the function on `theme`.
    pub fn apply(&self, theme: &Theme) -> SxValue {
        self.callback.call(theme)
    }
}

impl PartialEq for FnSxValue {
    fn eq(&self, other: &FnSxValue) -> (r: bool) {
        self.id == other.id
    }
}

impl vstd::std_specs::cmp::PartialEqSpecImpl for FnSxValue {
    open spec fn obeys_eq_spec() -> bool {
        true
    }

    open spec fn eq_spec(&self, other: &FnSxValue) -> bool {
        self.id_spec() == other.id_spec()
    }
}

impl View for Sx {
    type V = Seq<(String, SxValue)>;

    closed spec fn view(&self) -> Seq<(String, SxValue)> {
        self.props@
    }
}

/// Keys are unique at every level of nesting.
pub open spec fn sx_wf(s: Sx) -> bool
    decreases s,
{
    &&& unique_keys(s@)
    &&& forall|i: int|
        0 <= i < s@.len() ==> match #[trigger] s@[i].1 {
            SxValue::Nested(t) => sx_wf(t),
            _ => true,
        }
}

/// A value that holds a document holds a well-formed one.
pub open spec fn value_wf(v: SxValue) -> bool {
    match v {
        SxValue::Nested(t) => sx_wf(t),
        _ => true,
    }
}

/// The entries of `b` whose keys `a` lacks, in their order in `b`.
pub open spec fn extra(a: Seq<(String, SxValue)>, b: Seq<(String, SxValue)>) -> Seq<
    (String, SxValue),
>
    decreases b.len(),
{
    if b.len() == 0 {
        Seq::empty()
    } else {
        let t = extra(a, b.drop_last());
        if has_key(a, b.last().0@) {
            t
        } else {
            t.push(b.last())
        }
    }
}

/// `r` is the merge of `a` with `b`: first the entries of `a` in their order, where a
/// key that holds a document on both sides holds the merge of the two documents and
/// any other key keeps the value of `a`; then the entries of `b` whose keys `a` lacks,
/// in their order.
pub open spec fn merge_rel(
    a: Seq<(String, SxValue)>,
    b: Seq<(String, SxValue)>,
    r: Seq<(String, SxValue)>,
) -> bool
    decreases a,
{
    &&& r.len() == a.len() + extra(a, b).len()
    &&& forall|i: int|
        0 <= i < a.len() ==> {
            &&& (#[trigger] r[i]).0 == a[i].0
            &&& match (a[i].1, lookup(b, a[i].0@)) {
                (SxValue::Nested(x), Some(SxValue::Nested(y))) => match r[i].1 {
                    SxValue::Nested(m) => merge_rel(x@, y@, m@),
                    _ => false,
                },
                _ => r[i].1 == a[i].1,
            }
        }
    &&& forall|j: int|
        0 <= j < extra(a, b).len() ==> #[trigger] r[a.len() + j] == extra(a, b)[j]
}

proof fn lemma_extra_from(a: Seq<(String, SxValue)>, b: Seq<(String, SxValue)>, t: int)
    requires
        0 <= t < extra(a, b).len(),
    ensures
        has_key(b, extra(a, b)[t].0@),
        !has_key(a, extra(a, b)[t].0@),
    decreases b.len(),
{
    let p = b.drop_last();
    let e = extra(a, p);
    if t < e.len() {
        lemma_extra_from(a, p, t);
        let k = e[t].0@;
        let w = choose|w: int| 0 <= w < p.len() && #[trigger] p[w].0@ == k;
        assert(b[w] == p[w]);
    } else {
        assert(b[b.len() - 1].0@ == extra(a, b)[t].0@);
    }
}

impl Sx {
    /// An empty document.
    pub fn new() -> (r: Sx)
        ensures
            r@ == Seq::<(String, SxValue)>::empty(),
            sx_wf(r),
    {
        Sx { props: Vec::new() }
    }

    /// Sets `key` to `value`, replacing an earlier value of that key in place.
    pub fn insert(&mut self, key: &str, value: SxValue)
        requires
            sx_wf(*old(self)),
            value_wf(value),
        ensures
            sx_wf(*final(self)),
            forall|q: Seq<char>| #[trigger]
                lookup(final(self)@, q) == if q == key@ {
                    Some(value)
                } else {
                    lookup(old(self)@, q)
                },
            has_key(old(self)@, key@) ==> crate::assoc::keys(final(self)@) == crate::assoc::keys(
                old(self)@,
            ),
            !has_key(old(self)@, key@) ==> crate::assoc::keys(final(self)@) == crate::assoc::keys(
                old(self)@,
            ).push(key@),
    {
        let ghost before = self.props@;
        insert_key(&mut self.props, key.to_owned(), value);
        proof {
            let after = self.props@;
            assert forall|i: int| 0 <= i < after.len() implies value_wf(#[trigger] after[i].1) by {
                crate::assoc::lemma_lookup_unique(after, i);
                let k = after[i].0@;
                if k != key@ {
                    crate::assoc::lemma_lookup_absent_or_found(before, k);
                    let j = choose|j: int| 0 <= j < before.len() && #[trigger] before[j].0@ == k;
                    crate::assoc::lemma_lookup_unique(before, j);
                    assert(value_wf(before[j].1));
                }
            }
            assert forall|i: int| 0 <= i < after.len() implies match #[trigger] after[i].1 {
                SxValue::Nested(t) => sx_wf(t),
                _ => true,
            } by {
                assert(value_wf(after[i].1));
            }
        }
    }

    /// The value of `key`, if set.
    pub fn get(&self, key: &str) -> (r: Option<&SxValue>)
        ensures
            match r {
                Some(v) => lookup(self@, key@) == Some(*v),
                None => lookup(self@, key@) is None,
            },
    {
        match find_key(&self.props, key) {
            Some(i) => Some(&self.props[i].1),
            None => None,
        }
    }

    /// The keys set in this document, in declaration order.
    pub fn properties(&self) -> (r: Vec<String>)
        ensures
            r@.map_values(|s: String| s@) == crate::assoc::keys(self@),
    {
        let mut out: Vec<String> = Vec::new();
        let mut i: usize = 0;
        while i < self.props.len()
            invariant
                i <= self@.len(),
                self@ == self.props@,
                out@.len() == i,
                forall|j: int| 0 <= j < i ==> #[trigger] out@[j]@ == self@[j].0@,
            decreases self@.len() - i,
        {
            let name = self.props[i].0.clone();
            out.push(name);
            i = i + 1;
        }
        proof {
            assert(out@.map_values(|s: String| s@) =~= crate::assoc::keys(self@));
        }
        out
    }

    /// Merges `other` into this document; this document's values win. Where both hold
    /// a document under the same key, the two documents are merged by the same rule.
    pub fn merge(self, other: Sx) -> (r: Sx)
        requires
            sx_wf(self),
            sx_wf(other),
        ensures
            sx_wf(r),
            merge_rel(self@, other@, r@),
        decreases self,
    {
        let ghost a = self@;
        let ghost b = other@;
        let mut out = self.props;
        let mut rest = other.props;
        let ghost mut j: int = 0;
        proof {
            assert(b.subrange(0, 0) =~= Seq::<(String, SxValue)>::empty());
            assert(extra(a, b.subrange(0, 0)) =~= Seq::<(String, SxValue)>::empty());
            assert forall|i: int| 0 <= i < a.len() implies lookup(b.subrange(0, 0), a[i].0@) is None by {}
        }
        while rest.len() > 0
            invariant
                0 <= j <= b.len(),
                rest@ == b.subrange(j, b.len() as int),
                sx_wf(Sx { props: out }),
                merge_rel(a, b.subrange(0, j), out@),
                unique_keys(a),
                unique_keys(b),
                a == self@,
                forall|i: int| 0 <= i < b.len() ==> value_wf(#[trigger] b[i].1),
            decreases rest@.len(),
        {
            let ghost p = b.subrange(0, j);
            let ghost pnext = b.subrange(0, j + 1);
            let ghost out0 = out@;
            let (key, value) = rest.remove(0);
            proof {
                assert(b[j] == (key, value));
                assert(pnext == p.push(b[j]));
                assert(pnext.drop_last() == p);
                assert(value_wf(b[j].1));
                // `key` is fresh in the prefix of `b` that has been merged so far
                assert forall|w: int| 0 <= w < p.len() implies #[trigger] p[w].0@ != key@ by {
                    assert(p[w] == b[w]);
                }
                crate::assoc::lemma_lookup_none(p, key@);
            }
            match find_key(&out, key.as_str()) {
                None => {
                    proof {
                        assert(!has_key(a, key@)) by {
                            if has_key(a, key@) {
                                let w = choose|w: int| 0 <= w < a.len() && #[trigger] a[w].0@ == key@;
                                assert(out0[w].0 == a[w].0);
                            }
                        }
                        assert(extra(a, pnext) == extra(a, p).push(b[j]));
                    }
                    out.push((key, value));
                    proof {
                        let r = out@;
                        assert forall|i: int| 0 <= i < a.len() implies lookup(pnext, a[i].0@) == lookup(p, a[i].0@) by {
                            assert(a[i].0@ != key@) by {
                                if a[i].0@ == key@ {
                                    assert(has_key(a, key@));
                                }
                            }
                        }
                        assert forall|i: int| 0 <= i < a.len() implies #[trigger] r[i] == out0[i] by {}
                        assert forall|x: int, y: int|
                            0 <= x < r.len() && 0 <= y < r.len() && x != y implies #[trigger] r[x].0@
                            != #[trigger] r[y].0@ by {
                            if x == r.len() - 1 && r[y].0@ == key@ {
                                assert(out0[y].0@ == key@);
                            }
                            if y == r.len() - 1 && r[x].0@ == key@ {
                                assert(out0[x].0@ == key@);
                            }
                        }
                        assert forall|i: int| 0 <= i < r.len() implies match #[trigger] r[i].1 {
                            SxValue::Nested(t) => sx_wf(t),
                            _ => true,
                        } by {
                            if i < r.len() - 1 {
                                assert(r[i] == out0[i]);
                            }
                        }
                        assert(sx_wf(Sx { props: out }));
                        assert forall|t: int| 0 <= t < extra(a, pnext).len() implies #[trigger] r[a.len() + t] == extra(a, pnext)[t] by {
                            if t < extra(a, p).len() {
                                assert(out0[a.len() + t] == extra(a, p)[t]);
                            }
                        }
                    }
                },
                Some(idx) => {
                    proof {
                        if idx >= a.len() {
                            let t = idx - a.len();
                            assert(out0[a.len() + t] == extra(a, p)[t]);
                            lemma_extra_from(a, p, t);
                            let w = choose|w: int| 0 <= w < p.len() && #[trigger] p[w].0@ == key@;
                        }
                        assert(idx < a.len());
                        assert(out0[idx as int].0 == a[idx as int].0);
                        assert(a[idx as int].0@ == key@);
                        assert(has_key(a, key@));
                        assert(out0[idx as int].1 == a[idx as int].1);
                        assert(extra(a, pnext) == extra(a, p));
                        assert forall|i: int| 0 <= i < a.len() && i != idx implies lookup(pnext, a[i].0@) == lookup(p, a[i].0@) by {
                            assert(a[i].0@ != key@);
                        }
                        assert(lookup(pnext, key@) == Some(value));
                    }
                    let both_nested = match (&out[idx].1, &value) {
                        (SxValue::Nested(_), SxValue::Nested(_)) => true,
                        _ => false,
                    };
                    if both_nested {
                        let (k0, v0) = out.remove(idx);
                        match v0 {
                            SxValue::Nested(x) => match value {
                                SxValue::Nested(y) => {
                                    proof {
                                        assert(sx_wf(x));
                                        assert(value_wf(b[j].1));
                                    }
                                    let m = x.merge(y);
                                    out.insert(idx, (k0, SxValue::Nested(m)));
                                    proof {
                                        let r = out@;
                                        assert(r =~= out0.update(idx as int, r[idx as int]));
                                        assert forall|i: int| 0 <= i < a.len() && i != idx implies #[trigger] r[i] == out0[i] by {}
                                        assert forall|x: int, y: int|
                                            0 <= x < r.len() && 0 <= y < r.len() && x != y implies #[trigger] r[x].0@
                                            != #[trigger] r[y].0@ by {
                                            assert(r[x].0@ == out0[x].0@);
                                            assert(r[y].0@ == out0[y].0@);
                                        }
                                        assert forall|i: int| 0 <= i < r.len() implies match #[trigger] r[i].1 {
                                            SxValue::Nested(t) => sx_wf(t),
                                            _ => true,
                                        } by {
                                            if i != idx {
                                                assert(r[i] == out0[i]);
                                            }
                                        }
                                        assert(sx_wf(Sx { props: out }));
                                        assert forall|t: int| 0 <= t < extra(a, pnext).len() implies #[trigger] r[a.len() + t] == extra(a, pnext)[t] by {
                                            assert(r[a.len() + t] == out0[a.len() + t]);
                                        }
                                    }
                                },
                                other => {
                                    out.insert(idx, (k0, SxValue::Nested(x)));
                                    proof {
                                        assert(false);
                                    }
                                },
                            },
                            other => {
                                out.insert(idx, (k0, other));
                                proof {
                                    assert(false);
                                }
                            },
                        }
                    } else {
                        proof {
                            assert forall|i: int| 0 <= i < a.len() implies #[trigger] out@[i] == out0[i] by {}
                        }
                    }
                },
            }
            proof {
                j = j + 1;
                assert(rest@ =~= b.subrange(j, b.len() as int));
            }
        }
        proof {
            assert(b.subrange(0, j) =~= b);
        }
        Sx { props: out }
    }
}

proof fn lemma_extra_contains(a: Seq<(String, SxValue)>, b: Seq<(String, SxValue)>, w: int)
    requires
        0 <= w < b.len(),
        !has_key(a, b[w].0@),
    ensures
        has_key(extra(a, b), b[w].0@),
    decreases b.len(),
{
    let p = b.drop_last();
    if w == b.len() - 1 {
        let e = extra(a, b);
        assert(e[e.len() - 1] == b[w]);
    } else {
        assert(p[w] == b[w]);
        lemma_extra_contains(a, p, w);
        let e = extra(a, p);
        let t = choose|t: int| 0 <= t < e.len() && #[trigger] e[t].0@ == b[w].0@;
        if !has_key(a, b.last().0@) {
            assert(extra(a, b)[t] == e[t]);
        }
    }
}

/// Every key of either side is a key of the merge.
pub proof fn lemma_merge_keys(a: Sx, b: Sx, r: Sx, q: Seq<char>)
    requires
        merge_rel(a@, b@, r@),
        has_key(a@, q) || has_key(b@, q),
    ensures
        has_key(r@, q),
{
    if has_key(a@, q) {
        let i = choose|i: int| 0 <= i < a@.len() && #[trigger] a@[i].0@ == q;
        assert(r@[i].0 == a@[i].0);
    } else {
        let w = choose|w: int| 0 <= w < b@.len() && #[trigger] b@[w].0@ == q;
        lemma_extra_contains(a@, b@, w);
        let e = extra(a@, b@);
        let t = choose|t: int| 0 <= t < e.len() && #[trigger] e[t].0@ == q;
        assert(r@[a@.len() + t] == e[t]);
    }
}

/// Every key of the merge is a key of one of the two sides.
pub proof fn lemma_merge_keys_from(a: Sx, b: Sx, r: Sx, q: Seq<char>)
    requires
        merge_rel(a@, b@, r@),
        has_key(r@, q),
    ensures
        has_key(a@, q) || has_key(b@, q),
{
    let w = choose|w: int| 0 <= w < r@.len() && #[trigger] r@[w].0@ == q;
    if w < a@.len() {
        assert(r@[w].0 == a@[w].0);
    } else {
        let t = w - a@.len();
        assert(r@[a@.len() + t] == extra(a@, b@)[t]);
        lemma_extra_from(a@, b@, t);
    }
}

/// A key that only `b` holds keeps `b`'s value in the merge.
pub proof fn lemma_merge_right_only(a: Sx, b: Sx, r: Sx, k: Seq<char>)
    requires
        sx_wf(b),
        sx_wf(r),
        merge_rel(a@, b@, r@),
        !has_key(a@, k),
        has_key(b@, k),
    ensures
        lookup(r@, k) == lookup(b@, k),
{
    let w = choose|w: int| 0 <= w < b@.len() && #[trigger] b@[w].0@ == k;
    lemma_extra_contains(a@, b@, w);
    let e = extra(a@, b@);
    let t = choose|t: int| 0 <= t < e.len() && #[trigger] e[t].0@ == k;
    assert(r@[a@.len() + t] == e[t]);
    crate::assoc::lemma_lookup_unique(r@, a@.len() + t);
    crate::assoc::lemma_lookup_unique(b@, w);
    lemma_extra_is_entry(a@, b@, t);
    let v = choose|v: int| 0 <= v < b@.len() && b@[v] == e[t];
    assert(b@[v].0@ == k);
    if v != w {
        assert(b@[v].0@ != b@[w].0@);
    }
}

proof fn lemma_extra_is_entry(a: Seq<(String, SxValue)>, b: Seq<(String, SxValue)>, t: int)
    requires
        0 <= t < extra(a, b).len(),
    ensures
        exists|v: int| 0 <= v < b.len() && b[v] == extra(a, b)[t],
    decreases b.len(),
{
    let p = b.drop_last();
    let e = extra(a, p);
    if t < e.len() {
        lemma_extra_is_entry(a, p, t);
        let v = choose|v: int| 0 <= v < p.len() && p[v] == e[t];
        assert(b[v] == p[v]);
    } else {
        assert(b[b.len() - 1] == extra(a, b)[t]);
    }
}

/// Where `a` holds a key and the two sides do not both hold a document under it, the
/// merge holds `a`'s value there and `b`'s value is dropped.
pub proof fn lemma_merge_left_wins(a: Sx, b: Sx, r: Sx, k: Seq<char>)
    requires
        sx_wf(a),
        sx_wf(r),
        merge_rel(a@, b@, r@),
        lookup(a@, k) is Some,
        !(lookup(a@, k) matches Some(SxValue::Nested(_)) && lookup(b@, k) matches Some(
            SxValue::Nested(_),
        )),
    ensures
        lookup(r@, k) == lookup(a@, k),
{
    crate::assoc::lemma_lookup_absent_or_found(a@, k);
    let i = choose|i: int| 0 <= i < a@.len() && #[trigger] a@[i].0@ == k;
    crate::assoc::lemma_lookup_unique(a@, i);
    assert(r@[i].0 == a@[i].0);
    crate::assoc::lemma_lookup_unique(r@, i);
}

/// Where both sides hold a document under a key, the merge holds there the merge of
/// the two documents, which has every key of either.
pub proof fn lemma_merge_nested(a: Sx, b: Sx, r: Sx, k: Seq<char>, x: Sx, y: Sx)
    requires
        sx_wf(a),
        sx_wf(r),
        merge_rel(a@, b@, r@),
        lookup(a@, k) == Some(SxValue::Nested(x)),
        lookup(b@, k) == Some(SxValue::Nested(y)),
    ensures
        match lookup(r@, k) {
            Some(SxValue::Nested(m)) => {
                &&& merge_rel(x@, y@, m@)
                &&& forall|q: Seq<char>|
                    (has_key(x@, q) || has_key(y@, q)) ==> #[trigger] has_key(m@, q)
            },
            _ => false,
        },
{
    crate::assoc::lemma_lookup_absent_or_found(a@, k);
    let i = choose|i: int| 0 <= i < a@.len() && #[trigger] a@[i].0@ == k;
    crate::assoc::lemma_lookup_unique(a@, i);
    assert(r@[i].0 == a@[i].0);
    crate::assoc::lemma_lookup_unique(r@, i);
    match r@[i].1 {
        SxValue::Nested(m) => {
            assert forall|q: Seq<char>| (has_key(x@, q) || has_key(y@, q)) implies #[trigger] has_key(m@, q) by {
                lemma_merge_keys(x, y, m, q);
            }
        },
        _ => {},
    }
}

impl Sx {
    /// The number of entries.
    pub fn len(&self) -> (r: usize)
        ensures
            r == self@.len(),
    {
        self.props.len()
    }

    /// Entry `i`, in declaration order.
    pub fn entry(&self, i: usize) -> (r: &(String, SxValue))
        requires
            i < self@.len(),
        ensures
            *r == self@[i as int],
    {
        &self.props[i]
    }
}

/// An entry's value lies strictly inside its document.
pub proof fn lemma_entry_decreases(s: Sx, i: int)
    requires
        0 <= i < s@.len(),
    ensures
        decreases_to!(s => s@[i].1),
{
    assert(decreases_to!(s => s.props));
    assert(decreases_to!(s.props => s.props@));
    assert(decreases_to!(s.props@ => s.props@[i]));
    assert(decreases_to!(s.props@[i] => s.props@[i].1));
}

/// The stylesheet text of a value that needs no theme: numbers, dimensions, literals,
/// quoted text and colors.
pub open spec fn direct_css(v: SxValue) -> Option<Seq<char>> {
    match v {
        SxValue::Integer(i) => Some(int_text(i as int)),
        SxValue::Dimension { value, unit } => Some(int_text(value as int) + unit@),
        SxValue::CssLiteral(l) => Some(l@),
        SxValue::String(t) => Some(seq!['"'] + t@ + seq!['"']),
        SxValue::Color(c) => Some(c.css_text()),
        _ => None,
    }
}

impl SxValue {
    /// A custom property of a class, with an optional fallback.
    pub fn var(class: &str, var: &str, fallback: Option<SxValue>) -> (r: SxValue)
        ensures
            match r {
                SxValue::ClassVar { class: c, var: v, fallback: f } => {
                    &&& c@ == class@
                    &&& v@ == var@
                    &&& match fallback {
                        Some(x) => f == Some(Box::new(x)),
                        None => f is None,
                    }
                },
                _ => false,
            },
    {
        let f = match fallback {
            Some(x) => Some(Box::new(x)),
            None => None,
        };
        SxValue::ClassVar { class: class.to_owned(), var: var.to_owned(), fallback: f }
    }

    /// The stylesheet text of a value that needs no theme; `None` for theme tokens,
    /// custom properties, callbacks and documents.
    pub fn to_css(&self) -> (r: Option<String>)
        ensures
            match r {
                Some(t) => direct_css(*self) == Some(t@),
                None => direct_css(*self) is None,
            },
    {
        match self {
            SxValue::Integer(i) => {
                let mut out = String::new();
                push_int(&mut out, *i as i64);
                proof {
                    assert(out@ =~= int_text(*i as int));
                }
                Some(out)
            },
            SxValue::Dimension { value, unit } => {
                let mut out = String::new();
                push_int(&mut out, *value as i64);
                push_str(&mut out, unit.as_str());
                proof {
                    assert(out@ =~= int_text(*value as int) + unit@);
                }
                Some(out)
            },
            SxValue::CssLiteral(l) => Some(l.clone()),
            SxValue::String(t) => {
                let mut out = String::new();
                push_char(&mut out, '"');
                push_str(&mut out, t.as_str());
                push_char(&mut out, '"');
                proof {
                    assert(out@ =~= seq!['"'] + t@ + seq!['"']);
                }
                Some(out)
            },
            SxValue::Color(c) => Some(c.to_css()),
            _ => None,
        }
    }
}

/// The palette and selector of a theme-token text: exactly one dot, with text that is
/// not blank on both sides; both parts are trimmed.
pub open spec fn token_parts(s: Seq<char>) -> Option<(Seq<char>, Seq<char>)> {
    let d = first_dot(s);
    if d < s.len() && (forall|i: int| d < i < s.len() ==> #[trigger] s[i] != '.') {
        let l = trim_text(s.subrange(0, d));
        let r = trim_text(s.subrange(d + 1, s.len() as int));
        if l.len() > 0 && r.len() > 0 {
            Some((l, r))
        } else {
            None
        }
    } else {
        None
    }
}

/// The index of the first dot (the length when there is none), and whether no dot
/// follows it.
fn single_dot(t: &str) -> (r: (usize, bool))
    ensures
        r.0 == first_dot(t@),
        r.0 < t@.len() ==> (r.1 <==> forall|i: int| r.0 < i < t@.len() ==> #[trigger] t@[i] != '.'),
{
    let n = t.unicode_len();
    let mut dot: usize = 0;
    let mut found = false;
    let mut single = true;
    let mut i: usize = 0;
    while i < n
        invariant
            n == t@.len(),
            i <= n,
            found ==> dot < i && first_dot(t@.subrange(0, i as int)) == dot,
            !found ==> first_dot(t@.subrange(0, i as int)) == i,
            found ==> (single <==> forall|j: int| dot < j < i ==> #[trigger] t@[j] != '.'),
            !found ==> single,
        decreases n - i,
    {
        let c = t.get_char(i);
        proof {
            assert(t@.subrange(0, i + 1).drop_last() == t@.subrange(0, i as int));
        }
        if c == '.' {
            if found {
                single = false;
                proof {
                    assert(t@[i as int] == '.');
                    assert(!(forall|j: int| dot < j < i + 1 ==> #[trigger] t@[j] != '.'));
                }
            } else {
                found = true;
                dot = i;
            }
        }
        i = i + 1;
    }
    proof {
        assert(t@.subrange(0, n as int) =~= t@);
    }
    if found {
        (dot, single)
    } else {
        (n, false)
    }
}

impl SxValue {
    /// Reads a value from text: `palette.selector` is a theme token, anything else is
    /// stylesheet text.
    pub fn from_text(text: &str) -> (r: SxValue)
        ensures
            match token_parts(text@) {
                Some(parts) => match r {
                    SxValue::ThemeToken { palette, selector } => palette@ == parts.0
                        && selector@ == parts.1,
                    _ => false,
                },
                None => match r {
                    SxValue::CssLiteral(t) => t@ == text@,
                    _ => false,
                },
            },
    {
        let n = text.unicode_len();
        let (d, single) = single_dot(text);
        if d < n && single {
            let l = trim(text.substring_char(0, d));
            let r = trim(text.substring_char(d + 1, n));
            if l.unicode_len() > 0 && r.unicode_len() > 0 {
                return SxValue::ThemeToken { palette: l.to_owned(), selector: r.to_owned() };
            }
        }
        SxValue::CssLiteral(text.to_owned())
    }
}

} // verus!

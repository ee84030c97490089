//! The compiler from style documents to stylesheet text.
use vstd::prelude::*;

use crate::assoc::lookup;
use crate::color::Color;
use crate::palette::{ColorByMode, Palette, ThemeMode};
use crate::sx::{direct_css, lemma_entry_decreases, FnSxValue, Sx, SxValue};
use crate::system_props::{translate_key, CssPropertyTranslator, TranslationUnit};
use crate::theme::{class_var_text, Theme};
use crate::text::{push_char, push_str};

verus! {

/// Why a document could not be compiled.
#[derive(PartialEq, Eq, Debug)]
pub enum CompileError {
    /// A theme token names a palette that the theme lacks.
    UnknownPalette { palette: String },
    /// A theme token names a selector that its palette lacks.
    UnknownSelector { palette: String, selector: String },
    /// The fallback of a custom property is not a value that needs no theme.
    InvalidFallback { class: String, var: String },
    /// Callbacks kept returning callbacks or documents beyond the allowed depth.
    CallbackLimit,
}

/// How many callback results a compile pass follows before it gives up.
pub const CALLBACK_BUDGET: usize = 64;

/// What heck's kebab case makes of a text.
pub uninterp spec fn kebab_of(s: Seq<char>) -> Seq<char>;

/// Relies on `heck::ToKebabCase::to_kebab_case`: lower-case words joined by hyphens;
/// the result depends on the text alone, and empty text stays empty.
#[verifier::external_body]
fn kebab_case(s: &str) -> (r: String)
    ensures
        r@ == kebab_of(s@),
        s@.len() == 0 ==> r@.len() == 0,
{
    heck::ToKebabCase::to_kebab_case(s)
}

/// `. + > ~ & ,`
pub open spec fn is_selector_op(c: char) -> bool {
    c == '.' || c == '+' || c == '>' || c == '~' || c == '&' || c == ','
}

/// `> ~ + ,`: fragments that begin with one of these join without a space.
pub open spec fn is_combinator(c: char) -> bool {
    c == '>' || c == '~' || c == '+' || c == ','
}

/// Keys written unchanged as property names: custom properties (`--...`), `[...]`
/// attribute fragments, and keys that begin with a selector operator.
pub open spec fn is_verbatim_key(k: Seq<char>) -> bool {
    k.len() > 0 && ((k[0] == '[' && k.last() == ']') || is_selector_op(k[0]) || (k.len() > 1
        && k[0] == '-' && k[1] == '-'))
}

/// Scanning a key from the left: the text written so far and the segment being read.
/// A `-` or a selector operator ends a segment, which is written in kebab case and
/// followed by that character.
pub open spec fn property_scan(s: Seq<char>) -> (Seq<char>, Seq<char>)
    decreases s.len(),
{
    if s.len() == 0 {
        (Seq::empty(), Seq::empty())
    } else {
        let prev = property_scan(s.drop_last());
        let c = s.last();
        if c == '-' || is_selector_op(c) {
            (prev.0 + kebab_of(prev.1).push(c), Seq::empty())
        } else {
            (prev.0, prev.1.push(c))
        }
    }
}

/// The property name written for a key.
pub open spec fn property_name(k: Seq<char>) -> Seq<char> {
    if is_verbatim_key(k) {
        k
    } else {
        property_scan(k).0 + kebab_of(property_scan(k).1)
    }
}

/// Turns a key into a property name: each `-`-separated segment in kebab case, unless
/// the key is a custom property, an attribute fragment, or begins with a selector
/// operator.
pub fn to_property(key: &str) -> (r: String)
    ensures
        r@ == property_name(key@),
{
    let n = key.unicode_len();
    if n > 0 {
        let first = key.get_char(0);
        let last = key.get_char(n - 1);
        if (first == '[' && last == ']') || first == '.' || first == '+' || first == '>' || first
            == '~' || first == '&' || first == ',' {
            return key.to_owned();
        }
        if n > 1 && first == '-' && key.get_char(1) == '-' {
            return key.to_owned();
        }
    }
    let mut out = String::new();
    let mut seg = String::new();
    let mut i: usize = 0;
    while i < n
        invariant
            n == key@.len(),
            i <= n,
            (out@, seg@) == property_scan(key@.subrange(0, i as int)),
        decreases n - i,
    {
        let c = key.get_char(i);
        proof {
            assert(key@.subrange(0, i + 1).drop_last() == key@.subrange(0, i as int));
        }
        if c == '-' || c == '.' || c == '+' || c == '>' || c == '~' || c == '&' || c == ',' {
            let k = kebab_case(seg.as_str());
            push_str(&mut out, k.as_str());
            push_char(&mut out, c);
            seg = String::new();
            proof {
                assert(seg@ =~= Seq::<char>::empty());
            }
        } else {
            push_char(&mut seg, c);
        }
        i = i + 1;
    }
    let k = kebab_case(seg.as_str());
    push_str(&mut out, k.as_str());
    proof {
        assert(key@.subrange(0, n as int) =~= key@);
    }
    out
}

/// The selector of a stack of keys: a fragment that begins with a combinator is
/// appended directly, one that begins with `&` is appended without the `&`, and any
/// other is appended after a space.
pub open spec fn join_selectors(st: Seq<Seq<char>>) -> Seq<char>
    decreases st.len(),
{
    if st.len() == 0 {
        Seq::empty()
    } else {
        let acc = join_selectors(st.drop_last());
        let nx = st.last();
        if nx.len() > 0 && is_combinator(nx[0]) {
            acc + nx
        } else if nx.len() > 0 && nx[0] == '&' {
            acc + nx.drop_first()
        } else if acc.len() == 0 {
            nx
        } else {
            acc + " "@ + nx
        }
    }
}

/// The texts of a stack of strings.
pub open spec fn texts(st: Seq<String>) -> Seq<Seq<char>> {
    st.map_values(|s: String| s@)
}

fn join_stack(stack: &Vec<String>) -> (r: String)
    ensures
        r@ == join_selectors(texts(stack@)),
{
    let mut out = String::new();
    let mut i: usize = 0;
    while i < stack.len()
        invariant
            i <= stack@.len(),
            out@ == join_selectors(texts(stack@.subrange(0, i as int))),
        decreases stack@.len() - i,
    {
        let nx = stack[i].as_str();
        proof {
            assert(texts(stack@.subrange(0, i + 1)).drop_last() =~= texts(
                stack@.subrange(0, i as int),
            ));
            assert(texts(stack@.subrange(0, i + 1)).last() == nx@);
        }
        let len = nx.unicode_len();
        let c0 = if len > 0 {
            nx.get_char(0)
        } else {
            ' '
        };
        if len > 0 && (c0 == '>' || c0 == '~' || c0 == '+' || c0 == ',') {
            push_str(&mut out, nx);
        } else if len > 0 && c0 == '&' {
            let rest = nx.substring_char(1, len);
            push_str(&mut out, rest);
            proof {
                assert(rest@ =~= nx@.drop_first());
            }
        } else if out.unicode_len() == 0 {
            push_str(&mut out, nx);
            proof {
                assert(out@ =~= nx@);
            }
        } else {
            push_char(&mut out, ' ');
            push_str(&mut out, nx);
            proof {
                reveal_strlit(" ");
                assert(out@ =~= join_selectors(texts(stack@.subrange(0, i as int))) + " "@ + nx@);
            }
        }
        i = i + 1;
    }
    proof {
        assert(stack@.subrange(0, stack@.len() as int) =~= stack@);
    }
    out
}

/// The text of a value that is neither a document nor a callback, under a theme and a
/// concrete mode.
pub open spec fn value_text(theme: Theme, mode: ThemeMode, v: SxValue) -> Result<
    Seq<char>,
    CompileError,
> {
    match v {
        SxValue::ThemeToken { palette, selector } => match theme.palette_spec(palette@) {
            None => Err(CompileError::UnknownPalette { palette }),
            Some(p) => match p.select_spec(selector@, mode) {
                None => Err(CompileError::UnknownSelector { palette, selector }),
                Some(c) => Ok(c.css_text()),
            },
        },
        SxValue::ClassVar { class, var, fallback } => match fallback {
            None => Ok("var("@ + class_var_text(theme.prefix_text(), class@, var@) + ")"@),
            Some(f) => match direct_css(*f) {
                Some(ft) => Ok(
                    "var("@ + class_var_text(theme.prefix_text(), class@, var@) + ", "@ + ft
                        + ")"@,
                ),
                None => Err(CompileError::InvalidFallback { class, var }),
            },
        },
        _ => match direct_css(v) {
            Some(t) => Ok(t),
            None => Err(CompileError::CallbackLimit),
        },
    }
}

/// A rule: its declarations in a block after the selector, omitted when there are
/// none, followed by its nested rules.
pub open spec fn rule_text(query: Seq<char>, decls: Seq<char>, rules: Seq<char>) -> Seq<char> {
    (if decls.len() > 0 {
        query + " {"@ + decls + "}"@
    } else {
        Seq::empty()
    }) + rules
}

/// `name: value;`
pub open spec fn declaration_text(name: Seq<char>, value: Seq<char>) -> Seq<char> {
    name + ": "@ + value + ";"@
}

/// No entry at any depth of the document is a callback.
pub open spec fn callback_free(s: Sx) -> bool
    decreases s,
{
    forall|i: int|
        0 <= i < s@.len() ==> match #[trigger] s@[i].1 {
            SxValue::Callback(_) => false,
            SxValue::Nested(t) => {
                proof {
                    lemma_entry_decreases(s, i);
                }
                callback_free(t)
            },
            _ => true,
        }
}

/// Every entry of the document, at any depth, that is neither a callback nor a
/// document resolves: its theme tokens name a palette and selector that the theme has,
/// and its custom-property fallbacks need no theme.
pub open spec fn entries_resolve(theme: Theme, mode: ThemeMode, s: Sx) -> bool
    decreases s,
{
    forall|i: int|
        0 <= i < s@.len() ==> match #[trigger] s@[i].1 {
            SxValue::Callback(_) => true,
            SxValue::Nested(t) => {
                proof {
                    lemma_entry_decreases(s, i);
                }
                entries_resolve(theme, mode, t)
            },
            v => value_text(theme, mode, v) is Ok,
        }
}

/// What compiling yields for the first `n` entries of `s` under the selector stack
/// `stack`: their declarations, their nested rules, and both in declaration order; or
/// the first failure met. `None` when, before any failure, a callback is reached: what
/// follows then depends on what the callback returns.
pub open spec fn level(
    theme: Theme,
    mode: ThemeMode,
    s: Sx,
    n: int,
    stack: Seq<Seq<char>>,
) -> Option<Result<(Seq<char>, Seq<char>, Seq<char>), CompileError>>
    decreases s, n,
{
    if n <= 0 || n > s@.len() {
        Some(Ok((Seq::empty(), Seq::empty(), Seq::empty())))
    } else {
        match level(theme, mode, s, n - 1, stack) {
            None => None,
            Some(Err(e)) => Some(Err(e)),
            Some(Ok(prev)) => {
                let key = translate_key(theme.breakpoint_list(), s@[n - 1].0@);
                match s@[n - 1].1 {
                    SxValue::Callback(_) => None,
                    SxValue::Nested(t) => {
                        proof {
                            lemma_entry_decreases(s, n - 1);
                        }
                        match level(theme, mode, t, t@.len() as int, stack.push(key)) {
                            None => None,
                            Some(Err(e)) => Some(Err(e)),
                            Some(Ok(inner)) => {
                                let txt = rule_text(join_selectors(stack.push(key)), inner.0, inner.1);
                                Some(Ok((prev.0, prev.1 + txt, prev.2 + txt)))
                            },
                        }
                    },
                    v => match value_text(theme, mode, v) {
                        Err(e) => Some(Err(e)),
                        Ok(t) => {
                            let d = declaration_text(property_name(key), t);
                            Some(Ok((prev.0 + d, prev.1, prev.2 + d)))
                        },
                    },
                }
            },
        }
    }
}

/// The stylesheet of a document. Without a base selector: each entry in order, a
/// declaration or a rule. With one: a rule for the base selector that holds the document.
/// `None` when a callback is reached before any failure.
pub open spec fn stylesheet(theme: Theme, mode: ThemeMode, s: Sx, base: Option<Seq<char>>) -> Option<
    Result<Seq<char>, CompileError>,
> {
    match base {
        None => match level(theme, mode, s, s@.len() as int, Seq::empty()) {
            Some(Ok(r)) => Some(Ok(r.2)),
            Some(Err(e)) => Some(Err(e)),
            None => None,
        },
        Some(b) => match level(theme, mode, s, s@.len() as int, seq![b]) {
            Some(Ok(r)) => Some(Ok(rule_text(b, r.0, r.1))),
            Some(Err(e)) => Some(Err(e)),
            None => None,
        },
    }
}

/// The text of a compile result.
pub open spec fn text_result(r: Result<String, CompileError>) -> Result<Seq<char>, CompileError> {
    match r {
        Ok(t) => Ok(t@),
        Err(e) => Err(e),
    }
}

/// The texts of the parts of a compile result.
pub open spec fn parts_result(r: Result<(String, String, String), CompileError>) -> Result<
    (Seq<char>, Seq<char>, Seq<char>),
    CompileError,
> {
    match r {
        Ok(p) => Ok((p.0@, p.1@, p.2@)),
        Err(e) => Err(e),
    }
}

/// Once a failure or a callback is met, later entries change nothing.
proof fn lemma_level_settled(theme: Theme, mode: ThemeMode, s: Sx, n: int, m: int, stack: Seq<Seq<char>>)
    requires
        0 < n <= m <= s@.len(),
        !(level(theme, mode, s, n, stack) matches Some(Ok(_))),
    ensures
        level(theme, mode, s, m, stack) == level(theme, mode, s, n, stack),
    decreases m - n,
{
    if m > n {
        lemma_level_settled(theme, mode, s, n, m - 1, stack);
    }
}

/// A document without callbacks always has a stylesheet or a failure.
pub proof fn lemma_callback_free_decided(
    theme: Theme,
    mode: ThemeMode,
    s: Sx,
    n: int,
    stack: Seq<Seq<char>>,
)
    requires
        callback_free(s),
    ensures
        level(theme, mode, s, n, stack) is Some,
    decreases s, n,
{
    if 0 < n <= s@.len() {
        lemma_callback_free_decided(theme, mode, s, n - 1, stack);
        if let SxValue::Nested(t) = s@[n - 1].1 {
            lemma_entry_decreases(s, n - 1);
            assert(callback_free(t));
            let key = translate_key(theme.breakpoint_list(), s@[n - 1].0@);
            lemma_callback_free_decided(theme, mode, t, t@.len() as int, stack.push(key));
        }
    }
}

/// A copy of a text.
fn copy_text(s: &String) -> (r: String)
    ensures
        r == *s,
{
    s.clone()
}

/// The text of a value that is neither a document nor a callback.
fn resolve_value(v: &SxValue, mode: &ThemeMode, theme: &Theme) -> (r: Result<String, CompileError>)
    requires
        *mode != ThemeMode::System,
    ensures
        match r {
            Ok(t) => value_text(*theme, *mode, *v) == Ok::<Seq<char>, CompileError>(t@),
            Err(e) => value_text(*theme, *mode, *v) == Err::<Seq<char>, CompileError>(e),
        },
{
    match v {
        SxValue::ThemeToken { palette, selector } => match theme.get_palette(palette.as_str()) {
            None => Err(CompileError::UnknownPalette { palette: copy_text(palette) }),
            Some(p) => match p.get(selector.as_str(), mode) {
                None => Err(
                    CompileError::UnknownSelector {
                        palette: copy_text(palette),
                        selector: copy_text(selector),
                    },
                ),
                Some(c) => Ok(c.to_css()),
            },
        },
        SxValue::ClassVar { class, var, fallback } => {
            let name = theme.class_var(class.as_str(), var.as_str());
            let mut out = String::new();
            push_str(&mut out, "var(");
            push_str(&mut out, name.as_str());
            match fallback {
                None => {},
                Some(f) => match f.to_css() {
                    Some(ft) => {
                        push_str(&mut out, ", ");
                        push_str(&mut out, ft.as_str());
                    },
                    None => {
                        return Err(
                            CompileError::InvalidFallback {
                                class: copy_text(class),
                                var: copy_text(var),
                            },
                        );
                    },
                },
            }
            push_str(&mut out, ")");
            proof {
                reveal_strlit("var(");
                reveal_strlit(", ");
                reveal_strlit(")");
                match fallback {
                    None => {
                        assert(out@ =~= "var("@ + name@ + ")"@);
                    },
                    Some(f) => {
                        let ft = direct_css(**f)->Some_0;
                        assert(out@ =~= "var("@ + name@ + ", "@ + ft + ")"@);
                    },
                }
            }
            Ok(out)
        },
        _ => match v.to_css() {
            Some(t) => Ok(t),
            None => Err(CompileError::CallbackLimit),
        },
    }
}

/// Follows a callback, and any callbacks that it returns, to a value of another kind.
fn run_callback(cb: &FnSxValue, theme: &Theme, budget: usize) -> (r: Result<SxValue, CompileError>)
    ensures
        r matches Ok(v) ==> !(v is Callback),
{
    let mut v = cb.apply(theme);
    let mut left: usize = budget;
    loop
        invariant
            left <= budget,
        decreases left,
    {
        match v {
            SxValue::Callback(next) => {
                if left == 0 {
                    return Err(CompileError::CallbackLimit);
                }
                v = next.apply(theme);
                left = left - 1;
            },
            other => {
                return Ok(other);
            },
        }
    }
}

fn write_rule(query: &str, decls: &str, rules: &str) -> (r: String)
    ensures
        r@ == rule_text(query@, decls@, rules@),
{
    let mut out = String::new();
    if decls.unicode_len() > 0 {
        push_str(&mut out, query);
        push_str(&mut out, " {");
        push_str(&mut out, decls);
        push_str(&mut out, "}");
    }
    push_str(&mut out, rules);
    proof {
        reveal_strlit(" {");
        reveal_strlit("}");
        assert(out@ =~= rule_text(query@, decls@, rules@));
    }
    out
}

fn write_declaration(key: &str, value: &str) -> (r: String)
    ensures
        r@ == declaration_text(property_name(key@), value@),
{
    let mut out = to_property(key);
    let ghost name = out@;
    push_str(&mut out, ": ");
    push_str(&mut out, value);
    push_str(&mut out, ";");
    proof {
        reveal_strlit(": ");
        reveal_strlit(";");
        assert(out@ =~= declaration_text(name, value@));
    }
    out
}

/// The rule of a nested document under the key `key`, pushed on the selector stack.
fn nested_rule(
    t: &Sx,
    key: String,
    mode: &ThemeMode,
    theme: &Theme,
    tu: &TranslationUnit,
    stack: &mut Vec<String>,
    budget: usize,
) -> (r: Result<String, CompileError>)
    requires
        *mode != ThemeMode::System,
        forall|q: Seq<char>| #[trigger] tu.translation(q) == translate_key(theme.breakpoint_list(), q),
    ensures
        final(stack)@ == old(stack)@,
        r is Ok ==> entries_resolve(*theme, *mode, *t),
        level(*theme, *mode, *t, t@.len() as int, texts(old(stack)@).push(key@)) is Some ==> match r {
            Ok(txt) => match level(*theme, *mode, *t, t@.len() as int, texts(old(stack)@).push(key@)) {
                Some(Ok(inner)) => txt@ == rule_text(
                    join_selectors(texts(old(stack)@).push(key@)),
                    inner.0,
                    inner.1,
                ),
                _ => false,
            },
            Err(e) => level(*theme, *mode, *t, t@.len() as int, texts(old(stack)@).push(key@))
                == Some(Err::<(Seq<char>, Seq<char>, Seq<char>), CompileError>(e)),
        },
    decreases budget, *t, 1nat,
{
    let ghost st0 = stack@;
    let ghost k = key@;
    stack.push(key);
    proof {
        assert(texts(stack@) =~= texts(st0).push(k));
    }
    let query = join_stack(stack);
    let sub = compile_level(t, mode, theme, tu, stack, budget);
    let _ = stack.pop();
    proof {
        assert(stack@ =~= st0);
    }
    match sub {
        Err(e) => Err(e),
        Ok(parts) => Ok(write_rule(query.as_str(), parts.0.as_str(), parts.1.as_str())),
    }
}

/// Compiles the entries of `s` in order under the selector stack: their declarations,
/// their nested rules, and both in declaration order.
fn compile_level(
    s: &Sx,
    mode: &ThemeMode,
    theme: &Theme,
    tu: &TranslationUnit,
    stack: &mut Vec<String>,
    budget: usize,
) -> (r: Result<(String, String, String), CompileError>)
    requires
        *mode != ThemeMode::System,
        forall|q: Seq<char>| #[trigger] tu.translation(q) == translate_key(theme.breakpoint_list(), q),
    ensures
        final(stack)@ == old(stack)@,
        r is Ok ==> entries_resolve(*theme, *mode, *s),
        level(*theme, *mode, *s, s@.len() as int, texts(old(stack)@)) is Some ==> level(
            *theme,
            *mode,
            *s,
            s@.len() as int,
            texts(old(stack)@),
        ) == Some(parts_result(r)),
    decreases budget, *s, 0nat,
{
    let ghost st = texts(stack@);
    let ghost st0 = stack@;
    let mut decls = String::new();
    let mut rules = String::new();
    let mut all = String::new();
    let n = s.len();
    let mut i: usize = 0;
    while i < n
        invariant
            stack@ == st0,
            st0 == old(stack)@,
            st == texts(st0),
            n == s@.len(),
            i <= n,
            *mode != ThemeMode::System,
            forall|q: Seq<char>| #[trigger] tu.translation(q) == translate_key(theme.breakpoint_list(), q),
            forall|j: int|
                0 <= j < i ==> match #[trigger] s@[j].1 {
                    SxValue::Callback(_) => true,
                    SxValue::Nested(t) => entries_resolve(*theme, *mode, t),
                    v => value_text(*theme, *mode, v) is Ok,
                },
            level(*theme, *mode, *s, i as int, st) is Some ==> level(*theme, *mode, *s, i as int, st)
                == Some(Ok::<(Seq<char>, Seq<char>, Seq<char>), CompileError>((decls@, rules@, all@))),
        decreases n - i,
    {
        let entry = s.entry(i);
        let key = tu.translate(entry.0.as_str());
        proof {
            assert(key@ == translate_key(theme.breakpoint_list(), s@[i as int].0@));
        }
        match &entry.1 {
            SxValue::Nested(t) => {
                proof {
                    lemma_entry_decreases(*s, i as int);
                }
                let ghost k = key@;
                match nested_rule(t, key, mode, theme, tu, stack, budget) {
                    Err(e) => {
                        proof {
                            lemma_level_settled(*theme, *mode, *s, i + 1, n as int, st);
                        }
                        return Err(e);
                    },
                    Ok(txt) => {
                        push_str(&mut rules, txt.as_str());
                        push_str(&mut all, txt.as_str());
                    },
                }
            },
            SxValue::Callback(cb) => {
                proof {
                    assert(!(level(*theme, *mode, *s, i + 1, st) matches Some(Ok(_))));
                    lemma_level_settled(*theme, *mode, *s, i + 1, n as int, st);
                }
                match run_callback(cb, theme, budget) {
                    Err(e) => {
                        return Err(e);
                    },
                    Ok(v) => match v {
                        SxValue::Nested(t) => {
                            if budget == 0 {
                                return Err(CompileError::CallbackLimit);
                            }
                            match nested_rule(&t, key, mode, theme, tu, stack, budget - 1) {
                                Err(e) => {
                                    return Err(e);
                                },
                                Ok(txt) => {
                                    push_str(&mut rules, txt.as_str());
                                    push_str(&mut all, txt.as_str());
                                },
                            }
                        },
                        other => match resolve_value(&other, mode, theme) {
                            Err(e) => {
                                return Err(e);
                            },
                            Ok(text) => {
                                let d = write_declaration(key.as_str(), text.as_str());
                                push_str(&mut decls, d.as_str());
                                push_str(&mut all, d.as_str());
                            },
                        },
                    },
                }
            },
            other => match resolve_value(other, mode, theme) {
                Err(e) => {
                    proof {
                        lemma_level_settled(*theme, *mode, *s, i + 1, n as int, st);
                    }
                    return Err(e);
                },
                Ok(text) => {
                    let d = write_declaration(key.as_str(), text.as_str());
                    push_str(&mut decls, d.as_str());
                    push_str(&mut all, d.as_str());
                },
            },
        }
        i = i + 1;
    }
    proof {
        assert(entries_resolve(*theme, *mode, *s));
    }
    Ok((decls, rules, all))
}

/// The text of an optional base selector.
pub open spec fn opt_text(base: Option<&str>) -> Option<Seq<char>> {
    match base {
        Some(b) => Some(b@),
        None => None,
    }
}

/// Compiles a document into stylesheet text under a theme and a concrete mode, scoped
/// to `base` when given. The result is exactly `stylesheet` wherever that is decided:
/// always for a document without callbacks, and otherwise whenever a failure comes
/// before the first callback. The first theme token, custom property or callback that
/// cannot be resolved fails the whole pass.
pub fn sx_to_css(sx: Sx, mode: &ThemeMode, theme: &Theme, base: Option<&str>) -> (r: Result<
    String,
    CompileError,
>)
    requires
        *mode != ThemeMode::System,
    ensures
        stylesheet(*theme, *mode, sx, opt_text(base)) is Some ==> stylesheet(
            *theme,
            *mode,
            sx,
            opt_text(base),
        ) == Some(text_result(r)),
        callback_free(sx) ==> stylesheet(*theme, *mode, sx, opt_text(base)) is Some,
        r is Ok ==> entries_resolve(*theme, *mode, sx),
{
    let tu = TranslationUnit::new(theme.breakpoints());
    proof {
        assert forall|q: Seq<char>| #[trigger] tu.translation(q) == translate_key(theme.breakpoint_list(), q) by {
            assert(crate::system_props::alias_of(q) == match crate::assoc::lookup(
                tu.props_spec().mapping_list(),
                q,
            ) {
                Some(v) => Some(v@),
                None => None,
            });
        }
    }
    proof {
        if callback_free(sx) {
            match base {
                Some(b) => lemma_callback_free_decided(*theme, *mode, sx, sx@.len() as int, seq![b@]),
                None => lemma_callback_free_decided(*theme, *mode, sx, sx@.len() as int, Seq::empty()),
            }
        }
    }
    let mut stack: Vec<String> = Vec::new();
    match base {
        None => {
            proof {
                assert(texts(stack@) =~= Seq::<Seq<char>>::empty());
            }
            match compile_level(&sx, mode, theme, &tu, &mut stack, CALLBACK_BUDGET) {
                Ok(parts) => Ok(parts.2),
                Err(e) => Err(e),
            }
        },
        Some(b) => {
            stack.push(b.to_owned());
            proof {
                assert(texts(stack@) =~= seq![b@]);
            }
            match compile_level(&sx, mode, theme, &tu, &mut stack, CALLBACK_BUDGET) {
                Ok(parts) => Ok(write_rule(b, parts.0.as_str(), parts.1.as_str())),
                Err(e) => Err(e),
            }
        },
    }
}

/// A theme token of a mode-based selector resolves under the dark mode to the dark
/// color, and under the light mode to the light one.
pub proof fn lemma_token_by_mode(
    theme: Theme,
    palette: String,
    selector: String,
    p: Palette,
    dark: Color,
    light: Color,
)
    requires
        theme.palette_spec(palette@) == Some(p),
        lookup(p@, selector@) == Some(ColorByMode::ModeBased { dark, light }),
    ensures
        value_text(theme, ThemeMode::Dark, SxValue::ThemeToken { palette, selector }) == Ok::<
            Seq<char>,
            CompileError,
        >(dark.css_text()),
        value_text(theme, ThemeMode::Light, SxValue::ThemeToken { palette, selector }) == Ok::<
            Seq<char>,
            CompileError,
        >(light.css_text()),
{
}

/// A theme token whose palette or selector the theme lacks fails the compile pass: no
/// stylesheet text comes out, whatever callbacks return, since a successful pass
/// resolves every entry (`entries_resolve`). When nothing before it fails or reaches a
/// callback, the error names the missing palette, or the palette and the missing
/// selector.
pub proof fn lemma_unresolved_token_fails(
    theme: Theme,
    mode: ThemeMode,
    s: Sx,
    base: Option<Seq<char>>,
    i: int,
)
    requires
        0 <= i < s@.len(),
        match s@[i].1 {
            SxValue::ThemeToken { palette, selector } => match theme.palette_spec(palette@) {
                None => true,
                Some(p) => p.select_spec(selector@, mode) is None,
            },
            _ => false,
        },
    ensures
        !(stylesheet(theme, mode, s, base) matches Some(Ok(_))),
        !entries_resolve(theme, mode, s),
        ({
            let st = match base {
                Some(b) => seq![b],
                None => Seq::empty(),
            };
            level(theme, mode, s, i, st) matches Some(Ok(_)) ==> stylesheet(theme, mode, s, base)
                == Some(
                match s@[i].1 {
                    SxValue::ThemeToken { palette, selector } => match theme.palette_spec(palette@) {
                        None => Err::<Seq<char>, CompileError>(CompileError::UnknownPalette { palette }),
                        Some(_) => Err(CompileError::UnknownSelector { palette, selector }),
                    },
                    _ => Err(CompileError::CallbackLimit),
                },
            )
        }),
{
    let st = match base {
        Some(b) => seq![b],
        None => Seq::<Seq<char>>::empty(),
    };
    assert(!(level(theme, mode, s, i + 1, st) matches Some(Ok(_))));
    lemma_level_settled(theme, mode, s, i + 1, s@.len() as int, st);
}

/// An entry that does not resolve inside a nested document makes the enclosing
/// document not resolve either, at any depth.
pub proof fn lemma_nested_unresolved(theme: Theme, mode: ThemeMode, s: Sx, i: int)
    requires
        0 <= i < s@.len(),
        s@[i].1 matches SxValue::Nested(t) && !entries_resolve(theme, mode, t),
    ensures
        !entries_resolve(theme, mode, s),
{
}

/// Compiling `{"div": {"--color": "common.black"}}` under the base selector `#root`
/// gives exactly one rule, `#root div`, with one declaration: the custom property
/// `--color`, kept as it is, set to the color the theme selects for `common.black`.
/// (`div` and `--color` must not be breakpoint names of the theme, which would turn
/// them into media queries.)
pub proof fn lemma_nested_custom_property(
    theme: Theme,
    mode: ThemeMode,
    s: Sx,
    t: Sx,
    c: Color,
)
    requires
        s@.len() == 1,
        s@[0].0@ == "div"@,
        s@[0].1 == SxValue::Nested(t),
        t@.len() == 1,
        t@[0].0@ == "--color"@,
        t@[0].1 matches SxValue::ThemeToken { palette, selector } && palette@ == "common"@
            && selector@ == "black"@,
        theme.palette_spec("common"@) matches Some(p) && p.select_spec("black"@, mode) == Some(c),
        lookup(theme.breakpoint_list(), "div"@) is None,
        lookup(theme.breakpoint_list(), "--color"@) is None,
    ensures
        stylesheet(theme, mode, s, Some("#root"@)) == Some(
            Ok::<Seq<char>, CompileError>("#root div {--color: "@ + c.css_text() + ";}"@),
        ),
{
    reveal_strlit("div");
    reveal_strlit("--color");
    reveal_strlit("#root");
    reveal_strlit("p");
    reveal_strlit("pl");
    reveal_strlit("pr");
    reveal_strlit("pt");
    reveal_strlit("pd");
    reveal_strlit("bgcolor");
    reveal_strlit("bg");
    reveal_strlit(" {");
    reveal_strlit("}");
    reveal_strlit(": ");
    reveal_strlit(";");
    reveal_strlit(" ");
    reveal_strlit("#root div {--color: ");
    reveal_strlit(";}");
    assert("--color"@[0] != "bgcolor"@[0]);
    assert(translate_key(theme.breakpoint_list(), "div"@) == "div"@);
    assert(translate_key(theme.breakpoint_list(), "--color"@) == "--color"@);
    assert(property_name("--color"@) == "--color"@);
    let st = seq!["#root"@];
    let st2 = st.push("div"@);
    assert(st2.drop_last() == st);
    reveal_strlit("#root div");
    assert(st.drop_last() =~= Seq::<Seq<char>>::empty());
    assert(st.last() == "#root"@);
    assert("#root"@[0] == '#');
    assert(join_selectors(Seq::<Seq<char>>::empty()) == Seq::<char>::empty());
    assert(join_selectors(st.drop_last()).len() == 0);
    assert(join_selectors(st) == "#root"@);
    assert(st2.last() == "div"@);
    assert("div"@[0] == 'd');
    assert(join_selectors(st2) =~= "#root div"@);
    let d = declaration_text("--color"@, c.css_text());
    assert(level(theme, mode, t, 0, st2) == Some(
        Ok::<(Seq<char>, Seq<char>, Seq<char>), CompileError>((Seq::empty(), Seq::empty(), Seq::empty())),
    ));
    assert(level(theme, mode, t, 1, st2) == Some(
        Ok::<(Seq<char>, Seq<char>, Seq<char>), CompileError>((Seq::<char>::empty() + d, Seq::empty(), Seq::<char>::empty() + d)),
    ));
    let txt = rule_text("#root div"@, Seq::<char>::empty() + d, Seq::empty());
    assert(level(theme, mode, s, 0, st) == Some(
        Ok::<(Seq<char>, Seq<char>, Seq<char>), CompileError>((Seq::empty(), Seq::empty(), Seq::empty())),
    ));
    assert(level(theme, mode, s, 1, st) == Some(
        Ok::<(Seq<char>, Seq<char>, Seq<char>), CompileError>((Seq::empty(), Seq::<char>::empty() + txt, Seq::<char>::empty() + txt)),
    ));
    assert(rule_text("#root"@, Seq::empty(), Seq::<char>::empty() + txt) =~= "#root div {--color: "@
        + c.css_text() + ";}"@);
}

impl Sx {
    /// Compiles this document without a base selector; see `sx_to_css`.
    pub fn to_css(self, mode: &ThemeMode, theme: &Theme) -> (r: Result<String, CompileError>)
        requires
            *mode != ThemeMode::System,
        ensures
            stylesheet(*theme, *mode, self, None) is Some ==> stylesheet(*theme, *mode, self, None)
                == Some(text_result(r)),
            r is Ok ==> entries_resolve(*theme, *mode, self),
    {
        sx_to_css(self, mode, theme, None)
    }
}

} // verus!

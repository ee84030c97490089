use happiness::sx::{FnSxValue, Sx, SxValue};
use happiness::theme::Theme;

fn doc(entries: Vec<(&str, SxValue)>) -> Sx {
    let mut sx = Sx::new();
    for (k, v) in entries {
        sx.insert(k, v);
    }
    sx
}

#[test]
fn create_sx_with_macro() {
    let sx = doc(vec![
        ("width", SxValue::from_text("123.5%")),
        ("p", SxValue::from_text("background.body")),
    ]);
    assert!(
        *sx.get("p").unwrap()
            == SxValue::ThemeToken {
                palette: "background".to_string(),
                selector: "body".to_string()
            }
    )
}

#[test]
fn from_text_trims_token_parts() {
    assert!(
        SxValue::from_text(" text . primary ")
            == SxValue::ThemeToken { palette: "text".to_string(), selector: "primary".to_string() }
    );
    assert!(SxValue::from_text("a.b.c") == SxValue::CssLiteral("a.b.c".to_string()));
    assert!(SxValue::from_text(" .x") == SxValue::CssLiteral(" .x".to_string()));
    assert!(SxValue::from_text("15px") == SxValue::CssLiteral("15px".to_string()));
}

#[test]
fn insert_replaces_in_place() {
    let mut sx = doc(vec![("a", SxValue::Integer(1)), ("b", SxValue::Integer(2))]);
    sx.insert("a", SxValue::Integer(3));
    assert_eq!(sx.properties(), vec!["a".to_string(), "b".to_string()]);
    assert!(*sx.get("a").unwrap() == SxValue::Integer(3));
    assert!(sx.get("c").is_none());
}

#[test]
fn merge_deep_merges_nested_documents() {
    let a = doc(vec![("k", SxValue::Nested(doc(vec![("x", SxValue::Integer(1))])))]);
    let b = doc(vec![("k", SxValue::Nested(doc(vec![("y", SxValue::Integer(2))])))]);
    let m = a.merge(b);
    assert_eq!(m.properties(), vec!["k".to_string()]);
    match m.get("k").unwrap() {
        SxValue::Nested(inner) => {
            assert_eq!(inner.properties(), vec!["x".to_string(), "y".to_string()]);
            assert!(*inner.get("x").unwrap() == SxValue::Integer(1));
            assert!(*inner.get("y").unwrap() == SxValue::Integer(2));
        }
        _ => panic!("expected a nested document"),
    }
}

#[test]
fn merge_keeps_left_terminal_over_nested() {
    let a = doc(vec![("k", SxValue::Integer(1)), ("z", SxValue::Nested(doc(vec![])))]);
    let b = doc(vec![
        ("k", SxValue::Nested(doc(vec![("y", SxValue::Integer(2))]))),
        ("z", SxValue::Integer(5)),
        ("w", SxValue::Integer(7)),
    ]);
    let m = a.merge(b);
    assert_eq!(m.properties(), vec!["k".to_string(), "z".to_string(), "w".to_string()]);
    assert!(*m.get("k").unwrap() == SxValue::Integer(1));
    assert!(matches!(m.get("z").unwrap(), SxValue::Nested(d) if d.len() == 0));
    assert!(*m.get("w").unwrap() == SxValue::Integer(7));
}

#[test]
fn value_text_without_theme() {
    assert_eq!(SxValue::Integer(-12).to_css().unwrap(), "-12");
    assert_eq!(SxValue::Dimension { value: 15, unit: "px".to_string() }.to_css().unwrap(), "15px");
    assert_eq!(SxValue::String("a b".to_string()).to_css().unwrap(), "\"a b\"");
    assert!(SxValue::ThemeToken { palette: "a".to_string(), selector: "b".to_string() }.to_css().is_none());
    let cb = FnSxValue::new(|_t: &Theme| SxValue::Integer(1));
    assert!(SxValue::Callback(cb).to_css().is_none());
}

#[test]
fn callbacks_compare_by_identifier() {
    let a = FnSxValue::new(|_t: &Theme| SxValue::Integer(1));
    let b = FnSxValue::new(|_t: &Theme| SxValue::Integer(1));
    assert!(a == a);
    assert_eq!(a == b, a.id() == b.id());
    let theme = Theme::default();
    assert!(a.apply(&theme) == SxValue::Integer(1));
}

#[test]
fn from_text_trims_unicode_white_space() {
    assert!(
        SxValue::from_text("\u{a0}text\u{b}.\u{2003}primary\u{3000}")
            == SxValue::ThemeToken { palette: "text".to_string(), selector: "primary".to_string() }
    );
}

use happiness::color::Color;
use happiness::compile::{sx_to_css, to_property, CompileError};
use happiness::palette::{Palette, ThemeMode};
use happiness::sx::{FnSxValue, Sx, SxValue};
use happiness::system_props::{CssPropertyTranslator, SystemProperties, TranslationUnit};
use happiness::theme::Theme;

fn doc(entries: Vec<(&str, SxValue)>) -> Sx {
    let mut sx = Sx::new();
    for (k, v) in entries {
        sx.insert(k, v);
    }
    sx
}

#[test]
fn to_css() {
    let theme = Theme::default();
    let sx = doc(vec![
        ("padding", SxValue::from_text("15px")),
        ("color", SxValue::from_text("background.body")),
    ]);
    let style = sx_to_css(sx, &ThemeMode::Dark, &theme, None).unwrap();
    println!("style: {style:#?}");
    assert_eq!(style, "padding: 15px;color: #0F0F0F;");
}

#[test]
fn sx_to_css_test() {
    let sx = doc(vec![("--test-var", SxValue::from_text("#0f0f0f"))]);
    let theme = &Theme::default();
    let mode = &ThemeMode::Dark;
    let css = sx_to_css(sx, mode, theme, Some(".happiness-8asd")).expect("could not create css");
    println!("css: {:?}", css);
    assert_eq!(css, ".happiness-8asd {--test-var: #0f0f0f;}");
}

#[test]
fn sx_to_nested_css_test() {
    let sx = doc(vec![(
        "div",
        SxValue::Nested(doc(vec![
            ("--color", SxValue::from_text("common.black")),
            (
                "&[style=distributed]",
                SxValue::Nested(doc(vec![("font-family", SxValue::from_text("monospace"))])),
            ),
        ])),
    )]);
    let theme = &Theme::default();
    let mode = &ThemeMode::Dark;
    let css = sx_to_css(sx, mode, theme, Some("#root")).expect("could not create css");
    println!("Css: {:#?}", css);
    assert_eq!(
        css,
        "#root div {--color: #000000;}#root div[style=distributed] {font-family: monospace;}"
    );
}

#[test]
fn format_properties() {
    assert_eq!(to_property("backgroundColor"), "background-color");
    assert_eq!(to_property("background-Color"), "background-color");
    assert_eq!(to_property("--backgroundColor"), "--backgroundColor");
    assert_eq!(to_property("--background-color"), "--background-color");
}

#[test]
fn verbatim_property_keys() {
    assert_eq!(to_property("[data-x]"), "[data-x]");
    assert_eq!(to_property(">imgTag"), ">imgTag");
    assert_eq!(to_property("fontSize.big"), "font-size.big");
}

#[test]
fn one_rule_for_a_nested_custom_property() {
    let sx = doc(vec![("div", SxValue::Nested(doc(vec![("--color", SxValue::from_text("common.black"))])))]);
    let css = sx_to_css(sx, &ThemeMode::Light, &Theme::default(), Some("#root")).unwrap();
    assert_eq!(css, "#root div {--color: #000000;}");
    assert_eq!(css.matches('{').count(), 1);
}

#[test]
fn ampersand_compounds_without_space() {
    let sx = doc(vec![(
        "button",
        SxValue::Nested(doc(vec![(
            "&[disabled]",
            SxValue::Nested(doc(vec![("opacity", SxValue::CssLiteral("0.5".to_string()))])),
        )])),
    )]);
    let css = sx_to_css(sx, &ThemeMode::Dark, &Theme::default(), Some(".comp")).unwrap();
    assert_eq!(css, ".comp button[disabled] {opacity: 0.5;}");
}

#[test]
fn combinators_and_descendants() {
    let sx = doc(vec![
        ("color", SxValue::CssLiteral("red".to_string())),
        (">img", SxValue::Nested(doc(vec![("width", SxValue::Integer(3))]))),
        ("span", SxValue::Nested(doc(vec![("margin", SxValue::Integer(0))]))),
    ]);
    let css = sx_to_css(sx, &ThemeMode::Dark, &Theme::default(), Some(".a")).unwrap();
    assert_eq!(css, ".a {color: red;}.a>img {width: 3;}.a span {margin: 0;}");
}

#[test]
fn theme_token_follows_mode() {
    let theme = Theme::default();
    let dark = sx_to_css(doc(vec![("c", SxValue::from_text("background.body"))]), &ThemeMode::Dark, &theme, None).unwrap();
    let light = sx_to_css(doc(vec![("c", SxValue::from_text("background.body"))]), &ThemeMode::Light, &theme, None).unwrap();
    assert_eq!(dark, "c: #0F0F0F;");
    assert_eq!(light, "c: #FFFFFF;");
}

#[test]
fn unknown_palette_fails() {
    let sx = doc(vec![("color", SxValue::from_text("nowhere.body"))]);
    match sx_to_css(sx, &ThemeMode::Dark, &Theme::default(), Some(".x")) {
        Err(CompileError::UnknownPalette { palette }) => assert_eq!(palette, "nowhere"),
        _ => panic!("expected an unknown palette"),
    }
}

#[test]
fn unknown_selector_fails() {
    let sx = doc(vec![("a", SxValue::Nested(doc(vec![("color", SxValue::from_text("common.grey"))])))]);
    match sx_to_css(sx, &ThemeMode::Dark, &Theme::default(), None) {
        Err(CompileError::UnknownSelector { palette, selector }) => {
            assert_eq!(palette, "common");
            assert_eq!(selector, "grey");
        }
        _ => panic!("expected an unknown selector"),
    }
}

#[test]
fn class_var_with_and_without_fallback() {
    let theme = Theme::default();
    let sx = doc(vec![
        ("width", SxValue::var("card", "w", None)),
        ("height", SxValue::var("card", "h", Some(SxValue::Dimension { value: 4, unit: "px".to_string() }))),
    ]);
    let css = sx_to_css(sx, &ThemeMode::Dark, &theme, None).unwrap();
    assert_eq!(css, "width: var(--happy-card-w);height: var(--happy-card-h, 4px);");
}

#[test]
fn class_var_fallback_must_be_direct() {
    let sx = doc(vec![("width", SxValue::var("card", "w", Some(SxValue::from_text("common.black"))))]);
    match sx_to_css(sx, &ThemeMode::Dark, &Theme::default(), None) {
        Err(CompileError::InvalidFallback { class, var }) => {
            assert_eq!(class, "card");
            assert_eq!(var, "w");
        }
        _ => panic!("expected an invalid fallback"),
    }
}

#[test]
fn callbacks_resolve_against_the_theme() {
    let sx = doc(vec![
        ("z", SxValue::Callback(FnSxValue::new(|t: &Theme| SxValue::CssLiteral(t.prefix.clone())))),
        (
            "div",
            SxValue::Callback(FnSxValue::new(|_t: &Theme| {
                let mut d = Sx::new();
                d.insert("margin", SxValue::Integer(2));
                SxValue::Nested(d)
            })),
        ),
    ]);
    let css = sx_to_css(sx, &ThemeMode::Dark, &Theme::default(), None).unwrap();
    assert_eq!(css, "z: happy;div {margin: 2;}");
}

fn endless(_t: &Theme) -> SxValue {
    SxValue::Callback(FnSxValue::new(endless))
}

#[test]
fn endless_callbacks_fail() {
    let sx = doc(vec![("z", SxValue::Callback(FnSxValue::new(endless)))]);
    assert!(matches!(
        sx_to_css(sx, &ThemeMode::Dark, &Theme::default(), None),
        Err(CompileError::CallbackLimit)
    ));
}

#[test]
fn aliases_and_breakpoints_translate() {
    let sx = doc(vec![
        ("bgcolor", SxValue::CssLiteral("red".to_string())),
        ("md", SxValue::Nested(doc(vec![("p", SxValue::Integer(1))]))),
    ]);
    let css = sx_to_css(sx, &ThemeMode::Dark, &Theme::default(), Some(".b")).unwrap();
    assert_eq!(css, ".b {background-color: red;}.b @media (min-width: 900px) {padding: 1;}");
    let props = SystemProperties::new();
    assert_eq!(props.translate("pl"), "paddingLeft");
    assert_eq!(props.translate("md"), "md");
    let theme = Theme::default();
    let unit = TranslationUnit::new(theme.breakpoints());
    assert_eq!(unit.translate("xl"), "@media (min-width: 1536px)");
    assert_eq!(unit.translate("pt"), "paddingTop");
    assert_eq!(unit.translate("color"), "color");
}

#[test]
fn custom_theme_and_palette_lookup() {
    let mut theme = Theme::with_prefix("x");
    let mut p = Palette::new();
    p.insert_by_mode("fg", Color::named("white"), Color::named("black"));
    theme.insert_palette("brand", p);
    let sx = doc(vec![("color", SxValue::from_text("brand.fg"))]);
    assert_eq!(sx_to_css(sx, &ThemeMode::Light, &theme, None).unwrap(), "color: black;");
    assert_eq!(theme.palette_var("brand", "fg"), "--x-palette-brand-fg");
    assert_eq!(theme.class_var("card", "w"), "--x-card-w");
}

#[test]
fn empty_document_compiles_to_nothing() {
    let theme = Theme::default();
    assert_eq!(sx_to_css(Sx::new(), &ThemeMode::Dark, &theme, None).unwrap(), "");
    assert_eq!(sx_to_css(Sx::new(), &ThemeMode::Dark, &theme, Some(".a")).unwrap(), "");
    let only_rules = doc(vec![("p", SxValue::Nested(Sx::new()))]);
    assert_eq!(only_rules.to_css(&ThemeMode::Dark, &theme).unwrap(), "");
}

#[test]
fn failure_before_a_callback_is_reported() {
    let sx = doc(vec![
        ("color", SxValue::from_text("nowhere.body")),
        ("z", SxValue::Callback(FnSxValue::new(|_t: &Theme| SxValue::Integer(1)))),
    ]);
    match sx_to_css(sx, &ThemeMode::Dark, &Theme::default(), None) {
        Err(CompileError::UnknownPalette { palette }) => assert_eq!(palette, "nowhere"),
        _ => panic!("expected an unknown palette"),
    }
}

#[test]
fn failure_after_a_callback_is_reported() {
    let sx = doc(vec![
        ("z", SxValue::Callback(FnSxValue::new(|_t: &Theme| SxValue::Integer(1)))),
        ("a", SxValue::Nested(doc(vec![("color", SxValue::from_text("common.grey"))]))),
    ]);
    assert!(matches!(
        sx_to_css(sx, &ThemeMode::Dark, &Theme::default(), None),
        Err(CompileError::UnknownSelector { .. })
    ));
}

use happiness::color::Color;
use happiness::gradient::{Gradient, GradientError, GradientMode};
use happiness::loader::{
    from_theme_description, gradient_palette, GradientDescription, LoadError, PaletteDescription,
    SelectorDescription, ThemeDescription,
};
use happiness::palette::{Palette, ThemeMode};
use happiness::theme::Theme;

#[test]
fn palette_insert_and_select() {
    let mut p = Palette::new();
    p.insert_constant("a", Color::named("red"));
    p.insert_by_mode("b", Color::named("white"), Color::named("black"));
    p.insert_constant("a", Color::named("blue"));
    assert_eq!(p.selectors(), vec!["a".to_string(), "b".to_string()]);
    assert_eq!(p.get("a", &ThemeMode::Dark), Some(&Color::named("blue")));
    assert_eq!(p.get("b", &ThemeMode::Dark), Some(&Color::named("white")));
    assert_eq!(p.get("b", &ThemeMode::Light), Some(&Color::named("black")));
    assert_eq!(p.get("c", &ThemeMode::Light), None);
}

#[test]
fn theme_palettes_by_name() {
    let mut theme = Theme::new();
    assert_eq!(theme.prefix, "happy");
    assert!(theme.get_palette("p").is_none());
    assert!(theme.palette_mut("p").is_none());
    theme.palette("p").insert_constant("x", Color::named("red"));
    theme.palette_mut("p").unwrap().insert_constant("y", Color::named("green"));
    let p = theme.get_palette("p").unwrap();
    assert_eq!(p.selectors(), vec!["x".to_string(), "y".to_string()]);
    assert_eq!(theme.palettes().len(), 1);
    assert_eq!(theme.breakpoints().len(), 5);
}

#[test]
fn default_theme_dark_half_of_body() {
    let theme = Theme::default();
    let body = theme.get_palette("background").unwrap();
    assert_eq!(body.get("body", &ThemeMode::Dark), Some(&Color::OpaqueHex(0x0F0F0F)));
    assert_ne!(body.get("body", &ThemeMode::Dark), body.get("body", &ThemeMode::Light));
}

fn two_point(mode: GradientMode) -> Gradient {
    Gradient::new(vec![(0, Color::OpaqueHex(0x000000)), (1000, Color::OpaqueHex(0xFFFFFF))], mode).unwrap()
}

#[test]
fn gradient_samples_linearly() {
    let g = two_point(GradientMode::Rgb);
    assert_eq!(g.get(0).unwrap(), Color::Rgba { r: 0, g: 0, b: 0, a: 255 });
    assert_eq!(g.get(500).unwrap(), Color::Rgba { r: 128, g: 128, b: 128, a: 255 });
    assert_eq!(g.get(1000).unwrap(), Color::Rgba { r: 255, g: 255, b: 255, a: 255 });
    let h = Gradient::new(
        vec![(0, Color::Hsl { h: 0, s: 100, l: 50 }), (1000, Color::Hsl { h: 240, s: 100, l: 50 })],
        GradientMode::Raw,
    )
    .unwrap();
    assert_eq!(h.get(500).unwrap(), Color::Hsla { h: 120, s: 100, l: 50, a: 255 });
}

#[test]
fn gradient_palette_has_eleven_steps() {
    let p = gradient_palette(&two_point(GradientMode::Rgb)).unwrap();
    let names: Vec<String> = (0..=10).map(|k| format!("{:03}", k * 10)).collect();
    assert_eq!(p.selectors(), names);
    for k in 0..=10u32 {
        let expected = ((255 * k * 100) * 2 + 1000) / 2000;
        let c = p.get(&format!("{:03}", k * 10), &ThemeMode::Dark).unwrap();
        let v = expected as u8;
        assert_eq!(c, &Color::Rgba { r: v, g: v, b: v, a: 255 });
    }
}

#[test]
fn gradient_rejects_bad_points() {
    assert!(matches!(Gradient::new(vec![], GradientMode::Rgb), Err(GradientError::Empty)));
    assert!(matches!(
        Gradient::new(vec![(1001, Color::named("red"))], GradientMode::Rgb),
        Err(GradientError::OutOfRange)
    ));
    assert!(matches!(
        Gradient::new(vec![(500, Color::named("red")), (500, Color::named("red"))], GradientMode::Rgb),
        Err(GradientError::Unordered)
    ));
}

fn description() -> ThemeDescription {
    ThemeDescription {
        prefix: Some("t".to_string()),
        palettes: vec![
            (
                "neutral".to_string(),
                PaletteDescription {
                    gradient: Some(GradientDescription {
                        points: vec![(0, "#000000".to_string()), (1000, "#ffffff".to_string())],
                        mode: GradientMode::Rgb,
                    }),
                    selectors: Some(vec![("050".to_string(), SelectorDescription::Constant("red".to_string()))]),
                },
            ),
            (
                "text".to_string(),
                PaletteDescription {
                    gradient: None,
                    selectors: Some(vec![
                        ("primary".to_string(), SelectorDescription::Constant("neutral.100".to_string())),
                        (
                            "secondary".to_string(),
                            SelectorDescription::DarkLight { dark: "#FFFFFF".to_string(), light: "black".to_string() },
                        ),
                    ]),
                },
            ),
        ],
    }
}

#[test]
fn load_theme_description() {
    let theme = from_theme_description(&description()).ok().unwrap();
    assert_eq!(theme.prefix, "t");
    let neutral = theme.get_palette("neutral").unwrap();
    assert_eq!(neutral.selectors().len(), 11);
    assert_eq!(neutral.get("050", &ThemeMode::Dark), Some(&Color::named("red")));
    assert_eq!(neutral.get("010", &ThemeMode::Dark), Some(&Color::Rgba { r: 26, g: 26, b: 26, a: 255 }));
    let text = theme.get_palette("text").unwrap();
    assert_eq!(
        text.get("primary", &ThemeMode::Dark),
        Some(&Color::Var { var: "--t-palette-neutral-100".to_string(), fallback: None })
    );
    assert_eq!(text.get("secondary", &ThemeMode::Dark), Some(&Color::OpaqueHex(0xFFFFFF)));
    assert_eq!(text.get("secondary", &ThemeMode::Light), Some(&Color::named("black")));
}

#[test]
fn load_reports_bad_color_text() {
    let mut d = description();
    d.palettes[1].1.selectors = Some(vec![("x".to_string(), SelectorDescription::Constant("#12".to_string()))]);
    match from_theme_description(&d) {
        Err(LoadError::Color(e)) => assert_eq!(e.fragment, "#12"),
        _ => panic!("expected a color error"),
    }
}

#[test]
fn load_reports_gradient_problems() {
    let mut d = description();
    d.palettes[0].1.gradient = Some(GradientDescription { points: vec![], mode: GradientMode::Rgb });
    match from_theme_description(&d) {
        Err(LoadError::Gradient { palette, error }) => {
            assert_eq!(palette, "neutral");
            assert_eq!(error, GradientError::Empty);
        }
        _ => panic!("expected a gradient error"),
    }
    let mut d = description();
    d.palettes[0].1.gradient = Some(GradientDescription {
        points: vec![(0, "red".to_string()), (1000, "blue".to_string())],
        mode: GradientMode::Hsl,
    });
    match from_theme_description(&d) {
        Err(LoadError::Conversion { palette, .. }) => assert_eq!(palette, "neutral"),
        _ => panic!("expected a conversion error"),
    }
}

#[test]
fn load_converts_every_gradient_point() {
    let mut d = description();
    d.palettes[0].1.gradient = Some(GradientDescription {
        points: vec![
            (0, "#000000".to_string()),
            (10, "#111111".to_string()),
            (20, "common.black".to_string()),
            (30, "#222222".to_string()),
            (1000, "#ffffff".to_string()),
        ],
        mode: GradientMode::Hsl,
    });
    match from_theme_description(&d) {
        Err(LoadError::Conversion { palette, .. }) => assert_eq!(palette, "neutral"),
        _ => panic!("expected a conversion error"),
    }
    let g = Gradient::new(
        vec![(0, Color::OpaqueHex(0)), (500, Color::named("red")), (1000, Color::OpaqueHex(0xffffff))],
        GradientMode::Rgb,
    )
    .unwrap();
    assert!(g.check_conversions().is_err());
    assert!(two_point(GradientMode::Hsl).check_conversions().is_ok());
}

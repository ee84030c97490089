use happiness::baseline::baseline;
use happiness::compile::sx_to_css;
use happiness::layout::{AlignItems, Direction, JustifyContent};
use happiness::logging::{AppArgs, LevelFilter, Logging};
use happiness::palette::ThemeMode;
use happiness::style::{Color, Size, Variant};
use happiness::theme::Theme;
use happiness::typography::{LevelScale, TypographyLevel, TypographyScale};

#[test]
fn baseline_compiles_with_palette_variables() {
    let theme = Theme::default();
    let sx = baseline(&theme, &ThemeMode::Dark);
    let keys = sx.properties();
    assert_eq!(keys[0], "html");
    assert!(keys.contains(&":root".to_string()));
    assert!(keys.contains(&".happy-system".to_string()));
    assert!(keys.contains(&"body".to_string()));
    let css = sx_to_css(sx, &ThemeMode::Dark, &theme, None).unwrap();
    assert!(css.starts_with("html {--happy-palette-common-black: rgba(0, 0, 0, 255);"));
    assert!(css.contains("--happy-palette-background-body: rgba(15, 15, 15, 255);"));
    assert!(css.contains(":root {color: #F5F5F5;background-color: #1A1A1A;}"));
    assert!(css.contains(".happy-system [color=success] [variant=outlined] {border-width: 3px;"));
    assert!(css.ends_with("body {background-color: #0F0F0F;margin: 0px;}"));
}

#[test]
fn style_names() {
    assert_eq!(Variant::from_name("outlined"), Some(Variant::Outlined));
    assert_eq!(Variant::Soft.name(), "soft");
    assert_eq!(Variant::default(), Variant::Plain);
    assert_eq!(Variant::from_name("Outlined"), None);
    assert_eq!(Color::from_name("fatal"), Some(Color::Fatal));
    assert_eq!(Color::default(), Color::Neutral);
    assert_eq!(Size::from_name("xl"), Some(Size::Xl));
}

#[test]
fn layout_names() {
    assert_eq!(Direction::default(), Direction::Row);
    assert_eq!(Direction::RowReverse.name(), "RowReverse");
    assert_eq!(AlignItems::default().name(), "FlexStart");
    assert_eq!(JustifyContent::from_name("SpaceEvenly"), Some(JustifyContent::SpaceEvenly));
}

#[test]
fn verbosity_picks_level() {
    let at = |v, q| Logging { level: None, v, q }.level_filter();
    assert_eq!(at(0, 0), LevelFilter::Info);
    assert_eq!(at(1, 0), LevelFilter::Debug);
    assert_eq!(at(2, 0), LevelFilter::Trace);
    assert_eq!(at(0, 1), LevelFilter::Warn);
    assert_eq!(at(0, 2), LevelFilter::Fatal);
    assert_eq!(at(0, 3), LevelFilter::Off);
    let explicit = Logging { level: Some(LevelFilter::Warn), v: 2, q: 0 };
    assert_eq!(explicit.level_filter(), LevelFilter::Warn);
    let args = AppArgs { logging: Logging { level: None, v: 1, q: 0 }, static_content: None };
    assert_eq!(args.level_filter(), LevelFilter::Debug);
}

#[test]
fn level_names_parse() {
    assert_eq!(LevelFilter::parse("debug").unwrap(), LevelFilter::Debug);
    assert_eq!(LevelFilter::parse("loud").unwrap_err().unknown, "loud");
}

#[test]
fn typography_levels() {
    assert_eq!(TypographyLevel::from_text("h3"), Some(TypographyLevel::H3));
    assert_eq!(TypographyLevel::from_text("title-md"), Some(TypographyLevel::Title { size: Size::Md }));
    assert_eq!(TypographyLevel::from_text("body-xs"), Some(TypographyLevel::Body { size: Size::Xs }));
    assert_eq!(TypographyLevel::from_text("caption"), Some(TypographyLevel::Custom("caption".to_string())));
    assert_eq!(TypographyLevel::from_text("body-huge"), None);
    assert_eq!(TypographyLevel::Title { size: Size::Lg }.as_text(), "title-lg");
    assert_eq!(TypographyLevel::Custom("x".to_string()).as_text(), "x");
}

#[test]
fn typography_scale_keeps_one_entry_per_level() {
    let scale = TypographyScale::new(vec![
        (TypographyLevel::H1, LevelScale {}),
        (TypographyLevel::Body { size: Size::Sm }, LevelScale {}),
        (TypographyLevel::H1, LevelScale {}),
    ]);
    assert_eq!(scale.levels.len(), 2);
    assert_eq!(scale.levels[0].0, TypographyLevel::H1);
}

#[test]
fn explicit_level_wins_over_any_counts() {
    let explicit = Logging { level: Some(LevelFilter::Fatal), v: 9, q: 9 };
    assert_eq!(explicit.level_filter(), LevelFilter::Fatal);
    assert_eq!(Logging { level: None, v: 7, q: 0 }.level_filter(), LevelFilter::Trace);
    assert_eq!(Logging { level: None, v: 0, q: 7 }.level_filter(), LevelFilter::Off);
}

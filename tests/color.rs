use happiness::color::{hsl_to_rgb, parse_color, rgb_to_hsl, Color, ConversionError};

#[test]
fn parse_hex_color() {
    let hex = "#0f125f";
    let parsed = parse_color(hex).unwrap();
    println!("{}", parsed.to_css());
    assert_eq!(parsed.to_css(), "#0F125F");
}

#[test]
fn parse_hex_alpha_color() {
    let hex = "#01f1257f";
    let parsed = parse_color(hex).unwrap();
    println!("{}", parsed.to_css());
    assert_eq!(parsed.to_css(), "#01F1257F");
}

#[test]
fn hsl_to_rgb_correctness() {
    let (h, s, l) = (126, 46, 63);
    let [r, g, b] = hsl_to_rgb(h, s, l);
    assert_eq!(r, 117);
    assert_eq!(g, 204);
    assert_eq!(b, 126);
}

#[test]
fn hex_round_trip_normalises_case() {
    for text in ["#abcdef", "#ABCDEF", "#00ff7F", "#0a0B0c0D", "#ffffffff", "#000000"] {
        let c = parse_color(text).unwrap();
        assert_eq!(c.to_css(), text.to_uppercase().replace("#", "#"));
    }
}

#[test]
fn parse_rejects_other_lengths_and_digits() {
    for text in ["#12345", "#1234567", "#123456789", "123456", "#12345g", "", "#"] {
        let e = parse_color(text).unwrap_err();
        assert_eq!(e.fragment, text);
    }
}

#[test]
fn canonical_text_of_each_variant() {
    assert_eq!(Color::named("rebeccapurple").to_css(), "rebeccapurple");
    assert_eq!(Color::hex_code(0x11223344).to_css(), "#11223344");
    assert_eq!(Color::Rgb { r: 1, g: 2, b: 3 }.to_css(), "rgb(1, 2, 3)");
    assert_eq!(Color::Rgba { r: 1, g: 2, b: 3, a: 4 }.to_css(), "rgba(1, 2, 3, 4)");
    assert_eq!(Color::Hsl { h: 126, s: 46, l: 63 }.to_css(), "hsl(126, 46, 63)");
    assert_eq!(Color::Hsla { h: 1, s: 2, l: 3, a: 4 }.to_css(), "hsla(1, 2, 3, 4)");
    let var = Color::Var {
        var: "--x".to_string(),
        fallback: Some(Box::new(Color::OpaqueHex(0x0000ff))),
    };
    assert_eq!(var.to_css(), "var(--x, #0000FF)");
    assert_eq!(Color::Literal("inherit".to_string()).to_css(), "inherit");
}

#[test]
fn hsl_and_rgb_channels() {
    let c = Color::Hsl { h: 126, s: 46, l: 63 }.to_rgba().unwrap();
    assert_eq!((c.r, c.g, c.b, c.a), (117, 204, 126, 255));
    let h = Color::OpaqueHex(0xff0000).to_hsla().unwrap();
    assert_eq!((h.h, h.s, h.l, h.a), (0, 100, 50, 255));
    assert_eq!(rgb_to_hsl(0, 0, 255), (240, 100, 50));
    assert_eq!(rgb_to_hsl(128, 128, 128), (0, 0, 50));
    let hex = Color::hex_code(0x10203040).to_rgba().unwrap();
    assert_eq!((hex.r, hex.g, hex.b, hex.a), (0x10, 0x20, 0x30, 0x40));
}

#[test]
fn conversion_needs_channels() {
    assert!(matches!(Color::named("red").to_rgba(), Err(ConversionError::NoChannels)));
    let var = Color::Var { var: "--x".to_string(), fallback: None };
    assert!(matches!(var.to_hsla(), Err(ConversionError::NoChannels)));
}

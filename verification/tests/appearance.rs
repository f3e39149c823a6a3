use shell::appearance::{accents, rounding_of, Accents};
use shell::appearance::reloads_theme;
use shell::appearance::{ColorError, Rgba};
use shell::layer::Margin;

#[test]
fn argb_channels() {
    assert_eq!(Rgba::from_argb(0xff11_2233), Rgba { r: 0x11, g: 0x22, b: 0x33, a: 0xff });
    assert_eq!(Rgba::from_argb(4279308561), Rgba { r: 0x11, g: 0x11, b: 0x11, a: 0xff });
}

#[test]
fn gradient_stop_colors() {
    assert_eq!(Rgba::parse_hex_argb("ff7fbbb3"), Ok(Rgba { r: 0x7f, g: 0xbb, b: 0xb3, a: 0xff }));
    assert_eq!(Rgba::parse_hex_argb("aa595959"), Ok(Rgba { r: 0x59, g: 0x59, b: 0x59, a: 0xaa }));
    assert_eq!(Rgba::parse_hex_argb("0x595959"), Ok(Rgba { r: 0x59, g: 0x59, b: 0x59, a: 0xff }));
    assert_eq!(Rgba::parse_hex_argb("0x0xAABBCC"), Ok(Rgba { r: 0xaa, g: 0xbb, b: 0xcc, a: 0xff }));
    assert_eq!(Rgba::parse_hex_argb("45deg"), Err(ColorError::Bad("45deg".to_owned())));
    assert_eq!(Rgba::parse_hex_argb("fff"), Err(ColorError::Length("fff".to_owned())));
    assert_eq!(Rgba::parse_hex_argb(""), Err(ColorError::Bad(String::new())));
}

#[test]
fn same_margin_everywhere() {
    assert_eq!(Margin::same(8), Margin { top: 8, right: 8, bottom: 8, left: 8 });
}

use shell::appearance::{color_of_int, parse_css, parse_gradient, pixels_of, CssError};

#[test]
fn css_shorthand_is_split() {
    assert_eq!(parse_css("4 8 4 8"), Ok(vec![4, 8, 4, 8]));
    assert_eq!(parse_css("  -3\t+7 "), Ok(vec![-3, 7]));
    assert_eq!(parse_css(""), Ok(vec![]));
    assert_eq!(parse_css("4 px 8"), Err(CssError("px".to_owned())));
    assert_eq!(parse_css("99999999999999999999"), Err(CssError("99999999999999999999".to_owned())));
}

#[test]
fn gradient_stops_drop_the_angle() {
    assert_eq!(
        parse_gradient("ff7fbbb3 aa595959 45deg"),
        Ok(vec![
            Rgba { r: 0x7f, g: 0xbb, b: 0xb3, a: 0xff },
            Rgba { r: 0x59, g: 0x59, b: 0x59, a: 0xaa },
        ])
    );
    assert_eq!(parse_gradient("ff7fbbb3 zz"), Err(ColorError::Bad("zz".to_owned())));
    assert_eq!(parse_gradient("fff 45deg"), Err(ColorError::Length("fff".to_owned())));
}

#[test]
fn int_options_as_colors_and_pixels() {
    assert_eq!(color_of_int(4279308561), Some(Rgba { r: 0x11, g: 0x11, b: 0x11, a: 0xff }));
    assert_eq!(color_of_int(-1), None);
    assert_eq!(color_of_int(1 << 32), None);
    assert_eq!(pixels_of(12), 12);
    assert_eq!(pixels_of(-5), 0);
    assert_eq!(pixels_of(1 << 40), u32::MAX);
}

#[test]
fn config_reload_reloads_the_theme() {
    assert!(reloads_theme("configreloaded"));
    assert!(!reloads_theme("configreload"));
    assert!(!reloads_theme("workspace"));
}

#[test]
fn border_gradients_give_the_accents() {
    let a = Rgba { r: 0x7f, g: 0xbb, b: 0xb3, a: 0xff };
    let b = Rgba { r: 0x59, g: 0x59, b: 0x59, a: 0xaa };
    let opaque_b = Rgba { a: 0xff, ..b };
    assert_eq!(
        accents(&vec![a], &vec![b]),
        Accents { accent: Some(a), accent_alt: Some(a), inactive: Some(opaque_b) }
    );
    assert_eq!(
        accents(&vec![b, a], &vec![]),
        Accents { accent: Some(opaque_b), accent_alt: Some(a), inactive: None }
    );
    assert_eq!(accents(&vec![], &vec![]), Accents { accent: None, accent_alt: None, inactive: None });
    assert_eq!(rounding_of(12), 12);
    assert_eq!(rounding_of(300), 255);
}

#[test]
fn colors_take_no_sign() {
    assert_eq!(Rgba::parse_hex_argb("+7fbbb3"), Err(ColorError::Bad("+7fbbb3".to_owned())));
    assert_eq!(Rgba::parse_hex_argb("0x+7fbbb3"), Err(ColorError::Bad("0x+7fbbb3".to_owned())));
    assert_eq!(parse_gradient("ff7fbbb3 +a595959"), Err(ColorError::Bad("+a595959".to_owned())));
}

#[test]
fn integers_and_hex_digits_at_their_limits() {
    assert_eq!(parse_css("-9223372036854775808 9223372036854775807"), Ok(vec![i64::MIN, i64::MAX]));
    assert_eq!(parse_css("-9223372036854775809"), Err(CssError("-9223372036854775809".to_owned())));
    assert_eq!(parse_css("9223372036854775808"), Err(CssError("9223372036854775808".to_owned())));
    assert_eq!(parse_css("+ -0 007"), Err(CssError("+".to_owned())));
    assert_eq!(parse_css("-0 007 +5"), Ok(vec![0, 7, 5]));
    assert_eq!(parse_css("- 1"), Err(CssError("-".to_owned())));
    assert_eq!(parse_css("1x"), Err(CssError("1x".to_owned())));
    assert_eq!(Rgba::parse_hex_argb("FFffFFff"), Ok(Rgba { r: 0xff, g: 0xff, b: 0xff, a: 0xff }));
    assert_eq!(Rgba::parse_hex_argb("1ffffffff"), Err(ColorError::Bad("1ffffffff".to_owned())));
    assert_eq!(Rgba::parse_hex_argb("0000000ff"), Err(ColorError::Length("0000000ff".to_owned())));
    assert_eq!(Rgba::parse_hex_argb("0x"), Err(ColorError::Bad("0x".to_owned())));
}

use shell::appearance::{ColorError, CssError, Rgba};
use shell::option::{parse_option, ReplyError, ReplyValue, StopsError};

#[test]
fn parses_observed_reply_shapes() {
    let int = parse_option(r#"{"option": "decoration:rounding", "int": 12, "set": true }"#).unwrap();
    assert_eq!(int, ReplyValue::Int(12));

    let reply = r#"{"option": "decoration:active_opacity", "float": 0.900000, "set": true }"#;
    let float = parse_option(reply).unwrap();
    assert_eq!(float, ReplyValue::Float);
    let number: serde_json::Value = serde_json::from_str(reply).unwrap();
    assert_eq!(number["float"].as_f64(), Some(0.9));

    let css = parse_option(r#"{"option": "general:gaps_out", "css": "4 8 4 8", "set": true }"#).unwrap();
    assert_eq!(css.as_css_first(), Some(4));

    let gradient = parse_option(
        r#"{"option": "general:col.active_border", "gradient": "ff7fbbb3 aa595959 45deg", "set": true }"#,
    )
    .unwrap();
    assert_eq!(
        gradient.as_gradient().unwrap(),
        &[Rgba { r: 0x7f, g: 0xbb, b: 0xb3, a: 0xff }, Rgba { r: 0x59, g: 0x59, b: 0x59, a: 0xaa }]
    );

    let color =
        parse_option(r#"{"option": "misc:background_color", "int": 4279308561, "set": false }"#).unwrap();
    assert_eq!(color.as_color(), Some(Rgba { r: 0x11, g: 0x11, b: 0x11, a: 0xff }));
}

#[test]
fn rejects_unknown_shapes() {
    assert!(parse_option(r#"{"option": "x", "set": false }"#).is_err());
    assert!(parse_option("no such option").is_err());
}

#[test]
fn reply_errors_say_what_is_wrong() {
    assert_eq!(parse_option(r#"{"option": "x", "set": false }"#), Err(ReplyError::Unrecognized));
    assert_eq!(parse_option("no such option"), Err(ReplyError::NotJson));
    assert_eq!(parse_option("[1, 2]"), Err(ReplyError::NotObject));
    assert_eq!(parse_option(r#"{"int": 1.5}"#), Err(ReplyError::BadInt));
    assert_eq!(parse_option(r#"{"float": "x"}"#), Err(ReplyError::BadFloat));
    assert_eq!(parse_option(r#"{"str": 3}"#), Err(ReplyError::BadStr));
    assert_eq!(parse_option(r#"{"css": 3}"#), Err(ReplyError::BadCss));
    assert_eq!(parse_option(r#"{"css": "4 x"}"#), Err(ReplyError::Css(CssError("x".to_owned()))));
    assert_eq!(parse_option(r#"{"gradient": null}"#), Err(ReplyError::BadGradient));
    assert_eq!(
        parse_option(r#"{"gradient": "fff"}"#),
        Err(ReplyError::Gradient(ColorError::Length("fff".to_owned())))
    );
}

#[test]
fn the_first_value_key_decides() {
    assert_eq!(parse_option(r#"{"str": "a", "int": 2}"#), Ok(ReplyValue::Int(2)));
    assert_eq!(parse_option(r#"{"css": "1", "float": 2}"#), Ok(ReplyValue::Float));
    assert_eq!(parse_option(r#"{"gradient": "ff000000", "str": "on"}"#), Ok(ReplyValue::Str("on".to_owned())));
    assert_eq!(parse_option(r#"{"css": "", "gradient": "ff000000"}"#), Ok(ReplyValue::Css(vec![])));
    assert_eq!(ReplyValue::Css(vec![]).as_css_first(), None);
    assert_eq!(ReplyValue::Int(-1).as_color(), None);
}

#[test]
fn border_stops_need_a_gradient_with_a_stop() {
    let red = Rgba { r: 0xff, g: 0, b: 0, a: 0xff };
    assert_eq!(ReplyValue::Gradient(vec![red]).border_stops(), Ok(vec![red]));
    assert_eq!(ReplyValue::Gradient(vec![]).border_stops(), Err(StopsError::NoStops));
    assert_eq!(ReplyValue::Int(3).border_stops(), Err(StopsError::NotGradient));
}

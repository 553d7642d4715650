use part_registry::color::parse;

#[test]
fn parses_hex_3_6_8() {
    let c = parse("#000", false).unwrap();
    assert_eq!(c.svg, "#000");
    assert_eq!(c.rgb, Some([0, 0, 0]));
    let c = parse("#ffffff", false).unwrap();
    assert_eq!(c.rgb, Some([255, 255, 255]));
    let c = parse("#ff0000aa", false).unwrap();
    assert_eq!(c.rgb, Some([255, 0, 0]));
}

#[test]
fn parses_rgb_function() {
    let c = parse("rgb(255, 128, 0)", false).unwrap();
    assert_eq!(c.svg, "rgb(255,128,0)");
    assert_eq!(c.rgb, Some([255, 128, 0]));
}

#[test]
fn rejects_rgb_overflow() {
    assert!(parse("rgb(256,0,0)", false).is_err());
}

#[test]
fn parses_lowercase_name() {
    let c = parse("orange", false).unwrap();
    assert_eq!(c.svg, "orange");
    assert!(c.rgb.is_none());
}

#[test]
fn none_only_for_bg() {
    assert!(parse("none", false).is_err());
    let c = parse("none", true).unwrap();
    assert!(c.is_none());
}

#[test]
fn rejects_unknown_format() {
    for bad in ["", "#xyz", "rgb(1,2)", "rgb(1,2,3,4)", "BLACK", "MyColor"] {
        assert!(parse(bad, false).is_err(), "should reject {bad:?}");
    }
}

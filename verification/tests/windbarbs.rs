use grib_viewer::windbarbs::{
    arrow_template_key, fill_arrow_template, replace_chars, ArrowType, SpeedClass,
};

#[test]
fn default_arrow_type() {
    assert_eq!(ArrowType::default(), ArrowType::PivotTip);
}

#[test]
fn template_names() {
    assert_eq!(arrow_template_key(&ArrowType::PivotCenter, SpeedClass::Max), "arrow-pivot-center");
    assert_eq!(arrow_template_key(&ArrowType::PivotTip, SpeedClass::Calm), "arrow-pivot-tip");
    assert_eq!(arrow_template_key(&ArrowType::WindBarb, SpeedClass::Calm), "knot0");
    assert_eq!(arrow_template_key(&ArrowType::WindBarb, SpeedClass::Light), "knot2");
    assert_eq!(arrow_template_key(&ArrowType::WindBarb, SpeedClass::Max), "knot190");
    assert_eq!(arrow_template_key(&ArrowType::WindBarb, SpeedClass::Rounded(35)), "knot35");
    assert_eq!(arrow_template_key(&ArrowType::WindBarb, SpeedClass::Rounded(185)), "knot185");
    assert_eq!(arrow_template_key(&ArrowType::WindBarb, SpeedClass::Rounded(0)), "knot0");
    assert_eq!(arrow_template_key(&ArrowType::WindBarb, SpeedClass::Rounded(7)), "knot0");
    assert_eq!(arrow_template_key(&ArrowType::WindBarb, SpeedClass::Rounded(-5)), "knot0");
    assert_eq!(arrow_template_key(&ArrowType::WindBarb, SpeedClass::Rounded(195)), "knot0");
}

#[test]
fn template_filled_like_replace() {
    let template = "<path transform=\"translate({TRANSLATE}) rotate({ROTATE}) scale({SCALE})\"/><path transform=\"translate({TRANSLATE}) rotate({ROTATE}) scale({SCALE})\"/>";
    let expected = template
        .replace("{TRANSLATE}", "1.00 -2.50")
        .replace("{ROTATE}", "90.00")
        .replace("{SCALE}", "0.5000");
    assert_eq!(fill_arrow_template(template, "1.00 -2.50", "90.00", "0.5000"), expected);
    assert_eq!(fill_arrow_template("", "a", "b", "c"), "");
}

#[test]
fn replace_agrees_with_std() {
    let cases = [
        ("aaaa", "aa", "b"),
        ("abcabc", "abc", ""),
        ("xyz", "q", "w"),
        ("{A}{A}}", "{A}", "{A}{A}"),
        ("aaa", "aa", "aa"),
        ("", "a", "b"),
    ];
    for (s, pat, rep) in cases {
        let chars: Vec<char> = s.chars().collect();
        let p: Vec<char> = pat.chars().collect();
        let r: Vec<char> = rep.chars().collect();
        let ours: String = replace_chars(&chars, &p, &r).into_iter().collect();
        assert_eq!(ours, s.replace(pat, rep), "{:?} {:?} {:?}", s, pat, rep);
    }
}

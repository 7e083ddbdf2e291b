use blog::slug::slug_from_stem;
use regex::Regex;

#[test]
fn test_re() {
    assert_eq!(slug_from_stem("2024-10-10_dameleon"), "dameleon");
}

#[test]
fn slug_strips_date_prefix() {
    assert_eq!(slug_from_stem("2024-10-10_dameleon"), "dameleon");
    assert_eq!(slug_from_stem("1-2-3_x"), "x");
    assert_eq!(slug_from_stem("2024-01-01_my-post"), "my-post");
}

#[test]
fn slug_without_prefix_is_unchanged() {
    assert_eq!(slug_from_stem("plain-name"), "plain-name");
    assert_eq!(slug_from_stem("12-3-4"), "12-3-4");
    assert_eq!(slug_from_stem(""), "");
    assert_eq!(slug_from_stem("profile"), "profile");
}

#[test]
fn slug_incomplete_prefixes_are_unchanged() {
    assert_eq!(slug_from_stem("12-3_x"), "12-3_x");
    assert_eq!(slug_from_stem("-1-2_x"), "-1-2_x");
    assert_eq!(slug_from_stem("1--2_x"), "1--2_x");
    assert_eq!(slug_from_stem("a1-2-3_x"), "a1-2-3_x");
    assert_eq!(slug_from_stem("1-2-3x_y"), "1-2-3x_y");
}

#[test]
fn slug_rest_may_be_empty_or_hold_more_prefixes() {
    assert_eq!(slug_from_stem("2024-10-10_"), "");
    assert_eq!(slug_from_stem("1-2-3_4-5-6_z"), "4-5-6_z");
}

#[test]
fn slug_keeps_non_ascii_text() {
    assert_eq!(slug_from_stem("2019-02-12_エディタ"), "エディタ");
    assert_eq!(slug_from_stem("ünïcode"), "ünïcode");
}

#[test]
fn slug_agrees_with_date_prefix_pattern() {
    let re = Regex::new(r"^(?:\d+-\d+-\d+_)?(.*)$").unwrap();
    let stems = [
        "2024-10-10_dameleon",
        "plain-name",
        "12-3-4",
        "12-3_x",
        "1-2-3_4-5-6_z",
        "2024-10-10_",
        "",
        "a_b",
        "2019-02-12_エディタ",
        "007-08-09_bond",
    ];
    for stem in stems {
        let caps = re.captures(stem).unwrap();
        assert_eq!(slug_from_stem(stem), caps[1].to_string(), "stem {}", stem);
    }
}

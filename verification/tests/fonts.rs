use modbus_client::fonts::{is_extra_font, proportional_family, sorted_names};

fn strings(v: &[&str]) -> Vec<String> {
    v.iter().map(|s| s.to_string()).collect()
}

#[test]
fn extra_fonts_are_other_truetype_and_opentype_files() {
    assert!(is_extra_font("Roboto", "ttf"));
    assert!(is_extra_font("Noto", "otf"));
    assert!(!is_extra_font("Roboto", "TTF"));
    assert!(!is_extra_font("readme", "txt"));
    assert!(!is_extra_font("AlibabaPuHuiTi-3-55-Regular", "ttf"));
    assert!(is_extra_font("NotoEmoji-VariableFont_wght", "ttf"));
}

#[test]
fn names_are_sorted_like_strings() {
    let names = strings(&["b", "a", "B", "ab", "", "a", "é", "z"]);
    let mut expected = names.clone();
    expected.sort();
    assert_eq!(sorted_names(&names), expected);
    assert!(sorted_names(&Vec::new()).is_empty());
}

#[test]
fn proportional_family_order() {
    let r = proportional_family(&strings(&["Ubuntu-Light", "NotoEmoji-Regular", "emoji-icon-font"]),
                                &strings(&["A", "B"]));
    assert_eq!(r, strings(&["AlibabaPuHuiTi", "Ubuntu-Light", "NotoEmoji", "NotoEmoji-Regular",
                            "emoji-icon-font", "A", "B"]));
    let r = proportional_family(&strings(&["x"]), &Vec::new());
    assert_eq!(r, strings(&["AlibabaPuHuiTi", "x", "NotoEmoji"]));
}

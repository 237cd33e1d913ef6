use beamdpr::param::{is_space_char, strip_parameter};

fn strip(s: &str) -> String {
    let chars: Vec<char> = s.chars().collect();
    strip_parameter(&chars).into_iter().collect()
}

fn reference(s: &str) -> String {
    s.trim().trim_start_matches('(').trim_end_matches(')').trim().to_string()
}

#[test]
fn nested_parentheses_are_removed() {
    assert_eq!(strip("(((x)))"), "x");
    assert_eq!(strip(" ((-3.5)) "), "-3.5");
    assert_eq!(strip(" ((-3.5)) ").parse::<f32>().unwrap(), -3.5);
}

#[test]
fn inner_space_shields_parentheses() {
    assert_eq!(strip("( (2) )"), "(2)");
}

#[test]
fn plain_and_empty_values() {
    assert_eq!(strip("12.5"), "12.5");
    assert_eq!(strip(""), "");
    assert_eq!(strip("   "), "");
    assert_eq!(strip("(((("), "");
    assert_eq!(strip("\t(-1e3)\n"), "-1e3");
    assert_eq!(strip("\u{3000}(7)\u{a0}"), "7");
}

#[test]
fn agrees_with_std_trimming() {
    let cases = [
        "(((x)))", " ((-3.5)) ", "( (2) )", "((a", "b))", " ( 4 ) ", "\u{2003}(\u{2028}5\u{85})\u{205f}", "()", ")(", "x(y)z",
    ];
    for c in cases.iter() {
        assert_eq!(strip(c), reference(c), "case {:?}", c);
    }
}

#[test]
fn space_class_matches_char_is_whitespace() {
    for v in 0u32..0x3100 {
        if let Some(c) = char::from_u32(v) {
            assert_eq!(is_space_char(c), c.is_whitespace(), "U+{:04X}", v);
        }
    }
}

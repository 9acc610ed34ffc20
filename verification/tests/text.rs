use mmux::text::{pad_to, push_decimal};

#[test]
fn pad_to_fills() {
    assert_eq!(pad_to("ab", 5), "ab   ");
    assert_eq!(pad_to("", 3), "   ");
}

#[test]
fn pad_to_cuts() {
    assert_eq!(pad_to("abcdef", 3), "abc");
    assert_eq!(pad_to("abc", 3), "abc");
    assert_eq!(pad_to("abc", 0), "");
}

#[test]
fn pad_to_counts_characters() {
    assert_eq!(pad_to("┌é€", 2), "┌é");
    assert_eq!(pad_to("é", 3), "é  ");
}

#[test]
fn push_decimal_appends_digits() {
    let mut text = String::from("n=");
    push_decimal(&mut text, 0);
    push_decimal(&mut text, 1205);
    push_decimal(&mut text, u32::MAX);
    assert_eq!(text, "n=012054294967295");
}

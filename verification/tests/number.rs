use hyperon::number::parse_i64;

#[test]
fn parse_i64_as_std() {
    for text in ["0", "1", "-1", "+1", "42", "-0", "007", "9223372036854775807", "-9223372036854775808",
        "9223372036854775808", "-9223372036854775809", "", "+", "-", "1_0", " 1", "1 ", "0x10", "1i64", "--1", "+-1",
        "99999999999999999999999", "١"] {
        assert_eq!(parse_i64(text), text.parse::<i64>().ok(), "text {:?}", text);
    }
}

#[test]
fn parse_i64_values() {
    assert_eq!(parse_i64("+17"), Some(17));
    assert_eq!(parse_i64("-17"), Some(-17));
    assert_eq!(parse_i64("17"), Some(17));
    assert_eq!(parse_i64("x"), None);
}

use dxclrecorder::text::{
    chars_of, parse_u16_digits, push_signed_zero_padded, push_zero_padded, replace_all_chars,
    string_of,
};

#[test]
fn zero_padding() {
    let mut v = Vec::new();
    push_zero_padded(&mut v, 7, 3);
    push_zero_padded(&mut v, 1234, 2);
    push_zero_padded(&mut v, 0, 1);
    assert_eq!(v.iter().collect::<String>(), "00712340");
}

#[test]
fn signed_zero_padding_as_format() {
    for (n, w) in [(-5i32, 4usize), (42, 4), (-12345, 3), (0, 0), (i32::MIN, 4), (i32::MAX, 12)] {
        let mut v = Vec::new();
        push_signed_zero_padded(&mut v, n, w);
        assert_eq!(v.iter().collect::<String>(), format!("{:0w$}", n, w = w));
    }
}

#[test]
fn parse_digits() {
    let s = chars_of("x00123y65536");
    assert_eq!(parse_u16_digits(&s, 1, 6), Some(123));
    assert_eq!(parse_u16_digits(&s, 0, 6), None);
    assert_eq!(parse_u16_digits(&s, 1, 1), None);
    assert_eq!(parse_u16_digits(&s, 7, 12), None);
    assert_eq!(parse_u16_digits(&s, 7, 11), Some(6553));
}

#[test]
fn replace_placeholder() {
    let out = replace_all_chars(&chars_of("aXXbXXX"), &chars_of("XX"), &chars_of("-"));
    assert_eq!(string_of(&out), "a-b-X");
    assert_eq!(string_of(&out), "aXXbXXX".replace("XX", "-"));
}

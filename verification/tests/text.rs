use stickercord::text::{
    chars_of, digit_of, digit_text, push_decimal, push_signed_decimal, read_digits, read_i64,
    read_u64, split_ranges,
};

fn chars(text: &str) -> Vec<char> {
    text.chars().collect()
}

fn pieces(text: &str, sep: char) -> Vec<String> {
    let all = chars(text);
    split_ranges(&all, 0, all.len(), sep)
        .into_iter()
        .map(|(from, to)| all[from..to].iter().collect())
        .collect()
}

const NUMBERS: [&str; 34] = [
    "", "0", "7", "42", "007", "+", "-", "+5", "-5", "+-5", "-+5", "--5", "++5", "5-", "5+",
    " 5", "5 ", "1 2", "12a", "a12", "٣", "1٣", "18446744073709551615", "18446744073709551616",
    "99999999999999999999", "9223372036854775807", "9223372036854775808",
    "-9223372036854775808", "-9223372036854775809", "+9223372036854775807",
    "+18446744073709551615", "-0", "+0", "000000000000000000000000000001",
];

#[test]
fn chars_of_keeps_every_character() {
    assert_eq!(chars_of(""), Vec::<char>::new());
    assert_eq!(chars_of("a:b\n"), vec!['a', ':', 'b', '\n']);
    assert_eq!(chars_of("é\u{3000}x"), vec!['é', '\u{3000}', 'x']);
}

#[test]
fn digit_of_knows_the_ten_digits() {
    for (value, c) in "0123456789".chars().enumerate() {
        assert_eq!(digit_of(c), Some(value as u8));
        assert_eq!(digit_text(value as u8), c.to_string());
    }
    for c in ['/', ':', 'a', ' ', '-', '+', '٣', '\u{ff11}'] {
        assert_eq!(digit_of(c), None);
    }
}

#[test]
fn read_u64_agrees_with_the_standard_parser() {
    for text in NUMBERS {
        let all = chars(text);
        assert_eq!(read_u64(&all, 0, all.len()), text.parse::<u64>().ok(), "{:?}", text);
    }
}

#[test]
fn read_i64_agrees_with_the_standard_parser() {
    for text in NUMBERS {
        let all = chars(text);
        assert_eq!(read_i64(&all, 0, all.len()), text.parse::<i64>().ok(), "{:?}", text);
    }
}

#[test]
fn read_in_the_middle_of_a_text() {
    let all = chars("ab-12:+34cd");
    assert_eq!(read_i64(&all, 2, 5), Some(-12));
    assert_eq!(read_u64(&all, 6, 9), Some(34));
    assert_eq!(read_u64(&all, 2, 5), None);
    assert_eq!(read_u64(&all, 3, 3), None);
    assert_eq!(read_i64(&all, 0, all.len()), None);
}

#[test]
fn read_digits_stops_at_the_limit() {
    let all = chars("256");
    assert_eq!(read_digits(&all, 0, 3, 256), Some(256));
    assert_eq!(read_digits(&all, 0, 3, 255), None);
    assert_eq!(read_digits(&all, 0, 3, 0), None);
    assert_eq!(read_digits(&all, 0, 1, 2), Some(2));
    assert_eq!(read_digits(&chars("+1"), 0, 2, 9), None);
    assert_eq!(read_digits(&chars("0"), 0, 1, 0), Some(0));
}

#[test]
fn decimal_agrees_with_the_standard_format() {
    for n in [0u64, 1, 9, 10, 11, 99, 100, 12345, 1 << 32, u64::MAX - 1, u64::MAX] {
        let mut out = String::from("n=");
        push_decimal(&mut out, n);
        assert_eq!(out, format!("n={}", n));
    }
    for i in [0i64, 1, -1, 9, -9, 10, -10, 1234567, -1234567, i64::MAX, i64::MIN, i64::MIN + 1] {
        let mut out = String::from("i=");
        push_signed_decimal(&mut out, i);
        assert_eq!(out, format!("i={}", i));
    }
}

#[test]
fn written_numbers_read_back() {
    for n in [0u64, 5, 10, 4096, u64::MAX] {
        let mut out = String::new();
        push_decimal(&mut out, n);
        let all = chars(&out);
        assert_eq!(read_u64(&all, 0, all.len()), Some(n));
    }
    for i in [0i64, -1, 77, i64::MIN, i64::MAX] {
        let mut out = String::new();
        push_signed_decimal(&mut out, i);
        let all = chars(&out);
        assert_eq!(read_i64(&all, 0, all.len()), Some(i));
    }
}

#[test]
fn split_agrees_with_the_standard_split() {
    for text in ["", ":", "a", "a:b", "a:b:c", "::", ":a:", "a::b", "1:2\n3:4", "no colon"] {
        let expected: Vec<String> = text.split(':').map(String::from).collect();
        assert_eq!(pieces(text, ':'), expected, "{:?}", text);
    }
    assert_eq!(pieces("x\ny\n", '\n'), vec!["x", "y", ""]);
}

#[test]
fn split_of_a_part_of_the_text() {
    let all = chars("ab:cd:ef");
    assert_eq!(split_ranges(&all, 1, 7, ':'), vec![(1, 2), (3, 5), (6, 7)]);
    assert_eq!(split_ranges(&all, 2, 3, ':'), vec![(2, 2), (3, 3)]);
    assert_eq!(split_ranges(&all, 4, 4, ':'), vec![(4, 4)]);
}

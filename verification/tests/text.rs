use orthowan::text::{
    chars_of, contains_chars, decimal_chars, is_decimal_digit, is_type_char, is_white_space,
    parse_decimal, rfind_chars, trim_chars, upper_type_name,
};
use regex::Regex;

fn all_chars() -> impl Iterator<Item = char> {
    (0u32..=0x10FFFF).filter_map(char::from_u32)
}

#[test]
fn white_space_is_std_whitespace_and_regex_space() {
    let re = Regex::new(r"^\s$").unwrap();
    for c in all_chars() {
        let mut buf = [0u8; 4];
        let s = c.encode_utf8(&mut buf);
        assert_eq!(is_white_space(c), c.is_whitespace(), "{:?}", c);
        assert_eq!(is_white_space(c), re.is_match(s), "{:?}", c);
    }
}

#[test]
fn decimal_digit_is_regex_digit() {
    let re = Regex::new(r"^\d$").unwrap();
    for c in all_chars() {
        let mut buf = [0u8; 4];
        let s = c.encode_utf8(&mut buf);
        assert_eq!(is_decimal_digit(c), re.is_match(s), "{:?}", c);
    }
}

#[test]
fn type_char_is_caseless_class() {
    let re = Regex::new(r"(?i)^[A-Z0-9_]$").unwrap();
    for c in all_chars() {
        let mut buf = [0u8; 4];
        let s = c.encode_utf8(&mut buf);
        assert_eq!(is_type_char(c), re.is_match(s), "{:?}", c);
    }
}

#[test]
fn type_name_upper_matches_std() {
    let class: Vec<char> = all_chars().filter(|c| is_type_char(*c)).collect();
    assert_eq!(class.len(), 26 * 2 + 10 + 1 + 2);
    let up = upper_type_name(&class);
    let text: String = class.iter().collect();
    assert_eq!(up.iter().collect::<String>(), text.to_uppercase());
}

#[test]
fn trim_matches_std() {
    for s in ["", "  ", " a ", "\u{3000}x y\t\n", "abc", "\u{85}\u{a0}q\u{2028}", " 'A B' "] {
        let v: Vec<char> = s.chars().collect();
        let t: String = trim_chars(&v).iter().collect();
        assert_eq!(t, s.trim());
    }
}

#[test]
fn chars_of_reads_every_character() {
    let s = "#12 = IFCWALL('Wand ä');\u{1F600}";
    let v = chars_of(s);
    assert_eq!(v, s.chars().collect::<Vec<char>>());
}

#[test]
fn contains_and_rfind() {
    let h: Vec<char> = "ab ENDSEC; cd ENDSEC; ef".chars().collect();
    let n: Vec<char> = "ENDSEC;".chars().collect();
    assert!(contains_chars(&h, &n));
    assert_eq!(rfind_chars(&h, &n), Some(14));
    let m: Vec<char> = "ENDSEC;;".chars().collect();
    assert!(!contains_chars(&h, &m));
    assert_eq!(rfind_chars(&h, &m), None);
    assert_eq!(rfind_chars(&h, &[]), Some(h.len()));
}

#[test]
fn decimal_matches_format() {
    for n in [0usize, 7, 10, 99, 100, 12345, usize::MAX] {
        let d: String = decimal_chars(n).iter().collect();
        assert_eq!(d, format!("{}", n));
    }
}

#[test]
fn parse_decimal_matches_std_parse() {
    let cases = [
        "", "+", "-", "0", "+0", "-0", "007", "42", "+42", "4a2", " 4", "4 ", "١٢",
        "18446744073709551615", "18446744073709551616", "99999999999999999999999",
    ];
    for s in cases {
        let v: Vec<char> = s.chars().collect();
        assert_eq!(parse_decimal(&v), s.parse::<usize>().ok(), "{:?}", s);
    }
}

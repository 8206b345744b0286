use rust_scraping::text::{
    bytes_contain, chars_of, join_strings, parse_i32, parse_u32, push_decimal, push_i32, split_by_any,
    string_from_chars,
};

fn chars(s: &str) -> Vec<char> {
    s.chars().collect()
}

#[test]
fn chars_of_keeps_every_character() {
    assert_eq!(chars_of("a\u{e9}\u{1f600}z"), vec!['a', '\u{e9}', '\u{1f600}', 'z']);
    assert_eq!(string_from_chars(&chars("h\u{e9}llo")), "h\u{e9}llo");
}

#[test]
fn split_matches_str_split() {
    let cases = ["a=b&c", "", "=", "a=&b", "uid=12&x", "no-separator", "&&"];
    for case in cases {
        let ours: Vec<String> = split_by_any(&chars(case), &['=', '&']).iter().map(|p| p.iter().collect()).collect();
        let std: Vec<String> = case.split(&['=', '&']).map(String::from).collect();
        assert_eq!(ours, std, "splitting {:?}", case);
    }
}

#[test]
fn parse_u32_matches_std() {
    let cases = ["0", "42", "+7", "007", "4294967295", "4294967296", "-1", "+", "", " 1", "1 ", "12a", "99999999999999999999"];
    for case in cases {
        assert_eq!(parse_u32(&chars(case)), case.parse::<u32>().ok(), "parsing {:?}", case);
    }
}

#[test]
fn parse_i32_matches_std() {
    let cases = ["0", "-0", "95", "+95", "-2147483648", "-2147483649", "2147483647", "2147483648", "-", "+-1", "--1", "1-"];
    for case in cases {
        assert_eq!(parse_i32(&chars(case)), case.parse::<i32>().ok(), "parsing {:?}", case);
    }
}

#[test]
fn decimals_are_written_as_display_writes_them() {
    for n in [0i32, 7, 10, 95, 1234567, i32::MAX, -1, -90, i32::MIN] {
        let mut s = String::from("p");
        push_i32(&mut s, n);
        assert_eq!(s, format!("p{}", n));
        assert_eq!(parse_i32(&chars(&s[1..])), Some(n));
    }
    let mut s = String::new();
    push_decimal(&mut s, u32::MAX);
    assert_eq!(s, "4294967295");
}

#[test]
fn join_matches_std_join() {
    let pieces = vec!["a".to_string(), String::new(), "b c".to_string()];
    assert_eq!(join_strings(&pieces, "\n"), pieces.join("\n"));
    assert_eq!(join_strings(&vec![], "\n"), "");
    assert_eq!(join_strings(&vec!["x".to_string()], ", "), "x");
}

#[test]
fn byte_search_matches_str_contains() {
    let hay = "https://www.literotica.com/stories/showstory.php?id=1";
    assert!(bytes_contain(hay.as_bytes(), b"stories/showstory.php"));
    assert!(!bytes_contain(b"https://www.literotica.com/s/x", b"stories/showstory.php"));
    assert!(bytes_contain(b"abc", b""));
    assert!(!bytes_contain(b"ab", b"abc"));
    assert!(bytes_contain(b"aab", b"ab"));
}

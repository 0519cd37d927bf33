use hamesh::content::Content;
use hamesh::text::{
    join_from, pad_number, parse_i32, parse_isize, parse_u16, parse_u32, split_chars, text_contains,
};

#[test]
fn parse_u16_follows_str_parse() {
    for s in ["0", "80", "+80", "65535", "65536", "", "+", "-", "-0", "8a", " 8", "0065535", "99999999999999999999999"] {
        assert_eq!(parse_u16(s), s.parse::<u16>().ok(), "{s:?}");
    }
}

#[test]
fn parse_u32_follows_str_parse() {
    for s in ["0", "4294967295", "4294967296", "+1", "-1", "1x", ""] {
        assert_eq!(parse_u32(s), s.parse::<u32>().ok(), "{s:?}");
    }
}

#[test]
fn parse_i32_follows_str_parse() {
    for s in ["0", "-0", "+0", "00001", "-2147483648", "-2147483649", "2147483647", "2147483648", "--1", "+-1", "-", "+", "", "１"] {
        assert_eq!(parse_i32(s), s.parse::<i32>().ok(), "{s:?}");
    }
}

#[test]
fn parse_isize_follows_str_parse() {
    let min = isize::MIN.to_string();
    let max = isize::MAX.to_string();
    let over = format!("{}0", max);
    for s in [min.as_str(), max.as_str(), over.as_str(), "-1", "12", "x"] {
        assert_eq!(parse_isize(s), s.parse::<isize>().ok(), "{s:?}");
    }
}

#[test]
fn pad_number_pads_with_zeros() {
    assert_eq!(pad_number(0, 5), "00000");
    assert_eq!(pad_number(42, 5), "00042");
    assert_eq!(pad_number(65535, 5), "65535");
    assert_eq!(pad_number(65535, 3), "65535");
    assert_eq!(pad_number(7, 0), "7");
    for n in [0u16, 1, 9, 10, 99, 100, 12345, 65535] {
        assert_eq!(pad_number(n, 5), format!("{:0>5}", n));
        assert_eq!(parse_i32(&pad_number(n, 5)), Some(n as i32));
    }
}

#[test]
fn split_follows_str_split() {
    for s in ["a b", "", " ", "a  b ", "--inbound 8080:8081/tcp"] {
        let expected: Vec<String> = s.split(' ').map(|p| p.to_string()).collect();
        assert_eq!(split_chars(s, ' '), expected, "{s:?}");
    }
}

#[test]
fn join_from_skips_the_first_arguments() {
    let parts: Vec<String> = vec!["prog".into(), "p2p".into(), "ipv4".into()];
    assert_eq!(join_from(&parts, 1, " "), "p2p ipv4");
    assert_eq!(join_from(&parts, 3, " "), "");
    assert_eq!(join_from(&parts, 0, ", "), "prog, p2p, ipv4");
}

#[test]
fn contains_finds_substrings() {
    assert!(text_contains("hamash p2p --inbound 1:2/tcp", "--inbound"));
    assert!(!text_contains("hamash p2p --outboun", "--outbound"));
    assert!(text_contains("abc", ""));
    assert!(!text_contains("", "a"));
}

#[test]
fn content_is_a_map() {
    let mut c = Content::new();
    assert_eq!(c.get("id"), None);
    c.insert("id".to_string(), "1".to_string());
    c.insert("other".to_string(), "x".to_string());
    c.insert("id".to_string(), "2".to_string());
    assert_eq!(c.get("id"), Some(&"2".to_string()));
    assert!(c.contains_key("other"));
    assert!(!c.contains_key("missing"));
    assert_eq!(c.pairs().len(), 2);
    let copy = c.clone();
    assert_eq!(copy.get("other"), Some(&"x".to_string()));
}

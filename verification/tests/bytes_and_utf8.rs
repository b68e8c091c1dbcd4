use websrv_core::bytes::{
    bytes_eq, count_occurrences, field_after_sep, find_from, has_prefix, last_position,
    parse_usize, remove_spaces, split_piece_at,
};
use websrv_core::utf8::{is_utf8, valid_up_to};

#[test]
fn parse_usize_reads_decimal_numbers() {
    assert_eq!(parse_usize(b"42"), Some(42));
    assert_eq!(parse_usize(b"+7"), Some(7));
    assert_eq!(parse_usize(b"0007"), Some(7));
    assert_eq!(parse_usize(b"0"), Some(0));
}

#[test]
fn parse_usize_rejects_what_str_parse_rejects() {
    assert_eq!(parse_usize(b""), None);
    assert_eq!(parse_usize(b"+"), None);
    assert_eq!(parse_usize(b"-1"), None);
    assert_eq!(parse_usize(b"1a"), None);
    assert_eq!(parse_usize(b"99999999999999999999999999"), None);
    let max = usize::MAX.to_string();
    assert_eq!(parse_usize(max.as_bytes()), Some(usize::MAX));
    for text in ["", "+", "-3", "12", "+12", " 1", "1 ", "18446744073709551616"] {
        assert_eq!(parse_usize(text.as_bytes()), text.parse::<usize>().ok(), "{:?}", text);
    }
}

#[test]
fn find_from_finds_first_occurrence() {
    let s = b"a\r\n\r\nb\r\n\r\n";
    assert_eq!(find_from(s, b"\r\n\r\n", 0), Some(1));
    assert_eq!(find_from(s, b"\r\n\r\n", 2), Some(6));
    assert_eq!(find_from(s, b"xyz", 0), None);
    assert_eq!(find_from(b"ab", b"abc", 0), None);
}

#[test]
fn small_byte_helpers() {
    assert!(has_prefix(b"Content-Length: 3", b"Content-Length"));
    assert!(!has_prefix(b"Content", b"Content-Length"));
    assert!(bytes_eq(b"GET", b"GET"));
    assert!(!bytes_eq(b"GET", b"GETS"));
    assert_eq!(count_occurrences(b"/a/b/c", b'/'), 3);
    assert_eq!(last_position(b"/a/b.c", b'/'), Some(2));
    assert_eq!(last_position(b"abc", b'/'), None);
    assert_eq!(remove_spaces(b" a b "), b"ab".to_vec());
}

#[test]
fn split_pieces_like_str_split() {
    let s = b"/api/mu.rs";
    for k in 0..5usize {
        let expected = std::str::from_utf8(s).unwrap().split('/').nth(k).map(|p| p.as_bytes().to_vec());
        assert_eq!(split_piece_at(s, b'/', k), expected);
    }
    assert_eq!(field_after_sep(b"boundary=abc=def", b'='), Some(b"abc".to_vec()));
    assert_eq!(field_after_sep(b"boundary=abc", b'='), Some(b"abc".to_vec()));
    assert_eq!(field_after_sep(b"boundary", b'='), None);
}

#[test]
fn valid_up_to_matches_std() {
    let cases: Vec<Vec<u8>> = vec![
        b"hello".to_vec(),
        "h\u{e9}llo \u{2614}".as_bytes().to_vec(),
        vec![0x61, 0xff, 0x62],
        vec![0x61, 0xe2, 0x82],
        vec![0xc0, 0x80],
        vec![0xed, 0xa0, 0x80],
        vec![0xf4, 0x90, 0x80, 0x80],
        vec![0xf0, 0x9f, 0x98, 0x80, 0x41],
        vec![],
    ];
    for c in cases {
        let expected = match std::str::from_utf8(&c) {
            Ok(_) => c.len(),
            Err(e) => e.valid_up_to(),
        };
        assert_eq!(valid_up_to(&c), expected, "{:?}", c);
        assert_eq!(is_utf8(&c), std::str::from_utf8(&c).is_ok(), "{:?}", c);
    }
}

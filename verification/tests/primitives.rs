use blivet::path::UnixPath;
use blivet::text::{
    decimal_of, is_whitespace, numeral_of, parse_i32, parse_unsigned, split_tokens, NumberError,
};

#[test]
fn numerals() {
    for n in [0u64, 7, 8, 9, 10, 99, 100, 4294967295, u64::MAX] {
        assert_eq!(numeral_of(n, 10), n.to_string());
        assert_eq!(numeral_of(n, 8), format!("{n:o}"));
    }
    for n in [0i64, -1, 42, i64::MAX, i64::MIN] {
        assert_eq!(decimal_of(n), n.to_string());
    }
}

#[test]
fn numerals_read_back() {
    for n in [0u64, 1, 9, 10, 12345, u64::MAX] {
        assert_eq!(parse_unsigned(&numeral_of(n, 10), 10, u64::MAX), Ok(n));
    }
}

#[test]
fn parsing_agrees_with_the_standard_library() {
    for text in [
        "", "+", "-", "0", "+0", "-0", "007", "12", "+12", "-12", "1 ", " 1", "1_0", "4294967295",
        "4294967296", "99999999999", "9x", "99999999999x", "\u{661}", "2147483647", "2147483648",
        "-2147483648", "-2147483649", "--1", "+-1",
    ] {
        let wanted = text.parse::<u32>();
        match parse_unsigned(text, 10, u32::MAX as u64) {
            Ok(n) => assert_eq!(wanted, Ok(n as u32)),
            Err(e) => assert_eq!(wanted.unwrap_err().to_string(), e.to_text()),
        }
        assert_eq!(parse_i32(text), text.parse::<i32>().ok());
    }
    assert_eq!(parse_unsigned("1", 10, 0), Err(NumberError::TooLarge));
}

#[test]
fn whitespace_agrees_with_the_standard_library() {
    for u in 0..0x11000u32 {
        if let Some(c) = char::from_u32(u) {
            assert_eq!(is_whitespace(c), c.is_whitespace(), "{u:x}");
        }
    }
    for text in ["", " ", "a", " a b\tc\n", "a\u{3000}b \r\n c"] {
        let wanted: Vec<&str> = text.split_whitespace().collect();
        assert_eq!(split_tokens(text), wanted);
    }
}

#[test]
fn parents_agree_with_the_standard_library() {
    for text in [
        "", "/", "//", "/.", "/a", "/a/", "/a/.", "/a//b", "/a/./b", "/a/./b/./", "a", "a/b",
        "a/b/", "./a", ".", "..", "/..", "/../a", "./.", "././a", "a/.", "/a/../b", "//a", "/.a",
        "/a.", "/a/..",
    ] {
        let wanted = std::path::Path::new(text)
            .parent()
            .map(|p| p.to_str().unwrap().to_string());
        assert_eq!(
            UnixPath::new(text).parent().map(|p| p.display()),
            wanted,
            "parent of {text:?}"
        );
        assert_eq!(
            UnixPath::new(text).is_absolute(),
            std::path::Path::new(text).is_absolute()
        );
    }
}

#[test]
fn paths_of_any_bytes() {
    let path = UnixPath::from_bytes(vec![b'/', 0xc3, b'/', 0xa4]);
    assert_eq!(path.parent(), Some(UnixPath::from_bytes(vec![b'/', 0xc3])));
    assert_eq!(path.display(), "/\u{fffd}/\u{fffd}");
    assert_eq!(path.as_bytes(), &[b'/', 0xc3, b'/', 0xa4]);
    assert!(!path.has_nul());
    assert!(UnixPath::new("a\0").has_nul());
    assert_eq!(UnixPath::new("ä").display(), "ä");
}

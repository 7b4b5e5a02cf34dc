use ars::token::{Token, TokenData, TokenExt};

// Testing Token

#[test]
fn test_check_lit() {
    {
        let token = Token::new_lit("test", 0, "test");
        assert_eq!(token.check("test"), Some(3));
    }
    {
        let token = Token::new_lit("test", 0, "test");
        assert_eq!(token.check("test1"), Some(3));
    }
    {
        let token = Token::new_lit("test", 0, "test");
        assert_eq!(token.check("testtest"), Some(3));
    }
    {
        let token = Token::new_lit("test", 0, "test");
        assert_eq!(token.check("1test"), None);
    }
}

#[test]
fn test_check_range() {
    {
        let token = Token::new_range("test", 0, 'a', 'z');
        assert_eq!(token.check("hello world"), Some(4));
    }
    {
        let token = Token::new_range("test", 0, 'a', 'z');
        assert_eq!(token.check("test1"), Some(3));
    }
    {
        let token = Token::new_range("test", 0, 'a', 'z');
        assert_eq!(token.check("testtest"), Some(7));
    }
    {
        let token = Token::new_range("test", 0, 'a', 'z');
        assert_eq!(token.check("1test"), None);
    }
}

#[test]
fn test_check_regex() {
    {
        let token = Token::new_regex_from_str("test", 0, "\\d+").unwrap();
        assert_eq!(token.check("1234"), Some(3));
    }
    {
        let token = Token::new_regex_from_str("test", 0, "[a-z]+").unwrap();
        assert_eq!(token.check("test1"), Some(3));
    }
    {
        let token = Token::new_regex_from_str("test", 0, "[\\w|-]+").unwrap();
        assert_eq!(token.check("test-test"), Some(8));
    }
    {
        let token = Token::new_regex_from_str("test", 0, "2").unwrap();
        assert_eq!(token.check("1test"), None);
    }
}

#[test]
fn test_check_uregex() {
    {
        let token = Token::new_uregex_from_str("test", 0, "🙂+").unwrap();
        assert_eq!(token.check("🙂🙂🙂"), Some(11));
    }
    {
        let token = Token::new_uregex_from_str("test", 0, "\\)+").unwrap();
        assert_eq!(token.check(")))"), Some(2));
    }
    {
        let token = Token::new_uregex_from_str("test", 0, "[\u{1F600}-\u{1F64F}]+").unwrap();
        assert_eq!(token.check("😀😁😂"), Some(11));
    }
    {
        let token = Token::new_uregex_from_str("test", 0, "[\u{1F680}-\u{1F6FF}]+").unwrap();
        assert_eq!(token.check("🚀🚐🚑"), Some(11));
    }
}

// Anchoring: a regex that matches only past the start of the text produces
// no match at all.
#[test]
fn test_regex_anchoring() {
    let token = Token::new_regex_from_str("letters", 0, "[a-z]+").unwrap();
    assert_eq!(token.check("1test"), None);
    let token = Token::new_uregex_from_str("letters", 0, "[a-z]+").unwrap();
    assert_eq!(token.check("1test"), None);
}

// A zero-length match is treated as no match.
#[test]
fn test_check_zero_length_regex_match() {
    let token = Token::new_regex_from_str("stars", 0, "a*").unwrap();
    assert_eq!(token.check("bbb"), None);
}

#[test]
fn test_check_empty_literal() {
    let token = Token::new_lit("empty", 0, "");
    assert_eq!(token.check("abc"), None);
}

#[test]
fn test_check_empty_input() {
    assert_eq!(Token::new_lit("l", 0, "x").check(""), None);
    assert_eq!(Token::new_range("r", 1, 'a', 'z').check(""), None);
    assert_eq!(Token::new_regex_from_str("e", 2, "x?").unwrap().check(""), None);
}

// Range matching counts bytes, so multi-byte characters move the reported
// index by their encoded width.
#[test]
fn test_check_range_multibyte() {
    let token = Token::new_range("greek", 0, 'α', 'ω');
    assert_eq!(token.check("αβ"), Some(3));
    assert_eq!(token.check("αβ x"), Some(3));
    assert_eq!(token.check("x"), None);
}

#[test]
fn test_invalid_regex_rejected() {
    assert!(Token::new_regex_from_str("bad", 0, "(").is_none());
    assert!(Token::new_uregex_from_str("bad", 0, "(").is_none());
}

#[test]
fn test_compiled_regex_constructors() {
    let token = Token::new_regex("digits", 7, regex::Regex::new("\\d+").unwrap());
    assert_eq!(token.check("123a"), Some(2));
    assert_eq!(token.id, 7);
    assert_eq!(token.label, "digits");
    let token = Token::new_uregex("digits", 8, regex::bytes::Regex::new("\\d+").unwrap());
    assert_eq!(token.check("45"), Some(1));
}

#[test]
fn test_token_data_from_str() {
    let td = TokenData::from_str("hello", 4);
    assert_eq!(td.kind, 4);
    assert_eq!(td.value, "hello");
    assert_eq!(td.label, "hello");
    assert_eq!(td.location, (0, 5));
    assert_eq!(td.span, (0, 5));
}

#[test]
fn test_to_token() {
    let td = "abc".to_token(2);
    assert_eq!(td.kind, 2);
    assert_eq!(td.value, "abc");
    let owned = String::from("xy");
    let td = owned.to_token(9);
    assert_eq!(td.kind, 9);
    assert_eq!(td.span, (0, 2));
}

#[test]
fn test_new_lit_from_str() {
    let token = Token::new_lit_from_str("kw", 3, String::from("fn"));
    assert_eq!(token.check("fn main"), Some(1));
    assert_eq!(token.id, 3);
}

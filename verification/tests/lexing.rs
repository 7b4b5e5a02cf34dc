use ars::lexer::{Lexer, LexerExt};
use ars::token::Token;

#[test]
fn test_lexer() {
    let mut lexer = Lexer::new(vec![
        Token::new_regex_from_str("whitespace", 0, "\\s+").unwrap(),
        Token::new_lit("let", 1, "let"),
    ]);
    lexer.begin("let\nlet");
    assert_eq!(lexer.next().unwrap().unwrap().label, "let");
    assert_eq!(lexer.next().unwrap().unwrap().label, "whitespace");
    assert_eq!(lexer.next().unwrap().unwrap().label, "let");
    assert_eq!(lexer.next().unwrap(), None);
}

#[test]
fn test_lexer_error() {
    let mut lexer = Lexer::new(vec![
        Token::new_regex_from_str("whitespace", 0, "\\s+").unwrap(),
        Token::new_lit("let", 1, "let"),
    ]);
    lexer.begin("let\nlet\n");
    assert_eq!(lexer.next().unwrap().unwrap().label, "let");
    assert_eq!(lexer.next().unwrap().unwrap().label, "whitespace");
    assert_eq!(lexer.next().unwrap().unwrap().label, "let");
    assert_eq!(lexer.next().unwrap().unwrap().label, "whitespace");
    assert_eq!(lexer.next().unwrap(), None);
}

#[test]
fn test_variable_example() {
    let mut lexer = Lexer::new(vec![
        Token::new_regex_from_str("whitespace", 0, "\\s+").unwrap(),
        Token::new_regex_from_str("number", 1, "\\d+(\\.\\d+)?").unwrap(),
        Token::new_lit("let", 2, "let"),
        Token::new_regex_from_str("iden", 3, "[a-zA-Z_][a-zA-Z0-9_]*").unwrap(),
        Token::new_lit("equal", 4, "="),
    ]);
    lexer.begin("let x = 10.5");
    assert_eq!(lexer.next().unwrap().unwrap().label, "let");
    assert_eq!(lexer.next().unwrap().unwrap().label, "whitespace");
    assert_eq!(lexer.next().unwrap().unwrap().label, "iden");
    assert_eq!(lexer.next().unwrap().unwrap().label, "whitespace");
    assert_eq!(lexer.next().unwrap().unwrap().label, "equal");
    assert_eq!(lexer.next().unwrap().unwrap().label, "whitespace");
    assert_eq!(lexer.next().unwrap().unwrap().label, "number");
    assert_eq!(lexer.next().unwrap(), None);
}

// First match wins: the literal pattern comes first, so it classifies the
// token even though the regex would match the same length.
#[test]
fn test_first_match_wins() {
    let mut lexer = Lexer::new(vec![
        Token::new_lit("let", 1, "let"),
        Token::new_regex_from_str("word", 2, "[a-z]+").unwrap(),
    ]);
    lexer.begin("let");
    let token = lexer.next().unwrap().unwrap();
    assert_eq!(token.kind, 1);
    assert_eq!(token.label, "let");
    assert_eq!(lexer.next().unwrap(), None);
}

// An unrecognized character fails lexing with the offending character at
// line 1.
#[test]
fn test_lex_error_unrecognized() {
    let mut lexer = Lexer::new(vec![
        Token::new_regex_from_str("whitespace", 0, "\\s+").unwrap(),
        Token::new_lit("let", 1, "let"),
    ]);
    lexer.begin("let @");
    assert_eq!(lexer.next().unwrap().unwrap().label, "let");
    assert_eq!(lexer.next().unwrap().unwrap().label, "whitespace");
    let err = lexer.next().unwrap_err();
    assert_eq!(err.character, '@');
    assert_eq!(err.line, 1);
}

// Tokens tile the input: each token's text is the input slice at its span,
// and the next token starts exactly where the prior one ended.
#[test]
fn test_lexer_spans() {
    let input = "ab  cd";
    let mut lexer = Lexer::new(vec![
        Token::new_regex_from_str("ws", 0, "\\s+").unwrap(),
        Token::new_range("word", 1, 'a', 'z'),
    ]);
    lexer.begin(input);
    let tokens = lexer.all().unwrap();
    assert_eq!(tokens.len(), 3);
    assert_eq!(tokens[0].span, (0, 2));
    assert_eq!(tokens[1].span, (2, 4));
    assert_eq!(tokens[2].span, (4, 6));
    for token in &tokens {
        assert_eq!(token.value, &input[token.span.0..token.span.1]);
    }
}

#[test]
fn test_tokenize_all() {
    let patterns = vec![
        Token::new_regex_from_str("ws", 0, "\\s+").unwrap(),
        Token::new_lit("let", 1, "let"),
    ];
    let tokens = "let let".tokenize_all(&patterns).unwrap();
    assert_eq!(tokens.len(), 3);
    assert_eq!(tokens[0].kind, 1);
    assert_eq!(tokens[1].kind, 0);
    assert_eq!(tokens[2].kind, 1);
    let tokens = String::from("let").tokenize_all(&patterns).unwrap();
    assert_eq!(tokens.len(), 1);
    assert!("@".tokenize_all(&patterns).is_err());
}

#[test]
fn test_lexer_empty_input() {
    let mut lexer = Lexer::new(vec![Token::new_lit("let", 1, "let")]);
    lexer.begin("");
    assert_eq!(lexer.next().unwrap(), None);
    let mut lexer = Lexer::new(vec![Token::new_lit("let", 1, "let")]);
    lexer.begin("");
    assert_eq!(lexer.all().unwrap(), vec![]);
}

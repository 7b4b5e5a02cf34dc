use ars::ast::{Node, Value};
use ars::lexer::Lexer;
use ars::parser::{Parser, ParserState, ParseError};
use ars::token::{Token, TokenData};

fn stream(kinds: &[u32]) -> Vec<TokenData> {
    kinds.iter().map(|k| TokenData::from_str("t", *k)).collect()
}

// A unit that requires one token of a fixed kind.
struct Req(u32);

impl Parser for Req {
    fn parse(&self, state: &mut ParserState) -> Result<Node, ParseError> {
        let token = state.require(vec![self.0])?;
        Ok(Node::new(token.kind, &token.label, Value::String(token.value)))
    }
}

// A unit that consumes two tokens of any kind.
struct TwoEater;

impl Parser for TwoEater {
    fn parse(&self, state: &mut ParserState) -> Result<Node, ParseError> {
        state.eat();
        state.eat();
        Ok(Node::new(0, "two", Value::Nothing))
    }
}

// requireKind law: a token of an expected kind is returned and the cursor
// advances by one; any other kind fails with the expected set and the found
// kind, leaving the cursor unmoved.
#[test]
fn test_require() {
    let mut state = ParserState::new(stream(&[5, 6]), None);
    let err = state.require(vec![1, 2]).unwrap_err();
    assert_eq!(err.expected, vec![1, 2]);
    assert_eq!(err.found, 5);
    let ok = state.require(vec![4, 5]).unwrap();
    assert_eq!(ok.kind, 5);
    assert_eq!(state.peek().kind, 6);
}

// parse commit law: a successful unit advances the outer cursor by exactly
// what the isolated copy consumed; a failing unit leaves it unchanged.
#[test]
fn test_parse_commit() {
    let mut state = ParserState::new(stream(&[1, 2, 3]), None);
    let node = state.parse(TwoEater).unwrap();
    assert_eq!(node.label, "two");
    assert_eq!(state.peek().kind, 3);

    let mut state = ParserState::new(stream(&[1, 2, 3]), None);
    let err = state.parse(Req(9)).unwrap_err();
    assert_eq!(err.found, 1);
    assert_eq!(state.peek().kind, 1);
}

// parse skips the configured trivia kinds before running the unit.
#[test]
fn test_parse_skips_trivia() {
    let mut state = ParserState::new(stream(&[0, 0, 7]), Some(vec![0]));
    let node = state.parse(Req(7)).unwrap();
    assert_eq!(node.kind, 7);
    assert!(state.is_at_end());
}

#[test]
fn test_skip_until_found() {
    let mut state = ParserState::new(stream(&[0, 0, 1, 0]), None);
    state.skip_until_found(vec![0]);
    assert_eq!(state.peek().kind, 1);
    state.skip_until_found(vec![0]);
    assert_eq!(state.peek().kind, 1);
}

#[test]
fn test_is_kind_eat_peek_end() {
    let mut state = ParserState::new(stream(&[1, 2]), None);
    assert!(state.is_kind(vec![1, 3]));
    assert!(!state.is_kind(vec![2]));
    assert!(!state.is_at_end());
    assert_eq!(state.peek().kind, 1);
    assert_eq!(state.eat().kind, 1);
    assert_eq!(state.eat().kind, 2);
    assert!(state.is_at_end());
    assert!(!state.is_kind(vec![1, 2]));
}

// End-to-end: lex "let x = 10.5", skip whitespace, and build a four-child
// node by requiring the let keyword, an identifier, the equals sign, and a
// number in sequence.
#[test]
fn test_variable_assignment_units() {
    let mut lexer = Lexer::new(vec![
        Token::new_regex_from_str("whitespace", 0, "\\s+").unwrap(),
        Token::new_regex_from_str("number", 4, "\\d+(\\.\\d+)?").unwrap(),
        Token::new_lit("let", 1, "let"),
        Token::new_regex_from_str("iden", 2, "[a-zA-Z_][a-zA-Z0-9_]*").unwrap(),
        Token::new_lit("equal", 3, "="),
    ]);
    lexer.begin("let x = 10.5");
    let tokens = lexer.all().unwrap();
    let labels: Vec<&str> = tokens
        .iter()
        .filter(|t| t.kind != 0)
        .map(|t| t.label.as_str())
        .collect();
    assert_eq!(labels, vec!["let", "iden", "equal", "number"]);

    let mut state = ParserState::new(tokens, Some(vec![0]));
    let mut root = Node::new(0, "assign", Value::Nothing);
    for kind in [1u32, 2, 3, 4] {
        let child = state.parse(Req(kind)).unwrap();
        root.add_child(child);
    }
    assert_eq!(root.children.len(), 4);
    assert_eq!(root.children[3].value.as_string(), "10.5");
    assert!(state.is_at_end());
}

#[test]
fn test_value_as_string() {
    let value = Value::String(String::from("hi"));
    assert_eq!(value.as_string(), "hi");
}

#[test]
fn test_node_add_child() {
    let mut node = Node::new(1, "root", Value::Nothing);
    node.add_child(Node::new(2, "a", Value::Nothing));
    node.add_child(Node::new(3, "b", Value::Nothing));
    assert_eq!(node.children.len(), 2);
    assert_eq!(node.children[0].kind, 2);
    assert_eq!(node.children[1].kind, 3);
}

// The isolated copy shares the token list but moves its cursor
// independently of the original.
#[test]
fn test_state_clone_is_isolated() {
    let mut original = ParserState::new(stream(&[1, 2]), None);
    let mut copy = original.clone();
    copy.eat();
    assert_eq!(original.peek().kind, 1);
    assert_eq!(copy.peek().kind, 2);
    assert_eq!(original.eat().kind, 1);
}

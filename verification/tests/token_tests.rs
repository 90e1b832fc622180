use rust_lox::parse_file_path;
use rust_lox::scanner::Scanner;
use rust_lox::token::{Token, TokenType, TokenValue};

#[test]
fn create_makes_a_payload_free_token() {
    let token = Token::create(TokenType::Comma, 7);
    assert_eq!(token.token_type, TokenType::Comma);
    assert!(token.value.is_none());
    assert_eq!(token.line, 7);
}

#[test]
fn create_with_string_carries_the_text() {
    let token = Token::create_with_string(TokenType::Identifier, 2, String::from("area"));
    assert_eq!(token.token_type, TokenType::Identifier);
    assert_eq!(token.value, Some(TokenValue::String(String::from("area"))));
    assert_eq!(token.line, 2);
}

#[test]
fn create_with_number_carries_the_literal_text() {
    let token = Token::create_with_number(TokenType::Number, 3, String::from("12.5"));
    assert_eq!(token.token_type, TokenType::Number);
    assert_eq!(token.value, Some(TokenValue::Number(String::from("12.5"))));
    assert_eq!(token.line, 3);
}

#[test]
fn keyword_map_holds_all_sixteen_reserved_spellings() {
    let map = Scanner::create_keyword_map();
    assert_eq!(map.len(), 16);
    assert_eq!(map[0].0, "and");
    assert_eq!(map[0].1, TokenType::And);
    assert_eq!(map[15].0, "while");
    assert_eq!(map[15].1, TokenType::While);
    let spellings: Vec<&str> = map.iter().map(|e| e.0.as_str()).collect();
    assert_eq!(
        spellings,
        vec![
            "and", "class", "else", "false", "fun", "for", "if", "nil", "or", "print", "return",
            "super", "this", "true", "var", "while"
        ]
    );
}

#[test]
fn parse_file_path_takes_the_first_argument() {
    let args = vec![String::from("interpreter"), String::from("script.lox")];
    assert_eq!(parse_file_path(&args), "script.lox");
}

#[test]
fn cursor_reads_peeks_and_conditionally_consumes() {
    let input = String::from("a=b");
    let mut scanner = Scanner::new(&input);
    assert_eq!(scanner.peek_char(), Some('a'));
    assert_eq!(scanner.read_char(), Some('a'));
    assert!(!scanner.match_char('x'));
    assert!(scanner.match_char('='));
    assert_eq!(scanner.read_char(), Some('b'));
    assert_eq!(scanner.read_char(), None);
    assert_eq!(scanner.peek_char(), None);
}

#[test]
fn cursor_advances_by_codepoints_not_bytes() {
    let input = String::from("é(");
    let mut scanner = Scanner::new(&input);
    assert_eq!(scanner.read_char(), Some('é'));
    assert_eq!(scanner.read_char(), Some('('));
    assert_eq!(scanner.read_char(), None);
}

#[test]
fn whitespace_skipping_stops_at_the_first_token() {
    let input = String::from(" \t\r\n  x");
    let mut scanner = Scanner::new(&input);
    scanner.skip_white_space();
    assert_eq!(scanner.read_char(), Some('x'));
}

#[test]
fn rest_of_line_skipping_consumes_the_newline() {
    let input = String::from("comment text\nz");
    let mut scanner = Scanner::new(&input);
    scanner.skip_rest_of_line();
    assert_eq!(scanner.read_char(), Some('z'));
}

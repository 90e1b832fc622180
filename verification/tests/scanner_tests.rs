use rust_lox::scanner::{LexError, Scanner};
use rust_lox::token::{Token, TokenType, TokenValue};

fn kinds(tokens: &[Token]) -> Vec<TokenType> {
    tokens.iter().map(|t| t.token_type).collect()
}

fn string_payload(token: &Token) -> &str {
    match &token.value {
        Some(TokenValue::String(s)) => s.as_str(),
        other => panic!("expected a text payload, found {:?}", other),
    }
}

fn number_payload(token: &Token) -> &str {
    match &token.value {
        Some(TokenValue::Number(s)) => s.as_str(),
        other => panic!("expected a number payload, found {:?}", other),
    }
}

#[test]
fn empty_input_yields_only_end_marker() {
    let (tokens, errors) = Scanner::scan(&String::from(""));
    assert_eq!(kinds(&tokens), vec![TokenType::Eof]);
    assert_eq!(tokens[0].line, 1);
    assert!(tokens[0].value.is_none());
    assert!(errors.is_empty());
}

#[test]
fn two_left_parens() {
    let (tokens, errors) = Scanner::scan(&String::from("(("));
    assert_eq!(
        kinds(&tokens),
        vec![TokenType::LeftParen, TokenType::LeftParen, TokenType::Eof]
    );
    assert!(errors.is_empty());
}

#[test]
fn bang_equal_wins_over_bang() {
    let (tokens, errors) = Scanner::scan(&String::from("!="));
    assert_eq!(kinds(&tokens), vec![TokenType::BangEqual, TokenType::Eof]);
    assert!(errors.is_empty());
}

#[test]
fn lone_bang() {
    let (tokens, errors) = Scanner::scan(&String::from("!"));
    assert_eq!(kinds(&tokens), vec![TokenType::Bang, TokenType::Eof]);
    assert!(errors.is_empty());
}

#[test]
fn comment_produces_no_token() {
    let (tokens, errors) = Scanner::scan(&String::from("// comment\n+"));
    assert_eq!(kinds(&tokens), vec![TokenType::Plus, TokenType::Eof]);
    assert_eq!(tokens[0].line, 2);
    assert!(errors.is_empty());
}

#[test]
fn comment_at_end_of_input() {
    let (tokens, errors) = Scanner::scan(&String::from("+ // trailing"));
    assert_eq!(kinds(&tokens), vec![TokenType::Plus, TokenType::Eof]);
    assert!(errors.is_empty());
}

#[test]
fn slash_alone_is_a_token() {
    let (tokens, errors) = Scanner::scan(&String::from("6/3"));
    assert_eq!(
        kinds(&tokens),
        vec![TokenType::Number, TokenType::Slash, TokenType::Number, TokenType::Eof]
    );
    assert!(errors.is_empty());
}

#[test]
fn string_literal_payload_excludes_quotes() {
    let (tokens, errors) = Scanner::scan(&String::from("\"hello\""));
    assert_eq!(kinds(&tokens), vec![TokenType::String, TokenType::Eof]);
    assert_eq!(string_payload(&tokens[0]), "hello");
    assert!(errors.is_empty());
}

#[test]
fn unterminated_string_is_a_diagnostic_not_a_token() {
    let (tokens, errors) = Scanner::scan(&String::from("\"oops"));
    assert_eq!(kinds(&tokens), vec![TokenType::Eof]);
    assert_eq!(errors, vec![LexError::UnterminatedString { line: 1 }]);
}

#[test]
fn unterminated_string_is_anchored_at_its_opening_line() {
    let (tokens, errors) = Scanner::scan(&String::from("\n\n\"oops"));
    assert_eq!(kinds(&tokens), vec![TokenType::Eof]);
    assert_eq!(errors, vec![LexError::UnterminatedString { line: 3 }]);
}

#[test]
fn string_spanning_lines_counts_them_and_keeps_its_start_line() {
    let (tokens, errors) = Scanner::scan(&String::from("\"a\nb\"c"));
    assert_eq!(kinds(&tokens), vec![TokenType::String, TokenType::Identifier, TokenType::Eof]);
    assert_eq!(string_payload(&tokens[0]), "a\nb");
    assert_eq!(tokens[0].line, 1);
    assert_eq!(tokens[1].line, 2);
    assert!(errors.is_empty());
}

#[test]
fn number_with_fraction() {
    let (tokens, errors) = Scanner::scan(&String::from("123.45"));
    assert_eq!(kinds(&tokens), vec![TokenType::Number, TokenType::Eof]);
    assert_eq!(number_payload(&tokens[0]), "123.45");
    assert_eq!(number_payload(&tokens[0]).parse::<f64>().unwrap(), 123.45);
    assert!(errors.is_empty());
}

#[test]
fn second_dot_terminates_the_number() {
    let (tokens, errors) = Scanner::scan(&String::from("123.45.6"));
    assert_eq!(
        kinds(&tokens),
        vec![TokenType::Number, TokenType::Dot, TokenType::Number, TokenType::Eof]
    );
    assert_eq!(number_payload(&tokens[0]), "123.45");
    assert_eq!(number_payload(&tokens[2]), "6");
    assert!(errors.is_empty());
}

#[test]
fn trailing_dot_joins_the_number() {
    let (tokens, errors) = Scanner::scan(&String::from("1."));
    assert_eq!(kinds(&tokens), vec![TokenType::Number, TokenType::Eof]);
    assert_eq!(number_payload(&tokens[0]), "1.");
    assert_eq!(number_payload(&tokens[0]).parse::<f64>().unwrap(), 1.0);
    assert!(errors.is_empty());
}

#[test]
fn var_declaration() {
    let (tokens, errors) = Scanner::scan(&String::from("var x = 1;"));
    assert_eq!(
        kinds(&tokens),
        vec![
            TokenType::Var,
            TokenType::Identifier,
            TokenType::Equal,
            TokenType::Number,
            TokenType::Semicolon,
            TokenType::Eof
        ]
    );
    assert!(tokens[0].value.is_none());
    assert_eq!(string_payload(&tokens[1]), "x");
    assert_eq!(number_payload(&tokens[3]), "1");
    assert!(errors.is_empty());
}

#[test]
fn multibyte_codepoint_in_string_keeps_boundaries() {
    let (tokens, errors) = Scanner::scan(&String::from("\"héllo\" + ("));
    assert_eq!(
        kinds(&tokens),
        vec![TokenType::String, TokenType::Plus, TokenType::LeftParen, TokenType::Eof]
    );
    assert_eq!(string_payload(&tokens[0]), "héllo");
    assert!(errors.is_empty());
}

#[test]
fn multibyte_codepoint_after_identifier_resynchronizes() {
    let (tokens, errors) = Scanner::scan(&String::from("ab\u{e9}cd"));
    assert_eq!(
        kinds(&tokens),
        vec![TokenType::Identifier, TokenType::Identifier, TokenType::Eof]
    );
    assert_eq!(string_payload(&tokens[0]), "ab");
    assert_eq!(string_payload(&tokens[1]), "cd");
    assert_eq!(
        errors,
        vec![LexError::UnrecognizedCharacter { line: 1, character: '\u{e9}' }]
    );
}

#[test]
fn line_numbering_is_one_based_and_advances_past_newlines() {
    let (tokens, errors) = Scanner::scan(&String::from("1\n+\n2"));
    assert_eq!(
        kinds(&tokens),
        vec![TokenType::Number, TokenType::Plus, TokenType::Number, TokenType::Eof]
    );
    assert_eq!(tokens[0].line, 1);
    assert_eq!(tokens[1].line, 2);
    assert_eq!(tokens[2].line, 3);
    assert_eq!(tokens[3].line, 3);
    assert!(errors.is_empty());
}

#[test]
fn scanning_twice_yields_identical_results() {
    let input = String::from("var répétitions = 2; // twice\n\"a\nb\" 3.5.x @");
    let (tokens_a, errors_a) = Scanner::scan(&input);
    let (tokens_b, errors_b) = Scanner::scan(&input);
    assert_eq!(tokens_a, tokens_b);
    assert_eq!(errors_a, errors_b);
}

#[test]
fn every_keyword_is_reserved() {
    let input = String::from(
        "and class else false fun for if nil or print return super this true var while",
    );
    let (tokens, errors) = Scanner::scan(&input);
    assert_eq!(
        kinds(&tokens),
        vec![
            TokenType::And,
            TokenType::Class,
            TokenType::Else,
            TokenType::False,
            TokenType::Fun,
            TokenType::For,
            TokenType::If,
            TokenType::Nil,
            TokenType::Or,
            TokenType::Print,
            TokenType::Return,
            TokenType::Super,
            TokenType::This,
            TokenType::True,
            TokenType::Var,
            TokenType::While,
            TokenType::Eof
        ]
    );
    for token in &tokens {
        assert!(token.value.is_none());
    }
    assert!(errors.is_empty());
}

#[test]
fn keyword_prefix_stays_an_identifier() {
    let (tokens, errors) = Scanner::scan(&String::from("orchid"));
    assert_eq!(kinds(&tokens), vec![TokenType::Identifier, TokenType::Eof]);
    assert_eq!(string_payload(&tokens[0]), "orchid");
    assert!(errors.is_empty());
}

#[test]
fn one_and_two_codepoint_operators() {
    let (tokens, errors) = Scanner::scan(&String::from("== != <= >= = ! < >"));
    assert_eq!(
        kinds(&tokens),
        vec![
            TokenType::EqualEqual,
            TokenType::BangEqual,
            TokenType::LessEqual,
            TokenType::GreaterEqual,
            TokenType::Equal,
            TokenType::Bang,
            TokenType::Less,
            TokenType::Greater,
            TokenType::Eof
        ]
    );
    assert!(errors.is_empty());
}

#[test]
fn all_single_codepoint_tokens() {
    let (tokens, errors) = Scanner::scan(&String::from("(){},.-+;*"));
    assert_eq!(
        kinds(&tokens),
        vec![
            TokenType::LeftParen,
            TokenType::RightParen,
            TokenType::LeftBrace,
            TokenType::RightBrace,
            TokenType::Comma,
            TokenType::Dot,
            TokenType::Minus,
            TokenType::Plus,
            TokenType::Semicolon,
            TokenType::Star,
            TokenType::Eof
        ]
    );
    assert!(errors.is_empty());
}

#[test]
fn unrecognized_codepoint_is_reported_and_skipped() {
    let (tokens, errors) = Scanner::scan(&String::from("(@)"));
    assert_eq!(
        kinds(&tokens),
        vec![TokenType::LeftParen, TokenType::RightParen, TokenType::Eof]
    );
    assert_eq!(
        errors,
        vec![LexError::UnrecognizedCharacter { line: 1, character: '@' }]
    );
}

#[test]
fn exactly_one_end_marker_and_it_is_last() {
    for source in ["", "var x", "\"open", "@#%", "// only a comment", "1 + 2 // sum\n"] {
        let (tokens, _) = Scanner::scan(&String::from(source));
        let end_markers = tokens.iter().filter(|t| t.token_type == TokenType::Eof).count();
        assert_eq!(end_markers, 1);
        assert_eq!(tokens.last().unwrap().token_type, TokenType::Eof);
    }
}

#[test]
fn diagnostics_accumulate_in_order() {
    let (tokens, errors) = Scanner::scan(&String::from("@ # \"open"));
    assert_eq!(kinds(&tokens), vec![TokenType::Eof]);
    assert_eq!(
        errors,
        vec![
            LexError::UnrecognizedCharacter { line: 1, character: '@' },
            LexError::UnrecognizedCharacter { line: 1, character: '#' },
            LexError::UnterminatedString { line: 1 },
        ]
    );
}

use rublox::Token;
use rublox::TokenType;
use rublox::LoxError;
use rublox::tokenize::Scanner;
use rublox::tokenize::tokenize;

#[test]
fn test_scanner() {
    let scan = Scanner::new(String::from("hello world"));
    assert_eq!(scan.peek(1), "h");
    assert_eq!(scan.peek(2), "he");
}

#[test]
fn test_match_one_character_symbol() {
    let scanner = Scanner::new(String::from("+*"));
    let t = scanner.match_one_character_symbol();
    assert_eq!(t, Some(Token::new(TokenType::PLUS, "+", 0)));

    let scanner = Scanner::new(String::from("a"));
    let t = scanner.match_one_character_symbol();
    assert_eq!(t, None);
}

#[test]
fn test_match_two_character_symbol() {
    let scanner = Scanner::new(String::from("<= "));
    let t = scanner.match_two_character_symbol();
    assert_eq!(t, Some(Token::new(TokenType::LE, "<=", 0)));
}

#[test]
fn test_next_token() {
    let mut scanner = Scanner::new(String::from("<<=123 1234.56 \nabc//comment"));
    let t = scanner.next_token();
    assert_eq!(t, Some(Token::new(TokenType::LT, "<", 0)));
    let t = scanner.next_token();
    assert_eq!(t, Some(Token::new(TokenType::LE, "<=", 0)));
    let t = scanner.next_token();
    assert_eq!(t, Some(Token::new(TokenType::NUMBER, "123", 0)));
    let t = scanner.next_token();
    assert_eq!(t, Some(Token::new(TokenType::WHITESPACE, " ", 0)));
    let t = scanner.next_token();
    assert_eq!(t, Some(Token::new(TokenType::NUMBER, "1234.56", 0)));
    let t = scanner.next_token();
    assert_eq!(t, Some(Token::new(TokenType::WHITESPACE, " \n", 0)));
    let t = scanner.next_token();
    assert_eq!(t, Some(Token::new(TokenType::IDENTIFIER, "abc", 0)));
    let t = scanner.next_token();
    assert_eq!(t, Some(Token::new(TokenType::COMMENT, "//comment", 0)));
}

#[test]
fn test_smoke() {
    // A basic test just to make sure tests are running
    let t = Token::new(TokenType::PLUS, "+", 1);
    assert_eq!(t.toktype, TokenType::PLUS);
    assert_eq!(t.lexeme, "+");
    assert_eq!(t.line, 1);
    assert_eq!(t, Token::new(TokenType::PLUS, "+", 1));
}

#[test]
fn test_tokenize_le_is_one_token() {
    // the two-character symbol wins over its one-character prefix
    let toks = tokenize(&String::from("<=")).unwrap();
    assert_eq!(
        toks,
        vec![Token::new(TokenType::LE, "<=", 1), Token::new(TokenType::EOF, "", 1)]
    );
}

#[test]
fn test_tokenize_second_decimal_point_ends_number() {
    let toks = tokenize(&String::from("1.2.3")).unwrap();
    assert_eq!(
        toks,
        vec![
            Token::new(TokenType::NUMBER, "1.2", 1),
            Token::new(TokenType::DOT, ".", 1),
            Token::new(TokenType::NUMBER, "3", 1),
            Token::new(TokenType::EOF, "", 1),
        ]
    );
}

#[test]
fn test_tokenize_lines_and_comments() {
    let toks = tokenize(&String::from("var x // one\n = 2;")).unwrap();
    assert_eq!(
        toks,
        vec![
            Token::new(TokenType::VAR, "var", 1),
            Token::new(TokenType::IDENTIFIER, "x", 1),
            Token::new(TokenType::ASSIGN, "=", 2),
            Token::new(TokenType::NUMBER, "2", 2),
            Token::new(TokenType::SEMICOLON, ";", 2),
            Token::new(TokenType::EOF, "", 2),
        ]
    );
}

#[test]
fn test_tokenize_string_excludes_quotes() {
    let toks = tokenize(&String::from("\"hello\"")).unwrap();
    assert_eq!(
        toks,
        vec![
            Token::new(TokenType::STRING, "hello", 1),
            Token::new(TokenType::EOF, "", 1),
        ]
    );
}

#[test]
fn test_tokenize_keywords() {
    let toks = tokenize(&String::from("while true nilish")).unwrap();
    assert_eq!(
        toks,
        vec![
            Token::new(TokenType::WHILE, "while", 1),
            Token::new(TokenType::TRUE, "true", 1),
            Token::new(TokenType::IDENTIFIER, "nilish", 1),
            Token::new(TokenType::EOF, "", 1),
        ]
    );
}

#[test]
fn test_tokenize_unknown_character_is_error() {
    let r = tokenize(&String::from("var x = 1;\n@"));
    assert_eq!(r, Err(LoxError::LexError { ch: '@', line: 2 }));
}

#[test]
fn test_tokenize_unterminated_string_is_error() {
    let r = tokenize(&String::from("\"abc"));
    assert_eq!(r, Err(LoxError::LexError { ch: '"', line: 1 }));
}

#[test]
fn test_tokenize_empty_source() {
    let toks = tokenize(&String::from("")).unwrap();
    assert_eq!(toks, vec![Token::new(TokenType::EOF, "", 1)]);
}

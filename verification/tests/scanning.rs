use scanparse::scanner::LexicalError;
use scanparse::scanner::Scanner;
use scanparse::token::Token;

fn scan(line: &str) -> Result<Vec<Token>, LexicalError> {
    let mut scanner = Scanner::new(line);
    scanner.scan_all()
}

#[test]
fn scan_ends_with_single_eof() {
    let tokens = scan("a + 12 * (b)").unwrap();
    assert!(matches!(tokens.last(), Some(Token::Eof)));
    let eof_count = tokens.iter().filter(|t| matches!(t, Token::Eof)).count();
    assert_eq!(eof_count, 1);
}

#[test]
fn scan_empty_line_is_just_eof() {
    let tokens = scan("").unwrap();
    assert_eq!(tokens.len(), 1);
    assert!(matches!(tokens.first(), Some(Token::Eof)));
}

#[test]
fn scan_whitespace_only_line_is_just_eof() {
    let tokens = scan(" \t  ").unwrap();
    assert_eq!(tokens.len(), 1);
    assert!(matches!(tokens.first(), Some(Token::Eof)));
}

#[test]
fn maximal_munch_letters_then_digits() {
    let tokens = scan("abc123").unwrap();
    assert_eq!(tokens.len(), 3);
    match &tokens[0] {
        Token::Identifier(s) => assert_eq!(s, "abc"),
        _ => panic!("expected an identifier first"),
    }
    match &tokens[1] {
        Token::Number(s) => assert_eq!(s, "123"),
        _ => panic!("expected a number second"),
    }
    assert!(matches!(tokens[2], Token::Eof));
}

#[test]
fn maximal_munch_digits_then_letters() {
    let tokens = scan("123abc").unwrap();
    assert_eq!(tokens.len(), 3);
    match &tokens[0] {
        Token::Number(s) => assert_eq!(s, "123"),
        _ => panic!("expected a number first"),
    }
    match &tokens[1] {
        Token::Identifier(s) => assert_eq!(s, "abc"),
        _ => panic!("expected an identifier second"),
    }
    assert!(matches!(tokens[2], Token::Eof));
}

#[test]
fn scan_single_character_tokens() {
    let tokens = scan("+*()").unwrap();
    assert_eq!(tokens.len(), 5);
    assert!(matches!(tokens[0], Token::Plus));
    assert!(matches!(tokens[1], Token::Star));
    assert!(matches!(tokens[2], Token::Bopen));
    assert!(matches!(tokens[3], Token::Bclose));
    assert!(matches!(tokens[4], Token::Eof));
}

#[test]
fn scan_skips_interior_whitespace() {
    let tokens = scan("  a \t+\t b ").unwrap();
    assert_eq!(tokens.len(), 4);
    assert!(matches!(tokens[0], Token::Identifier(_)));
    assert!(matches!(tokens[1], Token::Plus));
    assert!(matches!(tokens[2], Token::Identifier(_)));
    assert!(matches!(tokens[3], Token::Eof));
}

#[test]
fn unrecognized_character_fails_whole_line() {
    let err = scan("a#b").unwrap_err();
    assert_eq!(err.ch, '#');
}

#[test]
fn unrecognized_character_after_valid_prefix() {
    let err = scan("abc + 12 ?").unwrap_err();
    assert_eq!(err.ch, '?');
}

#[test]
fn token_parse_tree_labels() {
    assert_eq!(Token::Identifier("ab".to_string()).to_parse_tree_string(), "IDENTIFIER(ab)");
    assert_eq!(Token::Number("7".to_string()).to_parse_tree_string(), "NUMBER(7)");
    assert_eq!(Token::Plus.to_parse_tree_string(), "PLUS");
    assert_eq!(Token::Star.to_parse_tree_string(), "STAR");
    assert_eq!(Token::Bopen.to_parse_tree_string(), "BOPEN");
    assert_eq!(Token::Bclose.to_parse_tree_string(), "BCLOSE");
    assert_eq!(Token::Eof.to_parse_tree_string(), "EOF");
}

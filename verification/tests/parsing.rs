use scanparse::parser::NonTerm;
use scanparse::parser::ParseError;
use scanparse::parser::ParseNode;
use scanparse::parser::Parser;
use scanparse::scanner::Scanner;
use scanparse::token::Token;

fn parse(line: &str) -> Result<ParseNode, ParseError> {
    let mut scanner = Scanner::new(line);
    let tokens = scanner.scan_all().unwrap();
    let mut parser = Parser::new(tokens);
    parser.parse()
}

#[test]
fn single_identifier_parses() {
    let root = parse("x").unwrap();
    match &root {
        ParseNode::NonTerminal(NonTerm::Expr, children) => assert_eq!(children.len(), 2),
        _ => panic!("root must be an EXPR"),
    }
}

#[test]
fn sum_of_products_parses_with_star_nested_under_second_term() {
    let root = parse("a+b*c").unwrap();
    // EXPR -> [TERM, EXPRDASH]; the '*' must hang off EXPRDASH's TERM for
    // `b*c`, not off the TERM for `a`.
    let (first_term, exprdash) = match &root {
        ParseNode::NonTerminal(NonTerm::Expr, children) => (&children[0], &children[1]),
        _ => panic!("root must be an EXPR"),
    };
    match first_term {
        ParseNode::NonTerminal(NonTerm::Term, children) => {
            // TERM -> [FACTOR, TERMDASH]; the TERMDASH for `a` is epsilon.
            match &children[1] {
                ParseNode::NonTerminal(NonTerm::TermDash, td_children) => {
                    assert_eq!(td_children.len(), 1);
                    assert!(matches!(td_children[0], ParseNode::Epsilon));
                }
                _ => panic!("TERM's second child must be a TERMDASH"),
            }
        }
        _ => panic!("EXPR's first child must be a TERM"),
    }
    match exprdash {
        ParseNode::NonTerminal(NonTerm::ExprDash, children) => {
            assert_eq!(children.len(), 3);
            assert!(matches!(children[0], ParseNode::Terminal(Token::Plus)));
            // The TERM for `b*c` carries the '*' in its TERMDASH.
            match &children[1] {
                ParseNode::NonTerminal(NonTerm::Term, t_children) => match &t_children[1] {
                    ParseNode::NonTerminal(NonTerm::TermDash, td_children) => {
                        assert_eq!(td_children.len(), 3);
                        assert!(matches!(td_children[0], ParseNode::Terminal(Token::Star)));
                    }
                    _ => panic!("TERM's second child must be a TERMDASH"),
                },
                _ => panic!("EXPRDASH's second child must be a TERM"),
            }
        }
        _ => panic!("EXPR's second child must be an EXPRDASH"),
    }
}

#[test]
fn parenthesized_factor_holds_nested_expr() {
    let root = parse("(a+b)*c").unwrap();
    let first_factor = match &root {
        ParseNode::NonTerminal(NonTerm::Expr, children) => match &children[0] {
            ParseNode::NonTerminal(NonTerm::Term, t_children) => &t_children[0],
            _ => panic!("EXPR's first child must be a TERM"),
        },
        _ => panic!("root must be an EXPR"),
    };
    match first_factor {
        ParseNode::NonTerminal(NonTerm::Factor, children) => {
            assert_eq!(children.len(), 3);
            assert!(matches!(children[0], ParseNode::Terminal(Token::Bopen)));
            assert!(matches!(children[1], ParseNode::NonTerminal(NonTerm::Expr, _)));
            assert!(matches!(children[2], ParseNode::Terminal(Token::Bclose)));
        }
        _ => panic!("the left operand must be a FACTOR"),
    }
}

#[test]
fn dangling_plus_is_rejected_in_factor_at_eof() {
    let err = parse("a+").unwrap_err();
    match err {
        ParseError::Unexpected { context, found } => {
            assert!(matches!(context, NonTerm::Factor));
            assert!(matches!(found, Token::Eof));
        }
        _ => panic!("expected a lookahead error in FACTOR"),
    }
}

#[test]
fn adjacent_factors_are_rejected() {
    // After the FACTOR for `a`, the TERMDASH lookahead sees the second
    // identifier, which none of its productions accepts.
    let err = parse("a b").unwrap_err();
    match err {
        ParseError::Unexpected { context, found } => {
            assert!(matches!(context, NonTerm::TermDash));
            match found {
                Token::Identifier(s) => assert_eq!(s, "b"),
                _ => panic!("the offending token must be the identifier b"),
            }
        }
        _ => panic!("expected a lookahead error in TERMDASH"),
    }
}

#[test]
fn trailing_token_after_complete_expr_is_extra() {
    let err = parse("a)").unwrap_err();
    match err {
        ParseError::ExtraToken { found } => assert!(matches!(found, Token::Bclose)),
        _ => panic!("expected an extra-token error"),
    }
}

#[test]
fn missing_close_bracket_is_rejected() {
    let err = parse("(a").unwrap_err();
    match err {
        ParseError::MissingClose { found } => assert!(matches!(found, Token::Eof)),
        _ => panic!("expected a missing-close error"),
    }
}

#[test]
fn empty_token_sequence_is_rejected_in_factor() {
    let err = parse("").unwrap_err();
    match err {
        ParseError::Unexpected { context, found } => {
            assert!(matches!(context, NonTerm::Factor));
            assert!(matches!(found, Token::Eof));
        }
        _ => panic!("expected a lookahead error in FACTOR"),
    }
}

#[test]
fn error_messages_name_context_expected_and_found() {
    assert_eq!(
        parse("a+").unwrap_err().message(),
        "Parse Error in FACTOR: Expected '(', Identifier, or Number, found EOF"
    );
    assert_eq!(
        parse("a b").unwrap_err().message(),
        "Parse Error in TERMDASH: Expected '*', '+', ')', or EOF, found IDENTIFIER(b)"
    );
    assert_eq!(
        parse("a)").unwrap_err().message(),
        "Parse Error: Extra token found starting at BCLOSE"
    );
    assert_eq!(
        parse("(a").unwrap_err().message(),
        "Parse Error in FACTOR: Expected ')', found EOF"
    );
    assert_eq!(
        parse("a+*b").unwrap_err().message(),
        "Parse Error in FACTOR: Expected '(', Identifier, or Number, found STAR"
    );
}

#[test]
fn star_without_right_operand_is_rejected() {
    let err = parse("a*+b").unwrap_err();
    match err {
        ParseError::Unexpected { context, found } => {
            assert!(matches!(context, NonTerm::Factor));
            assert!(matches!(found, Token::Plus));
        }
        _ => panic!("expected a lookahead error in FACTOR"),
    }
}

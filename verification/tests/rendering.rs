use scanparse::line::LineOutcome;
use scanparse::line::process_line;
use scanparse::parser::ParseNode;
use scanparse::parser::Parser;
use scanparse::scanner::Scanner;

fn parse(line: &str) -> ParseNode {
    let mut scanner = Scanner::new(line);
    let tokens = scanner.scan_all().unwrap();
    let mut parser = Parser::new(tokens);
    parser.parse().unwrap()
}

#[test]
fn single_identifier_renders_level_by_level() {
    let root = parse("x");
    assert_eq!(
        root.to_bfs_string(),
        "EXPR\nTERM EXPRDASH\nFACTOR TERMDASH EPSILON\nIDENTIFIER(x) EPSILON\n"
    );
}

#[test]
fn sum_of_products_renders_breadth_first() {
    let root = parse("a+b*c");
    assert_eq!(
        root.to_bfs_string(),
        "EXPR\n\
         TERM EXPRDASH\n\
         FACTOR TERMDASH PLUS TERM EXPRDASH\n\
         IDENTIFIER(a) EPSILON FACTOR TERMDASH EPSILON\n\
         IDENTIFIER(b) STAR FACTOR TERMDASH\n\
         IDENTIFIER(c) EPSILON\n"
    );
}

#[test]
fn number_leaf_renders_with_lexeme() {
    let root = parse("42");
    assert_eq!(
        root.to_bfs_string(),
        "EXPR\nTERM EXPRDASH\nFACTOR TERMDASH EPSILON\nNUMBER(42) EPSILON\n"
    );
}

#[test]
fn rendering_twice_yields_identical_text() {
    let root = parse("(a+b)*c");
    let first = root.to_bfs_string();
    let second = root.to_bfs_string();
    assert_eq!(first, second);
}

#[test]
fn rendered_root_level_is_expr() {
    let root = parse("a+b*c");
    let rendered = root.to_bfs_string();
    let first_line = rendered.lines().next().unwrap();
    assert_eq!(first_line, "EXPR");
}

#[test]
fn process_line_renders_successful_parse() {
    match process_line("x") {
        LineOutcome::Rendered(text) => {
            assert_eq!(text, "EXPR\nTERM EXPRDASH\nFACTOR TERMDASH EPSILON\nIDENTIFIER(x) EPSILON\n");
        }
        _ => panic!("a well-formed line must render"),
    }
}

#[test]
fn process_line_skips_blank_lines() {
    assert!(matches!(process_line(""), LineOutcome::Blank));
    assert!(matches!(process_line("   \t  "), LineOutcome::Blank));
}

#[test]
fn process_line_reports_lexical_error() {
    match process_line("a#b") {
        LineOutcome::Lexical(err) => assert_eq!(err.ch, '#'),
        _ => panic!("an unrecognized character must yield a lexical error"),
    }
}

#[test]
fn process_line_reports_parse_error() {
    assert!(matches!(process_line("a+"), LineOutcome::Parse(_)));
}

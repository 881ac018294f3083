//! Processing of one input line: skip it when blank, otherwise scan, parse
//! and render, or report the one error that stopped that pipeline.

use vstd::prelude::*;

use crate::parser::ParseError;
use crate::parser::ParseErrorModel;
use crate::parser::Parser;
use crate::parser::spec_parse;
use crate::render::spec_render_tree;
use crate::scanner::LexicalError;
use crate::scanner::Scanner;
use crate::scanner::lemma_scan_ends_with_eof;
use crate::scanner::spec_is_whitespace;
use crate::scanner::spec_scan;

verus! {

/// What one input line yields: nothing (the line is blank), the rendered
/// parse-tree text, or the error that stopped scanning or parsing.
#[derive(Debug)]
pub enum LineOutcome {
    Blank,
    Rendered(String),
    Lexical(LexicalError),
    Parse(ParseError),
}

/// The model of a line's outcome.
pub enum LineOutcomeModel {
    Blank,
    Rendered(Seq<char>),
    Lexical(char),
    Parse(ParseErrorModel),
}

impl View for LineOutcome {
    type V = LineOutcomeModel;

    open spec fn view(&self) -> LineOutcomeModel {
        match self {
            LineOutcome::Blank => LineOutcomeModel::Blank,
            LineOutcome::Rendered(s) => LineOutcomeModel::Rendered(s@),
            LineOutcome::Lexical(e) => LineOutcomeModel::Lexical(e.ch),
            LineOutcome::Parse(e) => LineOutcomeModel::Parse(e@),
        }
    }
}

/// A line of nothing but whitespace.
pub open spec fn spec_is_blank(s: Seq<char>) -> bool {
    forall|i: int| 0 <= i < s.len() ==> spec_is_whitespace(#[trigger] s[i])
}

/// The outcome of one line: blank lines yield nothing, all others the
/// rendering of their parse tree or the first error on the way there.
pub open spec fn spec_process_line(s: Seq<char>) -> LineOutcomeModel {
    if spec_is_blank(s) {
        LineOutcomeModel::Blank
    } else {
        match spec_scan(s) {
            Err(c) => LineOutcomeModel::Lexical(c),
            Ok(ts) => match spec_parse(ts) {
                Err(e) => LineOutcomeModel::Parse(e),
                Ok(t) => LineOutcomeModel::Rendered(spec_render_tree(t)),
            },
        }
    }
}

/// A line of nothing but whitespace contributes nothing: its outcome is
/// `Blank`, never output and never a diagnostic.
pub proof fn lemma_blank_line_skipped(s: Seq<char>)
    requires
        spec_is_blank(s),
    ensures
        spec_process_line(s) is Blank,
{
}

/// Whether the line consists of whitespace only.
pub fn is_blank_line(line: &str) -> (r: bool)
    ensures
        r == spec_is_blank(line@),
{
    let mut scanner = Scanner::new(line);
    scanner.skip_whitespace();
    let blank = scanner.current == line.unicode_len();
    proof {
        if blank {
            assert forall|i: int| 0 <= i < line@.len() implies spec_is_whitespace(
                #[trigger] line@[i],
            ) by {}
        }
    }
    blank
}

/// Processes one line as the whole pipeline does: a blank line is skipped,
/// any other line is scanned, parsed and rendered, and the first failure on
/// that way is the line's outcome.
pub fn process_line(line: &str) -> (r: LineOutcome)
    ensures
        r@ == spec_process_line(line@),
{
    if is_blank_line(line) {
        return LineOutcome::Blank;
    }
    let mut scanner = Scanner::new(line);
    let tokens = match scanner.scan_all() {
        Ok(v) => v,
        Err(e) => {
            return LineOutcome::Lexical(e);
        }
    };
    proof {
        lemma_scan_ends_with_eof(line@);
    }
    let mut parser = Parser::new(tokens);
    match parser.parse() {
        Ok(root) => LineOutcome::Rendered(root.to_bfs_string()),
        Err(e) => LineOutcome::Parse(e),
    }
}

} // verus!

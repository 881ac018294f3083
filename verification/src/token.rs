//! The lexical atoms of the expression language.

use vstd::prelude::*;
use vstd::string::StringExecFns;

verus! {

/// One lexical unit of an input line.  `Identifier` and `Number` carry the
/// exact matched lexeme; `Eof` marks the end of a line's token sequence.
#[derive(Debug)]
pub enum Token {
    Identifier(String),
    Number(String),
    Plus,
    Star,
    Bopen,
    Bclose,
    Eof,
}

/// The mathematical value of a token: lexemes are plain character sequences.
pub enum TokenModel {
    Identifier(Seq<char>),
    Number(Seq<char>),
    Plus,
    Star,
    Bopen,
    Bclose,
    Eof,
}

impl View for Token {
    type V = TokenModel;

    open spec fn view(&self) -> TokenModel {
        match self {
            Token::Identifier(s) => TokenModel::Identifier(s@),
            Token::Number(s) => TokenModel::Number(s@),
            Token::Plus => TokenModel::Plus,
            Token::Star => TokenModel::Star,
            Token::Bopen => TokenModel::Bopen,
            Token::Bclose => TokenModel::Bclose,
            Token::Eof => TokenModel::Eof,
        }
    }
}

impl Clone for Token {
    /// A clone carries the same model as the token it was made from.
    fn clone(&self) -> (r: Self)
        ensures
            r@ == self@,
    {
        match self {
            Token::Identifier(s) => Token::Identifier(s.clone()),
            Token::Number(s) => Token::Number(s.clone()),
            Token::Plus => Token::Plus,
            Token::Star => Token::Star,
            Token::Bopen => Token::Bopen,
            Token::Bclose => Token::Bclose,
            Token::Eof => Token::Eof,
        }
    }
}

/// The label a token contributes to a rendered parse tree: a fixed tag, with
/// the lexeme embedded for identifiers and numbers.
pub open spec fn spec_token_label(t: TokenModel) -> Seq<char> {
    match t {
        TokenModel::Identifier(s) => "IDENTIFIER("@ + s + ")"@,
        TokenModel::Number(s) => "NUMBER("@ + s + ")"@,
        TokenModel::Plus => "PLUS"@,
        TokenModel::Star => "STAR"@,
        TokenModel::Bopen => "BOPEN"@,
        TokenModel::Bclose => "BCLOSE"@,
        TokenModel::Eof => "EOF"@,
    }
}

impl Token {
    /// The text standing for this token in a rendered parse tree.
    pub fn to_parse_tree_string(&self) -> (r: String)
        ensures
            r@ == spec_token_label(self@),
    {
        match self {
            Token::Identifier(s) => {
                let mut r = "IDENTIFIER(".to_owned();
                r.append(s.as_str());
                r.append(")");
                r
            }
            Token::Number(s) => {
                let mut r = "NUMBER(".to_owned();
                r.append(s.as_str());
                r.append(")");
                r
            }
            Token::Plus => "PLUS".to_owned(),
            Token::Star => "STAR".to_owned(),
            Token::Bopen => "BOPEN".to_owned(),
            Token::Bclose => "BCLOSE".to_owned(),
            Token::Eof => "EOF".to_owned(),
        }
    }
}

} // verus!

//! The recursive-descent parser for the fixed expression grammar:
//!
//! ```text
//! EXPR      -> TERM EXPRDASH
//! EXPRDASH  -> '+' TERM EXPRDASH | epsilon
//! TERM      -> FACTOR TERMDASH
//! TERMDASH  -> '*' FACTOR TERMDASH | epsilon
//! FACTOR    -> '(' EXPR ')' | IDENTIFIER | NUMBER
//! ```

use vstd::prelude::*;

use crate::scanner::spec_tokens;
use crate::scanner::spec_wf_tokens;
use crate::token::Token;
use crate::token::TokenModel;

verus! {

/// The grammar's nonterminal symbols.
#[derive(Debug, Clone, Copy, PartialEq, Eq, Structural)]
pub enum NonTerm {
    Expr,
    ExprDash,
    Term,
    TermDash,
    Factor,
}

/// A node of the concrete parse tree: a nonterminal with its children in
/// derivation order, a terminal wrapping the matched token, or the empty
/// derivation.
#[derive(Debug)]
pub enum ParseNode {
    NonTerminal(NonTerm, Vec<ParseNode>),
    Terminal(Token),
    Epsilon,
}

/// The mathematical value of a parse tree.
pub enum TreeModel {
    NonTerminal(NonTerm, Seq<TreeModel>),
    Terminal(TokenModel),
    Epsilon,
}

/// The model of one parse node.
pub open spec fn spec_node(n: ParseNode) -> TreeModel
    decreases n,
{
    match n {
        ParseNode::NonTerminal(k, cs) => TreeModel::NonTerminal(k, spec_nodes(cs@)),
        ParseNode::Terminal(t) => TreeModel::Terminal(t@),
        ParseNode::Epsilon => TreeModel::Epsilon,
    }
}

/// The models of a sequence of parse nodes, in order.
pub open spec fn spec_nodes(ns: Seq<ParseNode>) -> Seq<TreeModel>
    decreases ns,
{
    if ns.len() == 0 {
        Seq::empty()
    } else {
        seq![spec_node(ns[0])] + spec_nodes(ns.drop_first())
    }
}

impl View for ParseNode {
    type V = TreeModel;

    open spec fn view(&self) -> TreeModel {
        spec_node(*self)
    }
}

pub proof fn lemma_spec_nodes_len(ns: Seq<ParseNode>)
    ensures
        spec_nodes(ns).len() == ns.len(),
        forall|i: int| 0 <= i < ns.len() ==> #[trigger] spec_nodes(ns)[i] == spec_node(ns[i]),
    decreases ns.len(),
{
    if ns.len() > 0 {
        lemma_spec_nodes_len(ns.drop_first());
    }
}

/// A structured parse error: the nonterminal whose lookahead failed, a
/// missing closing bracket, or a trailing token after a complete expression.
/// Each carries the token actually found.
#[derive(Debug)]
pub enum ParseError {
    Unexpected { context: NonTerm, found: Token },
    MissingClose { found: Token },
    ExtraToken { found: Token },
}

/// The mathematical value of a parse error.
pub enum ParseErrorModel {
    Unexpected { context: NonTerm, found: TokenModel },
    MissingClose { found: TokenModel },
    ExtraToken { found: TokenModel },
}

impl View for ParseError {
    type V = ParseErrorModel;

    open spec fn view(&self) -> ParseErrorModel {
        match self {
            ParseError::Unexpected { context, found } => ParseErrorModel::Unexpected {
                context: *context,
                found: found@,
            },
            ParseError::MissingClose { found } => ParseErrorModel::MissingClose {
                found: found@,
            },
            ParseError::ExtraToken { found } => ParseErrorModel::ExtraToken { found: found@ },
        }
    }
}

/// The one-token lookahead at position `i`; past the end it reads as `Eof`,
/// which a well-formed token sequence never reaches anyway.
pub open spec fn spec_peek(ts: Seq<TokenModel>, i: int) -> TokenModel {
    if 0 <= i < ts.len() {
        ts[i]
    } else {
        TokenModel::Eof
    }
}

/// Stands in the never-taken branches of the parsing functions below, where
/// a successful sub-parse would have to stand still; some value is needed to
/// make the recursion well-founded (see `lemma_parse_moves_forward`).
pub open spec fn spec_stuck() -> Result<(TreeModel, int), ParseErrorModel> {
    Err(ParseErrorModel::ExtraToken { found: TokenModel::Eof })
}

/// Parses `EXPR -> TERM EXPRDASH` at position `i`; on success returns the
/// tree and the position one past the consumed tokens.
pub open spec fn spec_parse_expr(ts: Seq<TokenModel>, i: int) -> Result<
    (TreeModel, int),
    ParseErrorModel,
>
    decreases ts.len() - i, 2int,
{
    match spec_parse_term(ts, i) {
        Err(e) => Err(e),
        Ok((t1, j)) => if i < j <= ts.len() {
            match spec_parse_exprdash(ts, j) {
                Err(e) => Err(e),
                Ok((t2, k)) => Ok(
                    (TreeModel::NonTerminal(NonTerm::Expr, seq![t1, t2]), k),
                ),
            }
        } else {
            spec_stuck()
        },
    }
}

/// Parses `EXPRDASH`: on `+` it consumes the operator and recurses, on `)`
/// or `Eof` it derives epsilon, and any other lookahead is an error.
pub open spec fn spec_parse_exprdash(ts: Seq<TokenModel>, i: int) -> Result<
    (TreeModel, int),
    ParseErrorModel,
>
    decreases ts.len() - i, 3int,
{
    match spec_peek(ts, i) {
        TokenModel::Plus => match spec_parse_term(ts, i + 1) {
            Err(e) => Err(e),
            Ok((t1, j)) => if i + 1 <= j <= ts.len() {
                match spec_parse_exprdash(ts, j) {
                    Err(e) => Err(e),
                    Ok((t2, k)) => Ok(
                        (
                            TreeModel::NonTerminal(
                                NonTerm::ExprDash,
                                seq![
                                    TreeModel::Terminal(TokenModel::Plus),
                                    t1,
                                    t2,
                                ],
                            ),
                            k,
                        ),
                    ),
                }
            } else {
                spec_stuck()
            },
        },
        TokenModel::Bclose | TokenModel::Eof => Ok(
            (TreeModel::NonTerminal(NonTerm::ExprDash, seq![TreeModel::Epsilon]), i),
        ),
        t => Err(ParseErrorModel::Unexpected { context: NonTerm::ExprDash, found: t }),
    }
}

/// Parses `TERM -> FACTOR TERMDASH`.
pub open spec fn spec_parse_term(ts: Seq<TokenModel>, i: int) -> Result<
    (TreeModel, int),
    ParseErrorModel,
>
    decreases ts.len() - i, 1int,
{
    match spec_parse_factor(ts, i) {
        Err(e) => Err(e),
        Ok((t1, j)) => if i < j <= ts.len() {
            match spec_parse_termdash(ts, j) {
                Err(e) => Err(e),
                Ok((t2, k)) => Ok(
                    (TreeModel::NonTerminal(NonTerm::Term, seq![t1, t2]), k),
                ),
            }
        } else {
            spec_stuck()
        },
    }
}

/// Parses `TERMDASH`: on `*` it consumes the operator and recurses, on `+`,
/// `)` or `Eof` it derives epsilon, and any other lookahead is an error.
pub open spec fn spec_parse_termdash(ts: Seq<TokenModel>, i: int) -> Result<
    (TreeModel, int),
    ParseErrorModel,
>
    decreases ts.len() - i, 3int,
{
    match spec_peek(ts, i) {
        TokenModel::Star => match spec_parse_factor(ts, i + 1) {
            Err(e) => Err(e),
            Ok((t1, j)) => if i + 1 <= j <= ts.len() {
                match spec_parse_termdash(ts, j) {
                    Err(e) => Err(e),
                    Ok((t2, k)) => Ok(
                        (
                            TreeModel::NonTerminal(
                                NonTerm::TermDash,
                                seq![
                                    TreeModel::Terminal(TokenModel::Star),
                                    t1,
                                    t2,
                                ],
                            ),
                            k,
                        ),
                    ),
                }
            } else {
                spec_stuck()
            },
        },
        TokenModel::Plus | TokenModel::Bclose | TokenModel::Eof => Ok(
            (TreeModel::NonTerminal(NonTerm::TermDash, seq![TreeModel::Epsilon]), i),
        ),
        t => Err(ParseErrorModel::Unexpected { context: NonTerm::TermDash, found: t }),
    }
}

/// Parses `FACTOR`: a parenthesized expression, or a single identifier or
/// number leaf; any other lookahead is an error, and a missing `)` after a
/// parenthesized expression is reported as such.
pub open spec fn spec_parse_factor(ts: Seq<TokenModel>, i: int) -> Result<
    (TreeModel, int),
    ParseErrorModel,
>
    decreases ts.len() - i, 0int,
{
    match spec_peek(ts, i) {
        TokenModel::Bopen => match spec_parse_expr(ts, i + 1) {
            Err(e) => Err(e),
            Ok((t1, j)) => if spec_peek(ts, j) is Bclose {
                Ok(
                    (
                        TreeModel::NonTerminal(
                            NonTerm::Factor,
                            seq![
                                TreeModel::Terminal(TokenModel::Bopen),
                                t1,
                                TreeModel::Terminal(TokenModel::Bclose),
                            ],
                        ),
                        j + 1,
                    ),
                )
            } else {
                Err(ParseErrorModel::MissingClose { found: spec_peek(ts, j) })
            },
        },
        TokenModel::Identifier(s) => Ok(
            (
                TreeModel::NonTerminal(
                    NonTerm::Factor,
                    seq![TreeModel::Terminal(TokenModel::Identifier(s))],
                ),
                i + 1,
            ),
        ),
        TokenModel::Number(s) => Ok(
            (
                TreeModel::NonTerminal(
                    NonTerm::Factor,
                    seq![TreeModel::Terminal(TokenModel::Number(s))],
                ),
                i + 1,
            ),
        ),
        t => Err(ParseErrorModel::Unexpected { context: NonTerm::Factor, found: t }),
    }
}

/// The parse of a whole token sequence from position `i`: one `EXPR`, then
/// the lookahead must be `Eof`, else the trailing token is reported.
pub open spec fn spec_parse_at(ts: Seq<TokenModel>, i: int) -> Result<
    TreeModel,
    ParseErrorModel,
> {
    match spec_parse_expr(ts, i) {
        Err(e) => Err(e),
        Ok((t, j)) => if spec_peek(ts, j) is Eof {
            Ok(t)
        } else {
            Err(ParseErrorModel::ExtraToken { found: spec_peek(ts, j) })
        },
    }
}

/// The parse of a whole token sequence.
pub open spec fn spec_parse(ts: Seq<TokenModel>) -> Result<TreeModel, ParseErrorModel> {
    spec_parse_at(ts, 0)
}

/// A successful sub-parse consumes at least one token and never runs past
/// the end of the sequence, so the never-taken branches of the parsing
/// functions above indeed never fire.
pub proof fn lemma_parse_moves_forward(ts: Seq<TokenModel>, i: int)
    ensures
        spec_parse_expr(ts, i) matches Ok((t, j)) ==> i < j <= ts.len(),
        spec_parse_exprdash(ts, i) matches Ok((t, j)) ==> i <= j <= ts.len() || (i >= ts.len()
            && j == i),
        spec_parse_term(ts, i) matches Ok((t, j)) ==> i < j <= ts.len(),
        spec_parse_termdash(ts, i) matches Ok((t, j)) ==> i <= j <= ts.len() || (i >= ts.len()
            && j == i),
        spec_parse_factor(ts, i) matches Ok((t, j)) ==> i < j <= ts.len(),
    decreases ts.len() - i, 4int,
{
    lemma_parse_moves_forward_factor(ts, i);
    lemma_parse_moves_forward_term(ts, i);
    if spec_peek(ts, i) is Plus {
        lemma_parse_moves_forward_term(ts, i + 1);
        match spec_parse_term(ts, i + 1) {
            Ok((t1, j)) => lemma_parse_moves_forward(ts, j),
            _ => (),
        }
    }
    if spec_peek(ts, i) is Star {
        lemma_parse_moves_forward_factor(ts, i + 1);
        match spec_parse_factor(ts, i + 1) {
            Ok((t1, j)) => lemma_parse_moves_forward(ts, j),
            _ => (),
        }
    }
    match spec_parse_term(ts, i) {
        Ok((t1, j)) => lemma_parse_moves_forward(ts, j),
        _ => (),
    }
}

proof fn lemma_parse_moves_forward_factor(ts: Seq<TokenModel>, i: int)
    ensures
        spec_parse_factor(ts, i) matches Ok((t, j)) ==> i < j <= ts.len(),
    decreases ts.len() - i, 1int,
{
    if spec_peek(ts, i) is Bopen {
        lemma_parse_moves_forward(ts, i + 1);
    }
}

proof fn lemma_parse_moves_forward_term(ts: Seq<TokenModel>, i: int)
    ensures
        spec_parse_term(ts, i) matches Ok((t, j)) ==> i < j <= ts.len(),
    decreases ts.len() - i, 2int,
{
    lemma_parse_moves_forward_factor(ts, i);
    match spec_parse_factor(ts, i) {
        Ok((t1, j)) => lemma_parse_moves_forward(ts, j),
        _ => (),
    }
}

/// Is `t` a derivation tree for the nonterminal `k`: its root is tagged `k`
/// and its children are exactly the right-hand side of one of `k`'s
/// productions, each subtree again a derivation tree?  In particular every
/// nonterminal node has at least one child.
pub open spec fn spec_derives(t: TreeModel, k: NonTerm) -> bool
    decreases t,
{
    match t {
        TreeModel::NonTerminal(tag, cs) => tag == k && match k {
            NonTerm::Expr => cs.len() == 2 && spec_derives(cs[0], NonTerm::Term) && spec_derives(
                cs[1],
                NonTerm::ExprDash,
            ),
            NonTerm::ExprDash => (cs.len() == 1 && cs[0] is Epsilon) || (cs.len() == 3 && cs[0]
                == TreeModel::Terminal(TokenModel::Plus) && spec_derives(cs[1], NonTerm::Term)
                && spec_derives(cs[2], NonTerm::ExprDash)),
            NonTerm::Term => cs.len() == 2 && spec_derives(cs[0], NonTerm::Factor)
                && spec_derives(cs[1], NonTerm::TermDash),
            NonTerm::TermDash => (cs.len() == 1 && cs[0] is Epsilon) || (cs.len() == 3 && cs[0]
                == TreeModel::Terminal(TokenModel::Star) && spec_derives(cs[1], NonTerm::Factor)
                && spec_derives(cs[2], NonTerm::TermDash)),
            NonTerm::Factor => (cs.len() == 1 && (cs[0] matches TreeModel::Terminal(tok) && (tok
                is Identifier || tok is Number))) || (cs.len() == 3 && cs[0]
                == TreeModel::Terminal(TokenModel::Bopen) && spec_derives(cs[1], NonTerm::Expr)
                && cs[2] == TreeModel::Terminal(TokenModel::Bclose)),
        },
        TreeModel::Terminal(_) => false,
        TreeModel::Epsilon => false,
    }
}

/// Every tree a successful parse returns is a derivation tree of the
/// grammar: the arity and shape of each nonterminal node are those of the
/// production that fired, and no nonterminal node is childless.
pub proof fn lemma_parse_yields_derivation(ts: Seq<TokenModel>, i: int)
    ensures
        spec_parse_expr(ts, i) matches Ok((t, j)) ==> spec_derives(t, NonTerm::Expr),
        spec_parse_exprdash(ts, i) matches Ok((t, j)) ==> spec_derives(t, NonTerm::ExprDash),
        spec_parse_term(ts, i) matches Ok((t, j)) ==> spec_derives(t, NonTerm::Term),
        spec_parse_termdash(ts, i) matches Ok((t, j)) ==> spec_derives(t, NonTerm::TermDash),
        spec_parse_factor(ts, i) matches Ok((t, j)) ==> spec_derives(t, NonTerm::Factor),
    decreases ts.len() - i, 4int,
{
    lemma_parse_yields_derivation_factor(ts, i);
    lemma_parse_yields_derivation_term(ts, i);
    if spec_peek(ts, i) is Plus {
        lemma_parse_yields_derivation_term(ts, i + 1);
        match spec_parse_term(ts, i + 1) {
            Ok((t1, j)) => {
                if i + 1 <= j <= ts.len() {
                    lemma_parse_yields_derivation(ts, j);
                }
            }
            _ => (),
        }
    }
    if spec_peek(ts, i) is Star {
        lemma_parse_yields_derivation_factor(ts, i + 1);
        match spec_parse_factor(ts, i + 1) {
            Ok((t1, j)) => {
                if i + 1 <= j <= ts.len() {
                    lemma_parse_yields_derivation(ts, j);
                }
            }
            _ => (),
        }
    }
    match spec_parse_term(ts, i) {
        Ok((t1, j)) => {
            if i < j <= ts.len() {
                lemma_parse_yields_derivation(ts, j);
            }
        }
        _ => (),
    }
}

proof fn lemma_parse_yields_derivation_factor(ts: Seq<TokenModel>, i: int)
    ensures
        spec_parse_factor(ts, i) matches Ok((t, j)) ==> spec_derives(t, NonTerm::Factor),
    decreases ts.len() - i, 1int,
{
    if spec_peek(ts, i) is Bopen {
        lemma_parse_yields_derivation(ts, i + 1);
    }
}

proof fn lemma_parse_yields_derivation_term(ts: Seq<TokenModel>, i: int)
    ensures
        spec_parse_term(ts, i) matches Ok((t, j)) ==> spec_derives(t, NonTerm::Term),
    decreases ts.len() - i, 2int,
{
    lemma_parse_yields_derivation_factor(ts, i);
    match spec_parse_factor(ts, i) {
        Ok((t1, j)) => {
            if i < j <= ts.len() {
                lemma_parse_yields_derivation(ts, j);
            }
        }
        _ => (),
    }
}

/// A cursor over a scanned token sequence, building the parse tree by
/// recursive descent with one token of lookahead.
pub struct Parser {
    pub tokens: Vec<Token>,
    pub current: usize,
}

impl Parser {
    /// The models of the tokens the parser walks over.
    pub open spec fn toks(&self) -> Seq<TokenModel> {
        spec_tokens(self.tokens@)
    }

    /// The tokens are well formed (one final `Eof`) and the cursor stands on
    /// a token.  Every parsing step short of the final `Eof` consumption
    /// preserves this, because no step consumes `Eof`.
    pub open spec fn wf(&self) -> bool {
        &&& spec_wf_tokens(self.toks())
        &&& self.current < self.tokens@.len()
    }

    pub fn new(tokens: Vec<Token>) -> (r: Parser)
        ensures
            r.tokens == tokens,
            r.current == 0,
    {
        Parser { tokens, current: 0 }
    }

    /// The token under the cursor, without consuming it.
    fn peek(&self) -> (r: &Token)
        requires
            self.wf(),
        ensures
            *r == self.tokens@[self.current as int],
            r@ == self.toks()[self.current as int],
    {
        &self.tokens[self.current]
    }

    /// Consumes and returns the token under the cursor.
    fn consume(&mut self) -> (r: Token)
        requires
            old(self).wf(),
        ensures
            final(self).tokens == old(self).tokens,
            final(self).current == old(self).current + 1,
            r@ == old(self).toks()[old(self).current as int],
    {
        let len = self.tokens.len();
        let t = self.tokens[self.current].clone();
        assert(self.current < len);
        self.current = self.current + 1;
        t
    }

    /// After consuming a non-`Eof` token the cursor again stands on a token.
    proof fn lemma_still_on_token(&self, i: int)
        requires
            spec_wf_tokens(self.toks()),
            0 <= i < self.tokens@.len(),
            !(self.toks()[i] is Eof),
        ensures
            i + 1 < self.tokens@.len(),
    {
        assert(self.toks().len() == self.tokens@.len());
        assert(self.toks()[self.toks().len() - 1] is Eof);
    }

    /// Parses `EXPR -> TERM EXPRDASH` at the cursor.
    fn parse_expr(&mut self) -> (r: Result<ParseNode, ParseError>)
        requires
            old(self).wf(),
        ensures
            final(self).tokens == old(self).tokens,
            final(self).wf(),
            old(self).current <= final(self).current,
            match r {
                Ok(n) => spec_parse_expr(old(self).toks(), old(self).current as int) == Ok::<
                    (TreeModel, int),
                    ParseErrorModel,
                >((n@, final(self).current as int)),
                Err(e) => spec_parse_expr(old(self).toks(), old(self).current as int) == Err::<
                    (TreeModel, int),
                    ParseErrorModel,
                >(e@),
            },
        decreases self.tokens@.len() - self.current, 2int,
    {
        let t1 = match self.parse_term() {
            Ok(n) => n,
            Err(e) => {
                return Err(e);
            }
        };
        proof {
            lemma_parse_moves_forward(old(self).toks(), old(self).current as int);
        }
        let t2 = match self.parse_exprdash() {
            Ok(n) => n,
            Err(e) => {
                return Err(e);
            }
        };
        let ghost g1 = t1@;
        let ghost g2 = t2@;
        let mut children: Vec<ParseNode> = Vec::new();
        children.push(t1);
        children.push(t2);
        proof {
            lemma_spec_nodes_len(children@);
            assert(spec_nodes(children@) =~= seq![g1, g2]);
        }
        Ok(ParseNode::NonTerminal(NonTerm::Expr, children))
    }

    /// Parses `EXPRDASH` at the cursor: `'+' TERM EXPRDASH` on `+`, the
    /// epsilon production on `)` or `Eof`, an error on anything else.
    fn parse_exprdash(&mut self) -> (r: Result<ParseNode, ParseError>)
        requires
            old(self).wf(),
        ensures
            final(self).tokens == old(self).tokens,
            final(self).wf(),
            old(self).current <= final(self).current,
            match r {
                Ok(n) => spec_parse_exprdash(old(self).toks(), old(self).current as int) == Ok::<
                    (TreeModel, int),
                    ParseErrorModel,
                >((n@, final(self).current as int)),
                Err(e) => spec_parse_exprdash(old(self).toks(), old(self).current as int)
                    == Err::<(TreeModel, int), ParseErrorModel>(e@),
            },
        decreases self.tokens@.len() - self.current, 3int,
    {
        match self.peek() {
            Token::Plus => {
                proof {
                    self.lemma_still_on_token(self.current as int);
                }
                let plus_tok = self.consume();
                let t1 = match self.parse_term() {
                    Ok(n) => n,
                    Err(e) => {
                        return Err(e);
                    }
                };
                proof {
                    lemma_parse_moves_forward(old(self).toks(), old(self).current + 1);
                }
                let t2 = match self.parse_exprdash() {
                    Ok(n) => n,
                    Err(e) => {
                        return Err(e);
                    }
                };
                let ghost g0 = plus_tok@;
                let ghost g1 = t1@;
                let ghost g2 = t2@;
                let mut children: Vec<ParseNode> = Vec::new();
                children.push(ParseNode::Terminal(plus_tok));
                children.push(t1);
                children.push(t2);
                proof {
                    lemma_spec_nodes_len(children@);
                    assert(spec_nodes(children@) =~= seq![TreeModel::Terminal(g0), g1, g2]);
                }
                Ok(ParseNode::NonTerminal(NonTerm::ExprDash, children))
            }
            Token::Bclose | Token::Eof => {
                let mut children: Vec<ParseNode> = Vec::new();
                children.push(ParseNode::Epsilon);
                proof {
                    lemma_spec_nodes_len(children@);
                    assert(spec_nodes(children@) =~= seq![TreeModel::Epsilon]);
                }
                Ok(ParseNode::NonTerminal(NonTerm::ExprDash, children))
            }
            _ => {
                Err(ParseError::Unexpected { context: NonTerm::ExprDash, found: self.peek().clone() })
            }
        }
    }

    /// Parses `TERM -> FACTOR TERMDASH` at the cursor.
    fn parse_term(&mut self) -> (r: Result<ParseNode, ParseError>)
        requires
            old(self).wf(),
        ensures
            final(self).tokens == old(self).tokens,
            final(self).wf(),
            old(self).current <= final(self).current,
            match r {
                Ok(n) => spec_parse_term(old(self).toks(), old(self).current as int) == Ok::<
                    (TreeModel, int),
                    ParseErrorModel,
                >((n@, final(self).current as int)),
                Err(e) => spec_parse_term(old(self).toks(), old(self).current as int) == Err::<
                    (TreeModel, int),
                    ParseErrorModel,
                >(e@),
            },
        decreases self.tokens@.len() - self.current, 1int,
    {
        let t1 = match self.parse_factor() {
            Ok(n) => n,
            Err(e) => {
                return Err(e);
            }
        };
        proof {
            lemma_parse_moves_forward(old(self).toks(), old(self).current as int);
        }
        let t2 = match self.parse_termdash() {
            Ok(n) => n,
            Err(e) => {
                return Err(e);
            }
        };
        let ghost g1 = t1@;
        let ghost g2 = t2@;
        let mut children: Vec<ParseNode> = Vec::new();
        children.push(t1);
        children.push(t2);
        proof {
            lemma_spec_nodes_len(children@);
            assert(spec_nodes(children@) =~= seq![g1, g2]);
        }
        Ok(ParseNode::NonTerminal(NonTerm::Term, children))
    }

    /// Parses `TERMDASH` at the cursor: `'*' FACTOR TERMDASH` on `*`, the
    /// epsilon production on `+`, `)` or `Eof`, an error on anything else.
    fn parse_termdash(&mut self) -> (r: Result<ParseNode, ParseError>)
        requires
            old(self).wf(),
        ensures
            final(self).tokens == old(self).tokens,
            final(self).wf(),
            old(self).current <= final(self).current,
            match r {
                Ok(n) => spec_parse_termdash(old(self).toks(), old(self).current as int) == Ok::<
                    (TreeModel, int),
                    ParseErrorModel,
                >((n@, final(self).current as int)),
                Err(e) => spec_parse_termdash(old(self).toks(), old(self).current as int)
                    == Err::<(TreeModel, int), ParseErrorModel>(e@),
            },
        decreases self.tokens@.len() - self.current, 3int,
    {
        match self.peek() {
            Token::Star => {
                proof {
                    self.lemma_still_on_token(self.current as int);
                }
                let star_tok = self.consume();
                let t1 = match self.parse_factor() {
                    Ok(n) => n,
                    Err(e) => {
                        return Err(e);
                    }
                };
                proof {
                    lemma_parse_moves_forward(old(self).toks(), old(self).current + 1);
                }
                let t2 = match self.parse_termdash() {
                    Ok(n) => n,
                    Err(e) => {
                        return Err(e);
                    }
                };
                let ghost g0 = star_tok@;
                let ghost g1 = t1@;
                let ghost g2 = t2@;
                let mut children: Vec<ParseNode> = Vec::new();
                children.push(ParseNode::Terminal(star_tok));
                children.push(t1);
                children.push(t2);
                proof {
                    lemma_spec_nodes_len(children@);
                    assert(spec_nodes(children@) =~= seq![TreeModel::Terminal(g0), g1, g2]);
                }
                Ok(ParseNode::NonTerminal(NonTerm::TermDash, children))
            }
            Token::Plus | Token::Bclose | Token::Eof => {
                let mut children: Vec<ParseNode> = Vec::new();
                children.push(ParseNode::Epsilon);
                proof {
                    lemma_spec_nodes_len(children@);
                    assert(spec_nodes(children@) =~= seq![TreeModel::Epsilon]);
                }
                Ok(ParseNode::NonTerminal(NonTerm::TermDash, children))
            }
            _ => {
                Err(ParseError::Unexpected { context: NonTerm::TermDash, found: self.peek().clone() })
            }
        }
    }

    /// Parses `FACTOR` at the cursor: a parenthesized expression on `(`, a
    /// single leaf on an identifier or number, an error on anything else.
    fn parse_factor(&mut self) -> (r: Result<ParseNode, ParseError>)
        requires
            old(self).wf(),
        ensures
            final(self).tokens == old(self).tokens,
            final(self).wf(),
            old(self).current <= final(self).current,
            match r {
                Ok(n) => spec_parse_factor(old(self).toks(), old(self).current as int) == Ok::<
                    (TreeModel, int),
                    ParseErrorModel,
                >((n@, final(self).current as int)),
                Err(e) => spec_parse_factor(old(self).toks(), old(self).current as int) == Err::<
                    (TreeModel, int),
                    ParseErrorModel,
                >(e@),
            },
        decreases self.tokens@.len() - self.current, 0int,
    {
        match self.peek() {
            Token::Bopen => {
                proof {
                    self.lemma_still_on_token(self.current as int);
                }
                let open_tok = self.consume();
                let inner = match self.parse_expr() {
                    Ok(n) => n,
                    Err(e) => {
                        return Err(e);
                    }
                };
                if !matches!(self.peek(), Token::Bclose) {
                    return Err(ParseError::MissingClose { found: self.peek().clone() });
                }
                proof {
                    self.lemma_still_on_token(self.current as int);
                }
                let close_tok = self.consume();
                let ghost g0 = open_tok@;
                let ghost g1 = inner@;
                let ghost g2 = close_tok@;
                let mut children: Vec<ParseNode> = Vec::new();
                children.push(ParseNode::Terminal(open_tok));
                children.push(inner);
                children.push(ParseNode::Terminal(close_tok));
                proof {
                    lemma_spec_nodes_len(children@);
                    assert(spec_nodes(children@) =~= seq![
                        TreeModel::Terminal(g0),
                        g1,
                        TreeModel::Terminal(g2),
                    ]);
                }
                Ok(ParseNode::NonTerminal(NonTerm::Factor, children))
            }
            Token::Identifier(_) | Token::Number(_) => {
                proof {
                    self.lemma_still_on_token(self.current as int);
                }
                let leaf_tok = self.consume();
                let ghost g0 = leaf_tok@;
                let mut children: Vec<ParseNode> = Vec::new();
                children.push(ParseNode::Terminal(leaf_tok));
                proof {
                    lemma_spec_nodes_len(children@);
                    assert(spec_nodes(children@) =~= seq![TreeModel::Terminal(g0)]);
                }
                Ok(ParseNode::NonTerminal(NonTerm::Factor, children))
            }
            _ => {
                Err(ParseError::Unexpected { context: NonTerm::Factor, found: self.peek().clone() })
            }
        }
    }

    /// Parses the whole token sequence: one `EXPR`, then the final `Eof` is
    /// required and consumed; a structurally complete expression followed by
    /// anything else is rejected as a trailing token.
    pub fn parse(&mut self) -> (r: Result<ParseNode, ParseError>)
        requires
            old(self).wf(),
        ensures
            final(self).tokens == old(self).tokens,
            match r {
                Ok(n) => spec_parse_at(old(self).toks(), old(self).current as int) == Ok::<
                    TreeModel,
                    ParseErrorModel,
                >(n@) && spec_derives(n@, NonTerm::Expr),
                Err(e) => spec_parse_at(old(self).toks(), old(self).current as int) == Err::<
                    TreeModel,
                    ParseErrorModel,
                >(e@),
            },
    {
        let root = match self.parse_expr() {
            Ok(n) => n,
            Err(e) => {
                return Err(e);
            }
        };
        proof {
            lemma_parse_yields_derivation(old(self).toks(), old(self).current as int);
        }
        if matches!(self.peek(), Token::Eof) {
            self.consume();
            Ok(root)
        } else {
            Err(ParseError::ExtraToken { found: self.peek().clone() })
        }
    }
}

} // verus!

//! Breadth-first rendering of a parse tree: one line per depth level, the
//! labels of that level's nodes joined by single spaces, siblings kept in
//! left-to-right order.

use vstd::prelude::*;
use vstd::string::StringExecFns;

use crate::parser::NonTerm;
use crate::parser::ParseNode;
use crate::parser::TreeModel;
use crate::parser::lemma_spec_nodes_len;
use crate::parser::spec_node;
use crate::parser::spec_nodes;
use crate::token::spec_token_label;

verus! {

/// The grammar symbol's name as it appears in rendered output.
pub open spec fn spec_nonterm_name(k: NonTerm) -> Seq<char> {
    match k {
        NonTerm::Expr => "EXPR"@,
        NonTerm::ExprDash => "EXPRDASH"@,
        NonTerm::Term => "TERM"@,
        NonTerm::TermDash => "TERMDASH"@,
        NonTerm::Factor => "FACTOR"@,
    }
}

/// The grammar symbol's name, as text.
pub fn nonterm_name(k: &NonTerm) -> (r: &'static str)
    ensures
        r@ == spec_nonterm_name(*k),
{
    match k {
        NonTerm::Expr => "EXPR",
        NonTerm::ExprDash => "EXPRDASH",
        NonTerm::Term => "TERM",
        NonTerm::TermDash => "TERMDASH",
        NonTerm::Factor => "FACTOR",
    }
}

/// The label one node contributes to its level's line.
pub open spec fn spec_label(t: TreeModel) -> Seq<char> {
    match t {
        TreeModel::NonTerminal(k, _) => spec_nonterm_name(k),
        TreeModel::Terminal(tok) => spec_token_label(tok),
        TreeModel::Epsilon => "EPSILON"@,
    }
}

/// A node's children; terminals and epsilon leaves have none.
pub open spec fn spec_tree_children(t: TreeModel) -> Seq<TreeModel> {
    match t {
        TreeModel::NonTerminal(_, cs) => cs,
        TreeModel::Terminal(_) => Seq::empty(),
        TreeModel::Epsilon => Seq::empty(),
    }
}

/// The number of nodes in a tree.
pub open spec fn spec_tree_size(t: TreeModel) -> nat
    decreases t,
{
    match t {
        TreeModel::NonTerminal(_, cs) => 1 + spec_forest_size(cs),
        TreeModel::Terminal(_) => 1,
        TreeModel::Epsilon => 1,
    }
}

/// The number of nodes in a forest.
pub open spec fn spec_forest_size(fr: Seq<TreeModel>) -> nat
    decreases fr,
{
    if fr.len() == 0 {
        0
    } else {
        spec_tree_size(fr[0]) + spec_forest_size(fr.drop_first())
    }
}

proof fn lemma_forest_size_concat(a: Seq<TreeModel>, b: Seq<TreeModel>)
    ensures
        spec_forest_size(a + b) == spec_forest_size(a) + spec_forest_size(b),
    decreases a.len(),
{
    if a.len() == 0 {
        assert(a + b =~= b);
    } else {
        assert((a + b).drop_first() =~= a.drop_first() + b);
        lemma_forest_size_concat(a.drop_first(), b);
    }
}

proof fn lemma_children_size(t: TreeModel)
    ensures
        spec_forest_size(spec_tree_children(t)) < spec_tree_size(t),
{
    assert(spec_forest_size(Seq::<TreeModel>::empty()) == 0);
}

/// The next breadth-first level: all children of a level's nodes, in order.
pub open spec fn spec_next_frontier(fr: Seq<TreeModel>) -> Seq<TreeModel>
    decreases fr.len(),
{
    if fr.len() == 0 {
        Seq::empty()
    } else {
        spec_tree_children(fr[0]) + spec_next_frontier(fr.drop_first())
    }
}

proof fn lemma_next_frontier_size_le(fr: Seq<TreeModel>)
    ensures
        spec_forest_size(spec_next_frontier(fr)) + fr.len() <= spec_forest_size(fr),
    decreases fr.len(),
{
    if fr.len() == 0 {
    } else {
        lemma_children_size(fr[0]);
        lemma_next_frontier_size_le(fr.drop_first());
        lemma_forest_size_concat(spec_tree_children(fr[0]), spec_next_frontier(fr.drop_first()));
    }
}

/// Passing to the next level strictly shrinks a non-empty frontier's forest.
proof fn lemma_next_frontier_size(fr: Seq<TreeModel>)
    requires
        fr.len() > 0,
    ensures
        spec_forest_size(spec_next_frontier(fr)) < spec_forest_size(fr),
{
    lemma_next_frontier_size_le(fr);
}

/// One level's labels joined by single spaces, no leading or trailing space.
pub open spec fn spec_level_line(fr: Seq<TreeModel>) -> Seq<char>
    decreases fr.len(),
{
    if fr.len() == 0 {
        Seq::empty()
    } else if fr.len() == 1 {
        spec_label(fr[0])
    } else {
        spec_label(fr[0]) + " "@ + spec_level_line(fr.drop_first())
    }
}

proof fn lemma_level_line_push(fr: Seq<TreeModel>, x: TreeModel)
    ensures
        fr.len() == 0 ==> spec_level_line(fr.push(x)) == spec_label(x),
        fr.len() > 0 ==> spec_level_line(fr.push(x)) == spec_level_line(fr) + " "@
            + spec_label(x),
    decreases fr.len(),
{
    if fr.len() == 0 {
        assert(fr.push(x)[0] == x);
    } else {
        assert(fr.push(x).drop_first() =~= fr.drop_first().push(x));
        lemma_level_line_push(fr.drop_first(), x);
        if fr.len() == 1 {
            assert(spec_level_line(fr.push(x)) =~= spec_level_line(fr) + " "@ + spec_label(x));
        } else {
            assert(spec_level_line(fr.push(x)) =~= spec_level_line(fr) + " "@ + spec_label(x));
        }
    }
}

proof fn lemma_next_frontier_push(fr: Seq<TreeModel>, x: TreeModel)
    ensures
        spec_next_frontier(fr.push(x)) == spec_next_frontier(fr) + spec_tree_children(x),
    decreases fr.len(),
{
    if fr.len() == 0 {
        assert(fr.push(x)[0] == x);
        assert(fr.push(x).drop_first() =~= Seq::<TreeModel>::empty());
        assert(spec_next_frontier(Seq::<TreeModel>::empty()) =~= Seq::<TreeModel>::empty());
        assert(spec_next_frontier(fr.push(x)) =~= spec_next_frontier(fr) + spec_tree_children(x));
    } else {
        assert(fr.push(x).drop_first() =~= fr.drop_first().push(x));
        lemma_next_frontier_push(fr.drop_first(), x);
        assert(spec_next_frontier(fr.push(x)) =~= spec_next_frontier(fr) + spec_tree_children(x));
    }
}

/// The rendering of a whole forest, level by level: each non-empty level
/// contributes its line and a newline, and the levels proceed breadth first.
pub open spec fn spec_render_levels(fr: Seq<TreeModel>) -> Seq<char>
    decreases spec_forest_size(fr),
    via spec_render_levels_decreases
{
    if fr.len() == 0 {
        Seq::empty()
    } else {
        spec_level_line(fr) + "\n"@ + spec_render_levels(spec_next_frontier(fr))
    }
}

#[via_fn]
proof fn spec_render_levels_decreases(fr: Seq<TreeModel>) {
    if fr.len() > 0 {
        lemma_next_frontier_size(fr);
    }
}

/// The breadth-first rendering of one tree.
pub open spec fn spec_render_tree(t: TreeModel) -> Seq<char> {
    spec_render_levels(seq![t])
}

/// The models of a frontier of borrowed nodes.
pub open spec fn spec_refs(ns: Seq<&ParseNode>) -> Seq<TreeModel> {
    ns.map_values(|n: &ParseNode| spec_node(*n))
}

/// The tokens that would have been acceptable where parsing stopped: the
/// first set of the nonterminal whose lookahead failed.
pub open spec fn spec_expected_tokens(k: NonTerm) -> Seq<char> {
    match k {
        NonTerm::Expr => "'(', Identifier, or Number"@,
        NonTerm::ExprDash => "'+', ')', or EOF"@,
        NonTerm::Term => "'(', Identifier, or Number"@,
        NonTerm::TermDash => "'*', '+', ')', or EOF"@,
        NonTerm::Factor => "'(', Identifier, or Number"@,
    }
}

/// The tokens that would have been acceptable, as text.
pub fn expected_tokens(k: &NonTerm) -> (r: &'static str)
    ensures
        r@ == spec_expected_tokens(*k),
{
    match k {
        NonTerm::Expr => "'(', Identifier, or Number",
        NonTerm::ExprDash => "'+', ')', or EOF",
        NonTerm::Term => "'(', Identifier, or Number",
        NonTerm::TermDash => "'*', '+', ')', or EOF",
        NonTerm::Factor => "'(', Identifier, or Number",
    }
}

/// The human-readable description of a parse error: the nonterminal context,
/// the expected tokens, and the token actually found.
pub open spec fn spec_error_message(e: crate::parser::ParseErrorModel) -> Seq<char> {
    match e {
        crate::parser::ParseErrorModel::Unexpected { context, found } => "Parse Error in "@
            + spec_nonterm_name(context) + ": Expected "@ + spec_expected_tokens(context)
            + ", found "@ + spec_token_label(found),
        crate::parser::ParseErrorModel::MissingClose { found } =>
            "Parse Error in FACTOR: Expected ')', found "@ + spec_token_label(found),
        crate::parser::ParseErrorModel::ExtraToken { found } =>
            "Parse Error: Extra token found starting at "@ + spec_token_label(found),
    }
}

impl crate::parser::ParseError {
    /// The error's description in words, naming the nonterminal context, the
    /// expected tokens, and the token found.
    pub fn message(&self) -> (r: String)
        ensures
            r@ == spec_error_message(self@),
    {
        match self {
            crate::parser::ParseError::Unexpected { context, found } => {
                let mut r = "Parse Error in ".to_owned();
                r.append(nonterm_name(context));
                r.append(": Expected ");
                r.append(expected_tokens(context));
                r.append(", found ");
                let label = found.to_parse_tree_string();
                r.append(label.as_str());
                r
            }
            crate::parser::ParseError::MissingClose { found } => {
                let mut r = "Parse Error in FACTOR: Expected ')', found ".to_owned();
                let label = found.to_parse_tree_string();
                r.append(label.as_str());
                r
            }
            crate::parser::ParseError::ExtraToken { found } => {
                let mut r = "Parse Error: Extra token found starting at ".to_owned();
                let label = found.to_parse_tree_string();
                r.append(label.as_str());
                r
            }
        }
    }
}

/// Rendering depends on nothing but the tree itself, so rendering an
/// already-built tree again yields the same text, byte for byte.
pub proof fn lemma_render_deterministic(t1: TreeModel, t2: TreeModel)
    requires
        t1 == t2,
    ensures
        spec_render_tree(t1) == spec_render_tree(t2),
{
}

impl ParseNode {
    /// Renders the tree rooted here: one line per breadth-first level, each
    /// line the space-joined labels of that level's nodes followed by a
    /// newline, siblings in left-to-right order.
    pub fn to_bfs_string(&self) -> (r: String)
        ensures
            r@ == spec_render_tree(self@),
    {
        let mut current_level: Vec<&ParseNode> = Vec::new();
        current_level.push(self);
        let mut result = String::new();
        proof {
            assert(spec_refs(current_level@) =~= seq![self@]);
            assert(result@ + spec_render_levels(spec_refs(current_level@)) =~= spec_render_tree(
                self@,
            ));
        }
        while current_level.len() > 0
            invariant
                result@ + spec_render_levels(spec_refs(current_level@)) == spec_render_tree(
                    self@,
                ),
            decreases spec_forest_size(spec_refs(current_level@)),
        {
            let ghost fr = spec_refs(current_level@);
            let mut next_level: Vec<&ParseNode> = Vec::new();
            let mut line = String::new();
            let mut i: usize = 0;
            proof {
                assert(fr.take(0) =~= Seq::<TreeModel>::empty());
                assert(spec_refs(next_level@) =~= spec_next_frontier(fr.take(0)));
            }
            while i < current_level.len()
                invariant
                    i <= current_level.len(),
                    fr == spec_refs(current_level@),
                    line@ == spec_level_line(fr.take(i as int)),
                    spec_refs(next_level@) == spec_next_frontier(fr.take(i as int)),
                decreases current_level.len() - i,
            {
                let node: &ParseNode = current_level[i];
                proof {
                    assert(fr[i as int] == spec_node(*node));
                }
                if i > 0 {
                    line.append(" ");
                }
                match node {
                    ParseNode::NonTerminal(k, cs) => {
                        line.append(nonterm_name(k));
                        let mut j: usize = 0;
                        proof {
                            lemma_spec_nodes_len(cs@);
                            assert(spec_nodes(cs@).take(0) =~= Seq::<TreeModel>::empty());
                            assert(spec_refs(next_level@) + Seq::<TreeModel>::empty()
                                =~= spec_refs(next_level@));
                        }
                        let ghost base = spec_refs(next_level@);
                        while j < cs.len()
                            invariant
                                j <= cs.len(),
                                base == spec_next_frontier(fr.take(i as int)),
                                spec_nodes(cs@).len() == cs@.len(),
                                forall|m: int|
                                    0 <= m < cs@.len() ==> #[trigger] spec_nodes(cs@)[m]
                                        == spec_node(cs@[m]),
                                spec_refs(next_level@) == base + spec_nodes(cs@).take(j as int),
                            decreases cs.len() - j,
                        {
                            let ghost before = spec_refs(next_level@);
                            next_level.push(&cs[j]);
                            proof {
                                assert(spec_refs(next_level@) =~= before.push(
                                    spec_node(cs@[j as int]),
                                ));
                                assert(spec_nodes(cs@).take(j + 1) =~= spec_nodes(cs@).take(
                                    j as int,
                                ).push(spec_nodes(cs@)[j as int]));
                                assert(spec_refs(next_level@) =~= base + spec_nodes(cs@).take(
                                    j + 1,
                                ));
                            }
                            j = j + 1;
                        }
                        proof {
                            assert(spec_nodes(cs@).take(cs@.len() as int) =~= spec_nodes(cs@));
                            assert(spec_tree_children(fr[i as int]) == spec_nodes(cs@));
                        }
                    }
                    ParseNode::Terminal(tok) => {
                        let label = tok.to_parse_tree_string();
                        line.append(label.as_str());
                        proof {
                            assert(spec_refs(next_level@) + spec_tree_children(fr[i as int])
                                =~= spec_refs(next_level@));
                        }
                    }
                    ParseNode::Epsilon => {
                        line.append("EPSILON");
                        proof {
                            assert(spec_refs(next_level@) + spec_tree_children(fr[i as int])
                                =~= spec_refs(next_level@));
                        }
                    }
                }
                proof {
                    lemma_level_line_push(fr.take(i as int), fr[i as int]);
                    assert(fr.take(i as int).push(fr[i as int]) =~= fr.take(i + 1));
                    lemma_next_frontier_push(fr.take(i as int), fr[i as int]);
                    assert(line@ =~= spec_level_line(fr.take(i + 1)));
                }
                i = i + 1;
            }
            proof {
                assert(fr.take(current_level@.len() as int) =~= fr);
            }
            result.append(line.as_str());
            result.append("\n");
            proof {
                lemma_next_frontier_size(fr);
            }
            current_level = next_level;
            proof {
                assert(result@ + spec_render_levels(spec_refs(current_level@))
                    =~= spec_render_tree(self@));
            }
        }
        proof {
            assert(spec_refs(current_level@) =~= Seq::<TreeModel>::empty());
            assert(result@ + spec_render_levels(spec_refs(current_level@)) =~= result@);
        }
        result
    }
}

} // verus!

//! From the tree of tokens of an expression to its syntax tree.
//!
//! The operators bind in thirteen levels. A level cuts its tokens at each
//! occurrence of its operator, hands each piece to the next tighter level and
//! folds the results from the left. From the loosest to the tightest the
//! levels are `&&`, `||`, `==`, `!=`, `>`, `>=`, `<`, `<=`, `+`, `-`, `%`, `/`
//! and `*`; below them stand the atoms. So `&&` binds looser than `||`, and
//! each comparison has a level of its own.

use vstd::prelude::*;
use crate::error::Error;
use crate::expr_tokenizer::{BinaryOp, ExprToken, toks};
use crate::exprtoken_processor::{
    PTok, ProcessedExprToken, lemma_ptok_lists, lemma_ptoks, process_expr_tokens, processed,
    ptok_lists, ptoks,
};

verus! {

/// A node of the syntax tree of an expression.
#[derive(Debug, PartialEq)]
pub enum ParseExprNode {
    VarName(String),
    /// A decimal literal, as it was written.
    Number(String),
    String(String),
    Bool(bool),
    Null,
    /// A variable and one index expression for each dimension.
    VecAccess(String, Vec<ParseExprNode>),
    Vector(Vec<ParseExprNode>),
    Neg(Box<ParseExprNode>),
    Not(Box<ParseExprNode>),
    Binary(BinaryOp, Box<ParseExprNode>, Box<ParseExprNode>),
}

/// The mathematical model of a [`ParseExprNode`].
pub enum Expr {
    VarName(Seq<char>),
    Number(Seq<char>),
    String(Seq<char>),
    Bool(bool),
    Null,
    VecAccess(Seq<char>, Seq<Expr>),
    Vector(Seq<Expr>),
    Neg(Box<Expr>),
    Not(Box<Expr>),
    Binary(BinaryOp, Box<Expr>, Box<Expr>),
}

/// The model of a node.
pub open spec fn expr(n: ParseExprNode) -> Expr
    decreases n,
{
    match n {
        ParseExprNode::VarName(s) => Expr::VarName(s@),
        ParseExprNode::Number(s) => Expr::Number(s@),
        ParseExprNode::String(s) => Expr::String(s@),
        ParseExprNode::Bool(b) => Expr::Bool(b),
        ParseExprNode::Null => Expr::Null,
        ParseExprNode::VecAccess(name, index) => Expr::VecAccess(name@, exprs(index@)),
        ParseExprNode::Vector(items) => Expr::Vector(exprs(items@)),
        ParseExprNode::Neg(a) => Expr::Neg(Box::new(expr(*a))),
        ParseExprNode::Not(a) => Expr::Not(Box::new(expr(*a))),
        ParseExprNode::Binary(op, a, b) => Expr::Binary(
            op,
            Box::new(expr(*a)),
            Box::new(expr(*b)),
        ),
    }
}

/// The models of a sequence of nodes.
pub open spec fn exprs(nodes: Seq<ParseExprNode>) -> Seq<Expr>
    decreases nodes,
{
    if nodes.len() == 0 {
        Seq::empty()
    } else {
        exprs(nodes.drop_last()).push(expr(nodes.last()))
    }
}

impl View for ParseExprNode {
    type V = Expr;

    open spec fn view(&self) -> Expr {
        expr(*self)
    }
}

/// `exprs` keeps the length and models each node in its place.
pub proof fn lemma_exprs(nodes: Seq<ParseExprNode>)
    ensures
        exprs(nodes).len() == nodes.len(),
        forall|i: int| 0 <= i < nodes.len() ==> #[trigger] exprs(nodes)[i] == nodes[i]@,
    decreases nodes.len(),
{
    if nodes.len() > 0 {
        lemma_exprs(nodes.drop_last());
    }
}

/// The model of a node or an error.
pub open spec fn node_result(r: Result<ParseExprNode, Error>) -> Result<Expr, Error> {
    match r {
        Ok(n) => Ok(n@),
        Err(e) => Err(e),
    }
}

/// The model of a node that may be missing.
pub open spec fn node_option(o: Option<ParseExprNode>) -> Option<Expr> {
    match o {
        Some(n) => Some(n@),
        None => None,
    }
}

/// The number of operator levels.
pub const LEVELS: usize = 13;

/// The operator of a level, the loosest first.
pub open spec fn level_op(level: nat) -> BinaryOp {
    if level == 0 {
        BinaryOp::And
    } else if level == 1 {
        BinaryOp::Or
    } else if level == 2 {
        BinaryOp::Eq
    } else if level == 3 {
        BinaryOp::NotEq
    } else if level == 4 {
        BinaryOp::Gt
    } else if level == 5 {
        BinaryOp::Gtoe
    } else if level == 6 {
        BinaryOp::Lt
    } else if level == 7 {
        BinaryOp::Ltoe
    } else if level == 8 {
        BinaryOp::Add
    } else if level == 9 {
        BinaryOp::Sub
    } else if level == 10 {
        BinaryOp::Rem
    } else if level == 11 {
        BinaryOp::Div
    } else {
        BinaryOp::Mul
    }
}

/// The result of a level with one more operand at its right.
pub open spec fn joined_with(op: BinaryOp, left: Option<Expr>, right: Expr) -> Expr {
    match left {
        None => right,
        Some(l) => Expr::Binary(op, Box::new(l), Box::new(right)),
    }
}

/// The expression that the tokens of a range are at a level. An empty
/// range is an error at every level. Below the last level stands an atom: the
/// first token of the range; what follows it in the range is not read.
pub open spec fn parsed(tokens: Seq<PTok>, from: nat, to: nat, level: nat) -> Result<Expr, Error>
    decreases tokens, LEVELS - level, to - from + 1,
{
    if from >= to || to > tokens.len() {
        Err(Error::EmptyOperand)
    } else if level >= LEVELS {
        atom(tokens[from as int])
    } else {
        folded(tokens, from, from, to, level, None)
    }
}

/// The expression of a level whose current piece starts at `start`, with
/// the range read up to `i` and the pieces before `start` folded into `left`.
pub open spec fn folded(
    tokens: Seq<PTok>,
    start: nat,
    i: nat,
    to: nat,
    level: nat,
    left: Option<Expr>,
) -> Result<Expr, Error>
    decreases tokens, LEVELS - level, to - i,
{
    if level >= LEVELS || to > tokens.len() {
        Err(Error::EmptyOperand)
    } else if i >= to {
        match parsed(tokens, start, to, level + 1) {
            Err(e) => Err(e),
            Ok(right) => Ok(joined_with(level_op(level), left, right)),
        }
    } else if tokens[i as int] == PTok::Operator(level_op(level)) {
        match parsed(tokens, start, i, level + 1) {
            Err(e) => Err(e),
            Ok(right) => folded(
                tokens,
                i + 1,
                i + 1,
                to,
                level,
                Some(joined_with(level_op(level), left, right)),
            ),
        }
    } else {
        folded(tokens, start, i + 1, to, level, left)
    }
}

/// The expression that one token is.
pub open spec fn atom(t: PTok) -> Result<Expr, Error>
    decreases t, 0nat, 0nat,
{
    match t {
        PTok::VarName(s) => Ok(Expr::VarName(s)),
        PTok::Number(s) => Ok(Expr::Number(s)),
        PTok::String(s) => Ok(Expr::String(s)),
        PTok::Bool(b) => Ok(Expr::Bool(b)),
        PTok::Null => Ok(Expr::Null),
        PTok::VecAccess(name, lists) => match indices(lists, 0, Seq::empty()) {
            Ok(index) => Ok(Expr::VecAccess(name, index)),
            Err(e) => Err(e),
        },
        PTok::Vector(items) => if items.len() == 0 {
            Ok(Expr::Vector(Seq::empty()))
        } else {
            match elements(items, 0, 0, Seq::empty()) {
                Ok(nodes) => Ok(Expr::Vector(nodes)),
                Err(e) => Err(e),
            }
        },
        PTok::Parentheses(inner) => parsed(inner, 0, inner.len(), 0),
        PTok::Neg(a) => match atom(*a) {
            Ok(e) => Ok(Expr::Neg(Box::new(e))),
            Err(e) => Err(e),
        },
        PTok::Not(Some(a)) => match atom(*a) {
            Ok(e) => Ok(Expr::Not(Box::new(e))),
            Err(e) => Err(e),
        },
        PTok::Not(None) => Err(Error::EmptyOperand),
        PTok::Operator(_) => Err(Error::EmptyOperand),
        PTok::Comma => Err(Error::EmptyOperand),
    }
}

/// The items of a vector literal: the expressions between its commas,
/// with the current piece starting at `start`, the tokens read up to `i` and
/// the items before `start` done.
pub open spec fn elements(items: Seq<PTok>, start: nat, i: nat, done: Seq<Expr>) -> Result<
    Seq<Expr>,
    Error,
>
    decreases items, LEVELS + 1, items.len() - i,
{
    if i >= items.len() {
        match parsed(items, start, items.len(), 0) {
            Err(e) => Err(e),
            Ok(node) => Ok(done.push(node)),
        }
    } else if items[i as int] is Comma {
        match parsed(items, start, i, 0) {
            Err(e) => Err(e),
            Ok(node) => elements(items, i + 1, i + 1, done.push(node)),
        }
    } else {
        elements(items, start, i + 1, done)
    }
}

/// The index expressions of a vector access from dimension `k` on, after
/// those done already.
pub open spec fn indices(lists: Seq<Seq<PTok>>, k: nat, done: Seq<Expr>) -> Result<Seq<Expr>, Error>
    decreases lists, 0nat, lists.len() - k,
{
    if k >= lists.len() {
        Ok(done)
    } else {
        match parsed(lists[k as int], 0, lists[k as int].len(), 0) {
            Err(e) => Err(e),
            Ok(node) => indices(lists, k + 1, done.push(node)),
        }
    }
}

/// No token of the range is the operator.
pub open spec fn free_of(tokens: Seq<PTok>, from: nat, to: nat, op: BinaryOp) -> bool {
    forall|i: int| from <= i < to ==> #[trigger] tokens[i] != PTok::Operator(op)
}

/// The result of a level once its last operand is parsed.
pub open spec fn finished(op: BinaryOp, left: Option<Expr>, last: Result<Expr, Error>) -> Result<
    Expr,
    Error,
> {
    match last {
        Err(e) => Err(e),
        Ok(right) => Ok(joined_with(op, left, right)),
    }
}

/// Where the operator of a level does not occur from `i` on, the rest of
/// the range is the last operand of the level.
pub proof fn lemma_fold_without_operator(
    tokens: Seq<PTok>,
    start: nat,
    i: nat,
    to: nat,
    level: nat,
    left: Option<Expr>,
)
    requires
        level < LEVELS,
        start <= i <= to <= tokens.len(),
        free_of(tokens, i, to, level_op(level)),
    ensures
        folded(tokens, start, i, to, level, left) == finished(
            level_op(level),
            left,
            parsed(tokens, start, to, level + 1),
        ),
    decreases to - i,
{
    if i < to {
        assert(tokens[i as int] != PTok::Operator(level_op(level)));
        lemma_fold_without_operator(tokens, start, i + 1, to, level, left);
    }
}

/// A level can be cut at any occurrence of its operator: what stands
/// before the occurrence is folded first, and the fold goes on behind it.
pub proof fn lemma_fold_split(
    tokens: Seq<PTok>,
    start: nat,
    i: nat,
    p: nat,
    to: nat,
    level: nat,
    left: Option<Expr>,
)
    requires
        level < LEVELS,
        start <= i <= p < to <= tokens.len(),
        tokens[p as int] == PTok::Operator(level_op(level)),
    ensures
        folded(tokens, start, i, to, level, left) == match folded(
            tokens,
            start,
            i,
            p,
            level,
            left,
        ) {
            Err(e) => Err(e),
            Ok(l) => folded(tokens, p + 1, p + 1, to, level, Some(l)),
        },
    decreases p - i,
{
    if i < p {
        if tokens[i as int] == PTok::Operator(level_op(level)) {
            match parsed(tokens, start, i, level + 1) {
                Err(e) => {},
                Ok(right) => {
                    lemma_fold_split(
                        tokens,
                        i + 1,
                        i + 1,
                        p,
                        to,
                        level,
                        Some(joined_with(level_op(level), left, right)),
                    );
                },
            }
        } else {
            lemma_fold_split(tokens, start, i + 1, p, to, level, left);
        }
    }
}

/// Each level binds from the left: where the operator of a level occurs
/// in a range, the expression is the node of its last occurrence, with what
/// stands before it, taken at the same level, as the left operand, and what
/// stands behind it, taken at the next level, as the right operand.
pub proof fn lemma_level_binds_from_the_left(
    tokens: Seq<PTok>,
    from: nat,
    p: nat,
    to: nat,
    level: nat,
)
    requires
        level < LEVELS,
        from <= p < to <= tokens.len(),
        tokens[p as int] == PTok::Operator(level_op(level)),
        free_of(tokens, p + 1, to, level_op(level)),
    ensures
        parsed(tokens, from, to, level) == match parsed(tokens, from, p, level) {
            Err(e) => Err(e),
            Ok(l) => match parsed(tokens, p + 1, to, level + 1) {
                Err(e) => Err(e),
                Ok(r) => Ok(Expr::Binary(level_op(level), Box::new(l), Box::new(r))),
            },
        },
{
    lemma_fold_split(tokens, from, from, p, to, level, None);
    assert(parsed(tokens, from, to, level) == folded(tokens, from, from, to, level, None));
    if from == p {
        assert(parsed(tokens, from, p, level + 1) == Err::<Expr, Error>(Error::EmptyOperand));
    }
    assert(parsed(tokens, from, p, level) == folded(tokens, from, from, p, level, None));
    match folded(tokens, from, from, p, level, None) {
        Err(e) => {},
        Ok(l) => {
            lemma_fold_without_operator(tokens, p + 1, p + 1, to, level, Some(l));
        },
    }
}

/// Where the operator of a level does not occur in a range, the range is
/// an expression of the next level.
pub proof fn lemma_level_without_operator(tokens: Seq<PTok>, from: nat, to: nat, level: nat)
    requires
        level < LEVELS,
        from <= to <= tokens.len(),
        free_of(tokens, from, to, level_op(level)),
    ensures
        parsed(tokens, from, to, level) == parsed(tokens, from, to, level + 1),
{
    if from < to {
        lemma_fold_without_operator(tokens, from, from, to, level, None);
    }
}

/// A vector access gets one index expression for each of its lists of
/// index tokens.
pub proof fn lemma_indices_count(lists: Seq<Seq<PTok>>, k: nat, done: Seq<Expr>)
    requires
        k <= lists.len(),
        indices(lists, k, done) is Ok,
    ensures
        indices(lists, k, done)->Ok_0.len() == done.len() + lists.len() - k,
    decreases lists.len() - k,
{
    if k < lists.len() {
        match parsed(lists[k as int], 0, lists[k as int].len(), 0) {
            Err(e) => {},
            Ok(node) => {
                lemma_indices_count(lists, k + 1, done.push(node));
            },
        }
    }
}

/// The syntax tree of the tokens of an expression.
pub open spec fn tree_of(tokens: Seq<PTok>) -> Result<Expr, Error> {
    parsed(tokens, 0, tokens.len(), 0)
}

/// The syntax tree of the flat tokens of an expression.
pub open spec fn parse_tree(tokens: Seq<crate::expr_tokenizer::Tok>) -> Result<Expr, Error> {
    match processed(tokens) {
        Ok(tree) => tree_of(tree),
        Err(e) => Err(e),
    }
}

/// The operator of a level.
pub fn level_operator(level: usize) -> (r: BinaryOp)
    ensures
        r == level_op(level as nat),
{
    if level == 0 {
        BinaryOp::And
    } else if level == 1 {
        BinaryOp::Or
    } else if level == 2 {
        BinaryOp::Eq
    } else if level == 3 {
        BinaryOp::NotEq
    } else if level == 4 {
        BinaryOp::Gt
    } else if level == 5 {
        BinaryOp::Gtoe
    } else if level == 6 {
        BinaryOp::Lt
    } else if level == 7 {
        BinaryOp::Ltoe
    } else if level == 8 {
        BinaryOp::Add
    } else if level == 9 {
        BinaryOp::Sub
    } else if level == 10 {
        BinaryOp::Rem
    } else if level == 11 {
        BinaryOp::Div
    } else {
        BinaryOp::Mul
    }
}

fn is_operator(t: &ProcessedExprToken, op: BinaryOp) -> (r: bool)
    ensures
        r == (t@ == PTok::Operator(op)),
{
    match t {
        ProcessedExprToken::Operator(o) => *o == op,
        _ => false,
    }
}

fn is_comma(t: &ProcessedExprToken) -> (r: bool)
    ensures
        r == (t@ is Comma),
{
    match t {
        ProcessedExprToken::Comma => true,
        _ => false,
    }
}

fn join_with(op: BinaryOp, left: Option<ParseExprNode>, right: ParseExprNode) -> (r: ParseExprNode)
    ensures
        r@ == joined_with(op, node_option(left), right@),
{
    match left {
        None => right,
        Some(l) => ParseExprNode::Binary(op, Box::new(l), Box::new(right)),
    }
}

/// The expression that the tokens of a range are at a level.
pub fn parse_level(tokens: &[ProcessedExprToken], from: usize, to: usize, level: usize) -> (r:
    Result<ParseExprNode, Error>)
    requires
        to <= tokens@.len(),
    ensures
        node_result(r) == parsed(ptoks(tokens@), from as nat, to as nat, level as nat),
    decreases tokens@, LEVELS - level, to - from + 1,
{
    proof {
        lemma_ptoks(tokens@);
    }
    if from >= to {
        return Err(Error::EmptyOperand);
    }
    if level >= LEVELS {
        return parse_final_element(&tokens[from]);
    }
    let op = level_operator(level);
    let mut left: Option<ParseExprNode> = None;
    let mut start: usize = from;
    let mut i: usize = from;
    loop
        invariant
            from <= start <= i <= to <= tokens@.len(),
            level < LEVELS,
            op == level_op(level as nat),
            ptoks(tokens@).len() == tokens@.len(),
            forall|k: int| 0 <= k < tokens@.len() ==> #[trigger] ptoks(tokens@)[k] == tokens@[k]@,
            parsed(ptoks(tokens@), from as nat, to as nat, level as nat) == folded(
                ptoks(tokens@),
                start as nat,
                i as nat,
                to as nat,
                level as nat,
                node_option(left),
            ),
        decreases to + 1 - i,
    {
        if i >= to {
            return match parse_level(tokens, start, to, level + 1) {
                Err(e) => Err(e),
                Ok(right) => Ok(join_with(op, left, right)),
            };
        }
        if is_operator(&tokens[i], op) {
            match parse_level(tokens, start, i, level + 1) {
                Err(e) => {
                    return Err(e);
                },
                Ok(right) => {
                    left = Some(join_with(op, left, right));
                    i += 1;
                    start = i;
                },
            }
        } else {
            i += 1;
        }
    }
}

/// The expression that one token is.
pub fn parse_final_element(final_element: &ProcessedExprToken) -> (r: Result<ParseExprNode, Error>)
    ensures
        node_result(r) == atom(final_element@),
    decreases final_element, 0nat, 0nat,
{
    match final_element {
        ProcessedExprToken::VarName(s) => Ok(ParseExprNode::VarName(s.clone())),
        ProcessedExprToken::Number(s) => Ok(ParseExprNode::Number(s.clone())),
        ProcessedExprToken::String(s) => Ok(ParseExprNode::String(s.clone())),
        ProcessedExprToken::Bool(b) => Ok(ParseExprNode::Bool(*b)),
        ProcessedExprToken::Null => Ok(ParseExprNode::Null),
        ProcessedExprToken::VecAccess(name, lists) => parse_vector_read(name.as_str(), lists),
        ProcessedExprToken::Vector(items) => parse_vector(items),
        ProcessedExprToken::Parentheses(inner) => {
            proof {
                lemma_ptoks(inner@);
            }
            parse_level(inner.as_slice(), 0, inner.len(), 0)
        },
        ProcessedExprToken::Neg(a) => match parse_final_element(a) {
            Ok(node) => Ok(ParseExprNode::Neg(Box::new(node))),
            Err(e) => Err(e),
        },
        ProcessedExprToken::Not(Some(a)) => match parse_final_element(a) {
            Ok(node) => Ok(ParseExprNode::Not(Box::new(node))),
            Err(e) => Err(e),
        },
        ProcessedExprToken::Not(None) => Err(Error::EmptyOperand),
        ProcessedExprToken::Operator(_) => Err(Error::EmptyOperand),
        ProcessedExprToken::Comma => Err(Error::EmptyOperand),
    }
}

/// The vector literal whose tokens these are.
pub fn parse_vector(vector: &Vec<ProcessedExprToken>) -> (r: Result<ParseExprNode, Error>)
    ensures
        node_result(r) == atom(PTok::Vector(ptoks(vector@))),
    decreases vector, LEVELS + 1, 0nat,
{
    proof {
        lemma_ptoks(vector@);
    }
    if vector.len() == 0 {
        let r = ParseExprNode::Vector(Vec::new());
        assert(exprs(Seq::<ParseExprNode>::empty()) =~= Seq::<Expr>::empty());
        return Ok(r);
    }
    let mut nodes: Vec<ParseExprNode> = Vec::new();
    let mut start: usize = 0;
    let mut i: usize = 0;
    loop
        invariant
            start <= i <= vector@.len(),
            vector@.len() > 0,
            ptoks(vector@).len() == vector@.len(),
            forall|k: int| 0 <= k < vector@.len() ==> #[trigger] ptoks(vector@)[k] == vector@[k]@,
            elements(ptoks(vector@), 0, 0, Seq::empty()) == elements(
                ptoks(vector@),
                start as nat,
                i as nat,
                exprs(nodes@),
            ),
        decreases vector@.len() + 1 - i,
    {
        let ghost before = nodes@;
        if i >= vector.len() {
            match parse_level(vector.as_slice(), start, vector.len(), 0) {
                Err(e) => {
                    return Err(e);
                },
                Ok(node) => {
                    nodes.push(node);
                    assert(nodes@.drop_last() =~= before);
                    assert(elements(ptoks(vector@), start as nat, i as nat, exprs(before))
                        == Ok::<Seq<Expr>, Error>(exprs(nodes@)));
                    return Ok(ParseExprNode::Vector(nodes));
                },
            }
        }
        if is_comma(&vector[i]) {
            match parse_level(vector.as_slice(), start, i, 0) {
                Err(e) => {
                    return Err(e);
                },
                Ok(node) => {
                    nodes.push(node);
                    assert(nodes@.drop_last() =~= before);
                    i += 1;
                    start = i;
                },
            }
        } else {
            i += 1;
        }
    }
}

/// The vector access with this name and these lists of index tokens.
pub fn parse_vector_read(name: &str, index_expr: &Vec<Vec<ProcessedExprToken>>) -> (r: Result<
    ParseExprNode,
    Error,
>)
    ensures
        node_result(r) == atom(PTok::VecAccess(name@, ptok_lists(index_expr@))),
    decreases index_expr, 0nat, 0nat,
{
    proof {
        lemma_ptok_lists(index_expr@);
    }
    let mut nodes: Vec<ParseExprNode> = Vec::new();
    let mut k: usize = 0;
    while k < index_expr.len()
        invariant
            k <= index_expr@.len(),
            ptok_lists(index_expr@).len() == index_expr@.len(),
            forall|j: int|
                0 <= j < index_expr@.len() ==> #[trigger] ptok_lists(index_expr@)[j] == ptoks(
                    index_expr@[j]@,
                ),
            indices(ptok_lists(index_expr@), 0, Seq::empty()) == indices(
                ptok_lists(index_expr@),
                k as nat,
                exprs(nodes@),
            ),
        decreases index_expr@.len() - k,
    {
        let ghost before = nodes@;
        let list = &index_expr[k];
        proof {
            lemma_ptoks(list@);
        }
        match parse_level(list.as_slice(), 0, list.len(), 0) {
            Err(e) => {
                return Err(e);
            },
            Ok(node) => {
                nodes.push(node);
                assert(nodes@.drop_last() =~= before);
            },
        }
        k += 1;
    }
    Ok(ParseExprNode::VecAccess(String::from_str(name), nodes))
}

/// The syntax tree of an expression, from its flat tokens. Fails as the
/// token processor does, and with `EmptyOperand` where an operand is missing.
pub fn parse_expr(tokens: &[ExprToken]) -> (r: Result<ParseExprNode, Error>)
    ensures
        node_result(r) == parse_tree(toks(tokens@)),
{
    match process_expr_tokens(tokens) {
        Err(e) => Err(e),
        Ok(tree) => {
            proof {
                lemma_ptoks(tree@);
            }
            parse_level(tree.as_slice(), 0, tree.len(), 0)
        },
    }
}

} // verus!

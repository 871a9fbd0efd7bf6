//! From the tokens of a program to its statements.

use vstd::prelude::*;
use crate::error::Error;
use crate::expr_parser::{Expr, ParseExprNode, exprs, node_result, parse_expr, parse_tree};
use crate::expr_tokenizer::{tokenize_expr, tokenized};
use crate::text::{find_char, first_of, trim, trimmed};
use crate::tokenizer::{Token, Word, words};

verus! {

/// A statement.
#[derive(Debug, PartialEq)]
pub enum ParseNode {
    /// A condition, the block to run where it holds, and perhaps the block
    /// to run where it does not.
    If(ParseExprNode, Vec<ParseNode>, Option<Vec<ParseNode>>),
    /// A condition and the block to run as long as it holds.
    While(ParseExprNode, Vec<ParseNode>),
    /// A name and the expression whose value it gets.
    Assignation(String, ParseExprNode),
    /// The name of a vector, one index expression for each dimension, and
    /// the expression whose value is written.
    VecWrite(String, Vec<ParseExprNode>, ParseExprNode),
    Expression(ParseExprNode),
    Print(ParseExprNode),
}

/// The mathematical model of a [`ParseNode`].
pub enum Stmt {
    If(Expr, Seq<Stmt>, Option<Seq<Stmt>>),
    While(Expr, Seq<Stmt>),
    Assignation(Seq<char>, Expr),
    VecWrite(Seq<char>, Seq<Expr>, Expr),
    Expression(Expr),
    Print(Expr),
}

/// The model of a statement.
pub open spec fn stmt(n: ParseNode) -> Stmt
    decreases n,
{
    match n {
        ParseNode::If(cond, then_block, None) => Stmt::If(cond@, stmts(then_block@), None),
        ParseNode::If(cond, then_block, Some(else_block)) => Stmt::If(
            cond@,
            stmts(then_block@),
            Some(stmts(else_block@)),
        ),
        ParseNode::While(cond, body) => Stmt::While(cond@, stmts(body@)),
        ParseNode::Assignation(name, value) => Stmt::Assignation(name@, value@),
        ParseNode::VecWrite(name, index, value) => Stmt::VecWrite(name@, exprs(index@), value@),
        ParseNode::Expression(e) => Stmt::Expression(e@),
        ParseNode::Print(e) => Stmt::Print(e@),
    }
}

/// The models of a sequence of statements.
pub open spec fn stmts(nodes: Seq<ParseNode>) -> Seq<Stmt>
    decreases nodes,
{
    if nodes.len() == 0 {
        Seq::empty()
    } else {
        stmts(nodes.drop_last()).push(stmt(nodes.last()))
    }
}

impl View for ParseNode {
    type V = Stmt;

    open spec fn view(&self) -> Stmt {
        stmt(*self)
    }
}

/// `stmts` keeps the length and models each statement in its place.
pub proof fn lemma_stmts(nodes: Seq<ParseNode>)
    ensures
        stmts(nodes).len() == nodes.len(),
        forall|i: int| 0 <= i < nodes.len() ==> #[trigger] stmts(nodes)[i] == nodes[i]@,
    decreases nodes.len(),
{
    if nodes.len() > 0 {
        lemma_stmts(nodes.drop_last());
    }
}

/// The model of a list of statements or an error.
pub open spec fn stmts_result(r: Result<Vec<ParseNode>, Error>) -> Result<Seq<Stmt>, Error> {
    match r {
        Ok(nodes) => Ok(stmts(nodes@)),
        Err(e) => Err(e),
    }
}

/// The syntax tree of the text of an expression.
pub open spec fn expression_of(text: Seq<char>) -> Result<Expr, Error> {
    match tokenized(text) {
        Ok(tokens) => parse_tree(tokens),
        Err(e) => Err(e),
    }
}

/// The place before `to` of the `}` that closes the block whose inside
/// starts at `from`, with `depth` more blocks open inside it.
pub open spec fn closing_brace(tokens: Seq<Word>, from: nat, to: nat, depth: nat) -> Option<nat>
    decreases to - from,
{
    if from >= to || to > tokens.len() {
        None
    } else if tokens[from as int] is CloseCBrackets {
        if depth == 0 {
            Some(from)
        } else {
            closing_brace(tokens, from + 1, to, (depth - 1) as nat)
        }
    } else if tokens[from as int] is OpenCBrackets {
        closing_brace(tokens, from + 1, to, depth + 1)
    } else {
        closing_brace(tokens, from + 1, to, depth)
    }
}

/// A closing brace that was found lies in the range.
pub proof fn lemma_closing_brace(tokens: Seq<Word>, from: nat, to: nat, depth: nat)
    ensures
        closing_brace(tokens, from, to, depth) matches Some(j) ==> from <= j < to && to
            <= tokens.len() && tokens[j as int] is CloseCBrackets,
    decreases to - from,
{
    if from >= to || to > tokens.len() {
    } else if tokens[from as int] is CloseCBrackets {
        if depth != 0 {
            lemma_closing_brace(tokens, from + 1, to, (depth - 1) as nat);
        }
    } else if tokens[from as int] is OpenCBrackets {
        lemma_closing_brace(tokens, from + 1, to, depth + 1);
    } else {
        lemma_closing_brace(tokens, from + 1, to, depth);
    }
}

/// What a token adds to the number of open blocks.
pub open spec fn brace_weight(t: Word) -> int {
    if t is OpenCBrackets {
        1
    } else if t is CloseCBrackets {
        -1
    } else {
        0
    }
}

/// The blocks that the tokens from `a` up to `b` open, less those that
/// they close.
pub open spec fn open_blocks(tokens: Seq<Word>, a: nat, b: nat) -> int
    decreases b - a,
{
    if a >= b {
        0
    } else {
        brace_weight(tokens[a as int]) + open_blocks(tokens, a + 1, b)
    }
}

/// The closing brace that was found is the one that matches: up to it the
/// tokens close as many blocks as were open and as they open, and no brace
/// before it does so.
pub proof fn lemma_closing_brace_balances(tokens: Seq<Word>, from: nat, to: nat, depth: nat)
    requires
        closing_brace(tokens, from, to, depth) is Some,
    ensures
        depth + open_blocks(tokens, from, closing_brace(tokens, from, to, depth)->0) == 0,
        forall|m: nat|
            from <= m <= closing_brace(tokens, from, to, depth)->0 ==> depth
                + #[trigger] open_blocks(tokens, from, m) >= 0,
        forall|m: nat|
            from <= m < closing_brace(tokens, from, to, depth)->0
                && tokens[m as int] is CloseCBrackets ==> depth + #[trigger] open_blocks(
                tokens,
                from,
                m,
            ) >= 1,
    decreases to - from,
{
    let j = closing_brace(tokens, from, to, depth)->0;
    if !(tokens[from as int] is CloseCBrackets && depth == 0) {
        let inner: nat = if tokens[from as int] is CloseCBrackets {
            (depth - 1) as nat
        } else if tokens[from as int] is OpenCBrackets {
            depth + 1
        } else {
            depth
        };
        lemma_closing_brace(tokens, from + 1, to, inner);
        lemma_closing_brace_balances(tokens, from + 1, to, inner);
        assert forall|m: nat| from <= m <= j implies depth + #[trigger] open_blocks(
            tokens,
            from,
            m,
        ) >= 0 by {
            if m > from {
                assert(inner + open_blocks(tokens, from + 1, m) >= 0);
            }
        }
        assert forall|m: nat| from <= m < j && tokens[m as int] is CloseCBrackets implies depth
            + #[trigger] open_blocks(tokens, from, m) >= 1 by {
            if m > from {
                assert(inner + open_blocks(tokens, from + 1, m) >= 1);
            }
        }
    }
}

/// The place behind the block whose `{` stands at `open`, or `to` where
/// the block is not closed.
pub open spec fn block_end(tokens: Seq<Word>, open: nat, to: nat) -> nat {
    match closing_brace(tokens, open + 1, to, 0) {
        Some(j) => j + 1,
        None => to,
    }
}

/// The place behind the `if` statement that starts at `from`, or `to`
/// where the statement is broken.
pub open spec fn if_end(tokens: Seq<Word>, from: nat, to: nat) -> nat {
    let end = block_end(tokens, from + 2, to);
    if end < to && tokens[end as int] is Else {
        if end + 1 < to && tokens[end as int + 1] is OpenCBrackets {
            block_end(tokens, end + 1, to)
        } else {
            to
        }
    } else {
        end
    }
}

/// A statement ends behind where it starts and inside the range.
pub proof fn lemma_ends(tokens: Seq<Word>, from: nat, to: nat)
    requires
        from < to,
    ensures
        from < block_end(tokens, from + 2, to) <= to,
        from < if_end(tokens, from, to) <= to,
{
    lemma_closing_brace(tokens, from + 3, to, 0);
    let end = block_end(tokens, from + 2, to);
    lemma_closing_brace(tokens, end + 2, to, 0);
}

/// Whether the character stands in the text.
pub open spec fn has_char(s: Seq<char>, c: char) -> bool {
    first_of(s, c, 0) < s.len()
}

/// The statement that an assignment line is. The line is cut at its first
/// `=`. Where the left side holds `[` and `]`, it has to be a vector access,
/// and the statement writes into the vector.
pub open spec fn assignment(text: Seq<char>) -> Result<Stmt, Error> {
    let cut = first_of(text, '=', 0);
    if cut >= text.len() {
        Err(Error::MalformedAssignment)
    } else {
        let dest = trimmed(text.subrange(0, cut as int));
        match expression_of(text.subrange(cut as int + 1, text.len() as int)) {
            Err(e) => Err(e),
            Ok(value) => if has_char(dest, '[') && has_char(dest, ']') {
                match expression_of(dest) {
                    Err(e) => Err(e),
                    Ok(Expr::VecAccess(name, index)) => Ok(Stmt::VecWrite(name, index, value)),
                    Ok(_) => Err(Error::MalformedVectorWrite),
                }
            } else {
                Ok(Stmt::Assignation(dest, value))
            },
        }
    }
}

/// The text of the expression token at a place, if one stands there.
pub open spec fn expression_at(tokens: Seq<Word>, at: nat, to: nat) -> Option<Seq<char>> {
    if at < to && at < tokens.len() {
        match tokens[at as int] {
            Word::Expression(text) => Some(text),
            _ => None,
        }
    } else {
        None
    }
}

/// A `{` stands at the place.
pub open spec fn brace_at(tokens: Seq<Word>, at: nat, to: nat) -> bool {
    at < to && at < tokens.len() && tokens[at as int] is OpenCBrackets
}

/// The `if` statement that starts at `from`: the condition, a block, and
/// a second block where `else` follows the first.
pub open spec fn if_node(tokens: Seq<Word>, from: nat, to: nat) -> Result<Stmt, Error>
    decreases to - from, 0nat,
{
    match expression_at(tokens, from + 1, to) {
        None => Err(Error::EmptyOperand),
        Some(text) => if !brace_at(tokens, from + 2, to) {
            Err(Error::UnmatchedBrace)
        } else {
            match expression_of(text) {
                Err(e) => Err(e),
                Ok(cond) => match closing_brace(tokens, from + 3, to, 0) {
                    None => Err(Error::UnmatchedBrace),
                    Some(j) => {
                        proof {
                            lemma_closing_brace(tokens, from + 3, to, 0);
                        }
                        match parsed_block(tokens, from + 3, j, Seq::empty(), None) {
                            Err(e) => Err(e),
                            Ok(then_block) => if j + 1 < to && tokens[j as int + 1] is Else {
                                if !brace_at(tokens, j + 2, to) {
                                    Err(Error::UnmatchedBrace)
                                } else {
                                    match closing_brace(tokens, j + 3, to, 0) {
                                        None => Err(Error::UnmatchedBrace),
                                        Some(k) => {
                                            proof {
                                                lemma_closing_brace(tokens, j + 3, to, 0);
                                            }
                                            match parsed_block(
                                                tokens,
                                                j + 3,
                                                k,
                                                Seq::empty(),
                                                None,
                                            ) {
                                                Err(e) => Err(e),
                                                Ok(else_block) => Ok(
                                                    Stmt::If(cond, then_block, Some(else_block)),
                                                ),
                                            }
                                        },
                                    }
                                }
                            } else {
                                Ok(Stmt::If(cond, then_block, None))
                            },
                        }
                    },
                },
            }
        },
    }
}

/// The `while` statement that starts at `from`: the condition and a block.
pub open spec fn while_node(tokens: Seq<Word>, from: nat, to: nat) -> Result<Stmt, Error>
    decreases to - from, 0nat,
{
    match expression_at(tokens, from + 1, to) {
        None => Err(Error::EmptyOperand),
        Some(text) => if !brace_at(tokens, from + 2, to) {
            Err(Error::UnmatchedBrace)
        } else {
            match closing_brace(tokens, from + 3, to, 0) {
                None => Err(Error::UnmatchedBrace),
                Some(j) => {
                    proof {
                        lemma_closing_brace(tokens, from + 3, to, 0);
                    }
                    match parsed_block(tokens, from + 3, j, Seq::empty(), None) {
                        Err(e) => Err(e),
                        Ok(body) => match expression_of(text) {
                            Err(e) => Err(e),
                            Ok(cond) => Ok(Stmt::While(cond, body)),
                        },
                    }
                },
            }
        },
    }
}

/// The `print` statement that starts at `from`.
pub open spec fn print_node(tokens: Seq<Word>, from: nat, to: nat) -> Result<Stmt, Error> {
    match expression_at(tokens, from + 1, to) {
        None => Err(Error::EmptyOperand),
        Some(text) => match expression_of(text) {
            Err(e) => Err(e),
            Ok(e) => Ok(Stmt::Print(e)),
        },
    }
}

/// The result of a block once its tokens are read: its statements, unless
/// a stray token was met.
pub open spec fn checked_block(done: Seq<Stmt>, stray: Option<Error>) -> Result<Seq<Stmt>, Error> {
    match stray {
        None => Ok(done),
        Some(e) => Err(e),
    }
}

/// The statements of the tokens of a range, after those done already. A
/// brace or an `else` that belongs to no statement is remembered in `stray`
/// and fails the block at its end, the last one met first; any other error
/// fails it at once.
pub open spec fn parsed_block(
    tokens: Seq<Word>,
    from: nat,
    to: nat,
    done: Seq<Stmt>,
    stray: Option<Error>,
) -> Result<Seq<Stmt>, Error>
    decreases to - from, 1nat,
{
    if from >= to || to > tokens.len() {
        checked_block(done, stray)
    } else {
        match tokens[from as int] {
            Word::If => match if_node(tokens, from, to) {
                Err(e) => Err(e),
                Ok(node) => {
                    proof {
                        lemma_ends(tokens, from, to);
                    }
                    parsed_block(tokens, if_end(tokens, from, to), to, done.push(node), stray)
                },
            },
            Word::While => match while_node(tokens, from, to) {
                Err(e) => Err(e),
                Ok(node) => {
                    proof {
                        lemma_ends(tokens, from, to);
                    }
                    parsed_block(
                        tokens,
                        block_end(tokens, from + 2, to),
                        to,
                        done.push(node),
                        stray,
                    )
                },
            },
            Word::Print => match print_node(tokens, from, to) {
                Err(e) => Err(e),
                Ok(node) => parsed_block(tokens, from + 2, to, done.push(node), stray),
            },
            Word::Assignation(text) => match assignment(text) {
                Err(e) => Err(e),
                Ok(node) => parsed_block(tokens, from + 1, to, done.push(node), stray),
            },
            Word::Expression(text) => match expression_of(text) {
                Err(e) => Err(e),
                Ok(e) => parsed_block(tokens, from + 1, to, done.push(Stmt::Expression(e)), stray),
            },
            Word::Else => parsed_block(tokens, from + 1, to, done, Some(Error::UnmatchedElse)),
            Word::OpenCBrackets => parsed_block(
                tokens,
                from + 1,
                to,
                done,
                Some(Error::UnmatchedBrace),
            ),
            Word::CloseCBrackets => parsed_block(
                tokens,
                from + 1,
                to,
                done,
                Some(Error::UnmatchedBrace),
            ),
        }
    }
}

/// The statements of a program.
pub open spec fn program(tokens: Seq<Word>) -> Result<Seq<Stmt>, Error> {
    parsed_block(tokens, 0, tokens.len(), Seq::empty(), None)
}

/// The model of a statement or an error.
pub open spec fn stmt_result(r: Result<ParseNode, Error>) -> Result<Stmt, Error> {
    match r {
        Ok(n) => Ok(n@),
        Err(e) => Err(e),
    }
}

/// The result where the condition holds, the error where it does not.
pub fn check_result<T>(condition: bool, result: T, error: Error) -> (r: Result<T, Error>)
    ensures
        r == if condition {
            Ok::<T, Error>(result)
        } else {
            Err::<T, Error>(error)
        },
{
    if condition {
        Ok(result)
    } else {
        Err(error)
    }
}

fn is_open_brace(t: &Token) -> (r: bool)
    ensures
        r == (t@ is OpenCBrackets),
{
    match t {
        Token::OpenCBrackets => true,
        _ => false,
    }
}

fn is_close_brace(t: &Token) -> (r: bool)
    ensures
        r == (t@ is CloseCBrackets),
{
    match t {
        Token::CloseCBrackets => true,
        _ => false,
    }
}

fn is_else(t: &Token) -> (r: bool)
    ensures
        r == (t@ is Else),
{
    match t {
        Token::Else => true,
        _ => false,
    }
}

/// The place before `to` of the `}` that closes the block whose inside
/// starts at `from`.
pub fn find_matching_bracket(tokens: &[Token], from: usize, to: usize) -> (r: Result<usize, Error>)
    requires
        from <= to <= tokens@.len(),
    ensures
        match closing_brace(words(tokens@), from as nat, to as nat, 0) {
            Some(j) => r == Ok::<usize, Error>(j as usize) && from <= j < to,
            None => r == Err::<usize, Error>(Error::UnmatchedBrace),
        },
{
    let mut depth: usize = 0;
    let mut i: usize = from;
    while i < to
        invariant
            from <= i <= to <= tokens@.len(),
            depth <= i - from,
            closing_brace(words(tokens@), from as nat, to as nat, 0) == closing_brace(
                words(tokens@),
                i as nat,
                to as nat,
                depth as nat,
            ),
        decreases to - i,
    {
        if is_close_brace(&tokens[i]) {
            if depth == 0 {
                return Ok(i);
            }
            depth -= 1;
        } else if is_open_brace(&tokens[i]) {
            depth += 1;
        }
        i += 1;
    }
    Err(Error::UnmatchedBrace)
}

/// The syntax tree of the text of an expression.
pub fn parse_expression(expression: &str) -> (r: Result<ParseExprNode, Error>)
    ensures
        node_result(r) == expression_of(expression@),
{
    match tokenize_expr(expression) {
        Err(e) => Err(e),
        Ok(tokens) => parse_expr(tokens.as_slice()),
    }
}

/// The statement that an assignment line is.
pub fn parse_assignation(assignation_str: &str) -> (r: Result<ParseNode, Error>)
    ensures
        stmt_result(r) == assignment(assignation_str@),
{
    let n: usize = assignation_str.unicode_len();
    let cut: usize = find_char(assignation_str, '=');
    if cut >= n {
        return Err(Error::MalformedAssignment);
    }
    let dest = trim(assignation_str.substring_char(0, cut));
    let value = match parse_expression(assignation_str.substring_char(cut + 1, n)) {
        Err(e) => {
            return Err(e);
        },
        Ok(value) => value,
    };
    let m: usize = dest.as_str().unicode_len();
    if find_char(dest.as_str(), '[') < m && find_char(dest.as_str(), ']') < m {
        match parse_expression(dest.as_str()) {
            Err(e) => Err(e),
            Ok(ParseExprNode::VecAccess(name, index)) => Ok(
                ParseNode::VecWrite(name, index, value),
            ),
            Ok(_) => Err(Error::MalformedVectorWrite),
        }
    } else {
        Ok(ParseNode::Assignation(dest, value))
    }
}

fn expression_text(tokens: &[Token], at: usize, to: usize) -> (r: Option<&String>)
    requires
        to <= tokens@.len(),
    ensures
        match r {
            Some(text) => expression_at(words(tokens@), at as nat, to as nat) == Some(text@),
            None => expression_at(words(tokens@), at as nat, to as nat) is None,
        },
{
    if at < to {
        match &tokens[at] {
            Token::Expression(text) => Some(text),
            _ => None,
        }
    } else {
        None
    }
}

fn has_brace(tokens: &[Token], at: usize, to: usize) -> (r: bool)
    requires
        to <= tokens@.len(),
    ensures
        r == brace_at(words(tokens@), at as nat, to as nat),
{
    at < to && is_open_brace(&tokens[at])
}

/// The `print` statement that starts at `i`.
pub fn parse_print(tokens: &[Token], i: usize, to: usize) -> (r: Result<ParseNode, Error>)
    requires
        i < to <= tokens@.len(),
    ensures
        stmt_result(r) == print_node(words(tokens@), i as nat, to as nat),
{
    match expression_text(tokens, i + 1, to) {
        None => Err(Error::EmptyOperand),
        Some(text) => match parse_expression(text.as_str()) {
            Err(e) => Err(e),
            Ok(e) => Ok(ParseNode::Print(e)),
        },
    }
}

/// The `if` statement that starts at `i`, and the place behind it.
pub fn parse_if(tokens: &[Token], i: usize, to: usize) -> (r: Result<(ParseNode, usize), Error>)
    requires
        i < to <= tokens@.len(),
    ensures
        match if_node(words(tokens@), i as nat, to as nat) {
            Err(e) => r matches Err(x) && x == e,
            Ok(node) => r matches Ok((n, next)) && n@ == node && next == if_end(
                words(tokens@),
                i as nat,
                to as nat,
            ) && i < next <= to,
        },
    decreases to - i, 0nat,
{
    let text = match expression_text(tokens, i + 1, to) {
        None => {
            return Err(Error::EmptyOperand);
        },
        Some(text) => text,
    };
    if !has_brace(tokens, i + 2, to) {
        return Err(Error::UnmatchedBrace);
    }
    let cond = match parse_expression(text.as_str()) {
        Err(e) => {
            return Err(e);
        },
        Ok(cond) => cond,
    };
    let j = match find_matching_bracket(tokens, i + 3, to) {
        Err(e) => {
            return Err(e);
        },
        Ok(j) => j,
    };
    let then_block = match parse_block(tokens, i + 3, j) {
        Err(e) => {
            return Err(e);
        },
        Ok(block) => block,
    };
    if j + 1 < to && is_else(&tokens[j + 1]) {
        if !has_brace(tokens, j + 2, to) {
            return Err(Error::UnmatchedBrace);
        }
        let k = match find_matching_bracket(tokens, j + 3, to) {
            Err(e) => {
                return Err(e);
            },
            Ok(k) => k,
        };
        match parse_block(tokens, j + 3, k) {
            Err(e) => Err(e),
            Ok(else_block) => Ok((ParseNode::If(cond, then_block, Some(else_block)), k + 1)),
        }
    } else {
        Ok((ParseNode::If(cond, then_block, None), j + 1))
    }
}

/// The `while` statement that starts at `i`, and the place behind it.
pub fn parse_while(tokens: &[Token], i: usize, to: usize) -> (r: Result<(ParseNode, usize), Error>)
    requires
        i < to <= tokens@.len(),
    ensures
        match while_node(words(tokens@), i as nat, to as nat) {
            Err(e) => r matches Err(x) && x == e,
            Ok(node) => r matches Ok((n, next)) && n@ == node && next == block_end(
                words(tokens@),
                i as nat + 2,
                to as nat,
            ) && i < next <= to,
        },
    decreases to - i, 0nat,
{
    let text = match expression_text(tokens, i + 1, to) {
        None => {
            return Err(Error::EmptyOperand);
        },
        Some(text) => text,
    };
    if !has_brace(tokens, i + 2, to) {
        return Err(Error::UnmatchedBrace);
    }
    let j = match find_matching_bracket(tokens, i + 3, to) {
        Err(e) => {
            return Err(e);
        },
        Ok(j) => j,
    };
    let body = match parse_block(tokens, i + 3, j) {
        Err(e) => {
            return Err(e);
        },
        Ok(block) => block,
    };
    match parse_expression(text.as_str()) {
        Err(e) => Err(e),
        Ok(cond) => Ok((ParseNode::While(cond, body), j + 1)),
    }
}

/// The statements of the tokens from `from` to `to`.
pub fn parse_block(tokens: &[Token], from: usize, to: usize) -> (r: Result<Vec<ParseNode>, Error>)
    requires
        from <= to <= tokens@.len(),
    ensures
        stmts_result(r) == parsed_block(
            words(tokens@),
            from as nat,
            to as nat,
            Seq::empty(),
            None,
        ),
    decreases to - from, 1nat,
{
    let mut ast: Vec<ParseNode> = Vec::new();
    let mut stray: Option<Error> = None;
    let mut i: usize = from;
    while i < to
        invariant
            from <= i <= to <= tokens@.len(),
            parsed_block(words(tokens@), from as nat, to as nat, Seq::empty(), None)
                == parsed_block(words(tokens@), i as nat, to as nat, stmts(ast@), stray),
        decreases to - i,
    {
        let ghost before = ast@;
        match &tokens[i] {
            Token::If => match parse_if(tokens, i, to) {
                Err(e) => {
                    return Err(e);
                },
                Ok((node, next)) => {
                    ast.push(node);
                    assert(ast@.drop_last() =~= before);
                    i = next;
                },
            },
            Token::While => match parse_while(tokens, i, to) {
                Err(e) => {
                    return Err(e);
                },
                Ok((node, next)) => {
                    ast.push(node);
                    assert(ast@.drop_last() =~= before);
                    i = next;
                },
            },
            Token::Print => match parse_print(tokens, i, to) {
                Err(e) => {
                    return Err(e);
                },
                Ok(node) => {
                    ast.push(node);
                    assert(ast@.drop_last() =~= before);
                    i += 2;
                },
            },
            Token::Assignation(text) => match parse_assignation(text.as_str()) {
                Err(e) => {
                    return Err(e);
                },
                Ok(node) => {
                    ast.push(node);
                    assert(ast@.drop_last() =~= before);
                    i += 1;
                },
            },
            Token::Expression(text) => match parse_expression(text.as_str()) {
                Err(e) => {
                    return Err(e);
                },
                Ok(e) => {
                    let node = ParseNode::Expression(e);
                    assert(node@ == Stmt::Expression(e@));
                    ast.push(node);
                    assert(ast@.drop_last() =~= before);
                    i += 1;
                },
            },
            Token::Else => {
                stray = Some(Error::UnmatchedElse);
                i += 1;
            },
            Token::OpenCBrackets => {
                stray = Some(Error::UnmatchedBrace);
                i += 1;
            },
            Token::CloseCBrackets => {
                stray = Some(Error::UnmatchedBrace);
                i += 1;
            },
        }
    }
    match stray {
        None => check_result(true, ast, Error::UnmatchedBrace),
        Some(e) => check_result(false, ast, e),
    }
}

/// The statements of a program. Fails with `EmptyOperand` where `if`,
/// `while` or `print` lacks its expression, with `UnmatchedBrace` where a
/// block is not opened or not closed or a brace stands alone, with
/// `UnmatchedElse` where `else` follows no block, with `MalformedAssignment`
/// and `MalformedVectorWrite` on such lines, and as the expression parser
/// does.
pub fn parse(tokens: &[Token]) -> (r: Result<Vec<ParseNode>, Error>)
    ensures
        stmts_result(r) == program(words(tokens@)),
{
    parse_block(tokens, 0, tokens.len())
}

} // verus!

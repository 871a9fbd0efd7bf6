//! From the flat tokens of an expression to a tree of tokens: each pair of
//! brackets becomes one node, a chain of index brackets behind a name becomes
//! one vector access, and a unary `-` or `!` takes the token behind it.

use vstd::prelude::*;
use crate::error::Error;
use crate::expr_tokenizer::{BinaryOp, ExprToken, Tok, toks};

verus! {

/// A token after the brackets are resolved.
#[derive(Debug, PartialEq)]
pub enum ProcessedExprToken {
    VarName(String),
    Number(String),
    String(String),
    Bool(bool),
    Null,
    /// A name and one list of tokens for each index behind it.
    VecAccess(String, Vec<Vec<ProcessedExprToken>>),
    /// The tokens between `[` and `]`.
    Vector(Vec<ProcessedExprToken>),
    /// The tokens between `(` and `)`.
    Parentheses(Vec<ProcessedExprToken>),
    Operator(BinaryOp),
    /// `!`, with the token that it negates once that is attached.
    Not(Option<Box<ProcessedExprToken>>),
    Comma,
    /// A unary `-` and the token that it negates.
    Neg(Box<ProcessedExprToken>),
}

/// The mathematical model of a [`ProcessedExprToken`].
pub enum PTok {
    VarName(Seq<char>),
    Number(Seq<char>),
    String(Seq<char>),
    Bool(bool),
    Null,
    VecAccess(Seq<char>, Seq<Seq<PTok>>),
    Vector(Seq<PTok>),
    Parentheses(Seq<PTok>),
    Operator(BinaryOp),
    Not(Option<Box<PTok>>),
    Comma,
    Neg(Box<PTok>),
}

/// The model of a processed token.
pub open spec fn ptok(t: ProcessedExprToken) -> PTok
    decreases t,
{
    match t {
        ProcessedExprToken::VarName(s) => PTok::VarName(s@),
        ProcessedExprToken::Number(s) => PTok::Number(s@),
        ProcessedExprToken::String(s) => PTok::String(s@),
        ProcessedExprToken::Bool(b) => PTok::Bool(b),
        ProcessedExprToken::Null => PTok::Null,
        ProcessedExprToken::VecAccess(name, lists) => PTok::VecAccess(name@, ptok_lists(lists@)),
        ProcessedExprToken::Vector(v) => PTok::Vector(ptoks(v@)),
        ProcessedExprToken::Parentheses(v) => PTok::Parentheses(ptoks(v@)),
        ProcessedExprToken::Operator(op) => PTok::Operator(op),
        ProcessedExprToken::Not(None) => PTok::Not(None),
        ProcessedExprToken::Not(Some(b)) => PTok::Not(Some(Box::new(ptok(*b)))),
        ProcessedExprToken::Comma => PTok::Comma,
        ProcessedExprToken::Neg(b) => PTok::Neg(Box::new(ptok(*b))),
    }
}

/// The models of a sequence of processed tokens.
pub open spec fn ptoks(tokens: Seq<ProcessedExprToken>) -> Seq<PTok>
    decreases tokens,
{
    if tokens.len() == 0 {
        Seq::empty()
    } else {
        ptoks(tokens.drop_last()).push(ptok(tokens.last()))
    }
}

/// The models of a sequence of lists of processed tokens.
pub open spec fn ptok_lists(lists: Seq<Vec<ProcessedExprToken>>) -> Seq<Seq<PTok>>
    decreases lists,
{
    if lists.len() == 0 {
        Seq::empty()
    } else {
        ptok_lists(lists.drop_last()).push(ptoks(lists.last()@))
    }
}

impl View for ProcessedExprToken {
    type V = PTok;

    open spec fn view(&self) -> PTok {
        ptok(*self)
    }
}

/// `ptoks` keeps the length and models each token in its place.
pub proof fn lemma_ptoks(tokens: Seq<ProcessedExprToken>)
    ensures
        ptoks(tokens).len() == tokens.len(),
        forall|i: int| 0 <= i < tokens.len() ==> #[trigger] ptoks(tokens)[i] == tokens[i]@,
    decreases tokens.len(),
{
    if tokens.len() > 0 {
        lemma_ptoks(tokens.drop_last());
    }
}

/// `ptok_lists` keeps the length and models each list in its place.
pub proof fn lemma_ptok_lists(lists: Seq<Vec<ProcessedExprToken>>)
    ensures
        ptok_lists(lists).len() == lists.len(),
        forall|i: int| 0 <= i < lists.len() ==> #[trigger] ptok_lists(lists)[i] == ptoks(lists[i]@),
    decreases lists.len(),
{
    if lists.len() > 0 {
        lemma_ptok_lists(lists.drop_last());
    }
}

/// The model of a list of processed tokens or an error.
pub open spec fn ptoks_result(r: Result<Vec<ProcessedExprToken>, Error>) -> Result<
    Seq<PTok>,
    Error,
> {
    match r {
        Ok(tokens) => Ok(ptoks(tokens@)),
        Err(e) => Err(e),
    }
}

/// The two kinds of brackets of an expression.
#[derive(Clone, Copy, Debug, PartialEq, Eq, Structural)]
pub enum Bracket {
    Round,
    Square,
}

/// The token opens a bracket of the kind.
pub open spec fn opens(t: Tok, kind: Bracket) -> bool {
    match kind {
        Bracket::Round => t is OpenParentheses,
        Bracket::Square => t is OpenSBrackets || t is VecAccessStart,
    }
}

/// The token closes a bracket of the kind.
pub open spec fn closes(t: Tok, kind: Bracket) -> bool {
    match kind {
        Bracket::Round => t is CloseParentheses,
        Bracket::Square => t is CloseSBrackets,
    }
}

/// The place before `to` of the bracket that closes the one which is open
/// at `from`, with `depth` more brackets of the kind open inside it.
pub open spec fn closing(tokens: Seq<Tok>, kind: Bracket, from: nat, to: nat, depth: nat) -> Option<
    nat,
>
    decreases to - from,
{
    if from >= to || to > tokens.len() {
        None
    } else if closes(tokens[from as int], kind) {
        if depth == 0 {
            Some(from)
        } else {
            closing(tokens, kind, from + 1, to, (depth - 1) as nat)
        }
    } else if opens(tokens[from as int], kind) {
        closing(tokens, kind, from + 1, to, depth + 1)
    } else {
        closing(tokens, kind, from + 1, to, depth)
    }
}

/// A closing bracket that was found lies in the range and closes.
pub proof fn lemma_closing(tokens: Seq<Tok>, kind: Bracket, from: nat, to: nat, depth: nat)
    ensures
        closing(tokens, kind, from, to, depth) matches Some(j) ==> from <= j < to && to
            <= tokens.len() && closes(tokens[j as int], kind),
    decreases to - from,
{
    if from >= to || to > tokens.len() {
    } else if closes(tokens[from as int], kind) {
        if depth != 0 {
            lemma_closing(tokens, kind, from + 1, to, (depth - 1) as nat);
        }
    } else if opens(tokens[from as int], kind) {
        lemma_closing(tokens, kind, from + 1, to, depth + 1);
    } else {
        lemma_closing(tokens, kind, from + 1, to, depth);
    }
}

/// What a token adds to the number of open brackets of a kind.
pub open spec fn weight(t: Tok, kind: Bracket) -> int {
    if opens(t, kind) {
        1
    } else if closes(t, kind) {
        -1
    } else {
        0
    }
}

/// The brackets of a kind that the tokens from `a` up to `b` open, less
/// those that they close.
pub open spec fn excess(tokens: Seq<Tok>, kind: Bracket, a: nat, b: nat) -> int
    decreases b - a,
{
    if a >= b {
        0
    } else {
        weight(tokens[a as int], kind) + excess(tokens, kind, a + 1, b)
    }
}

/// The closing bracket that was found is the one that matches: up to it
/// the tokens close as many brackets as were open and as they open, and no
/// bracket before it does so.
pub proof fn lemma_closing_balances(
    tokens: Seq<Tok>,
    kind: Bracket,
    from: nat,
    to: nat,
    depth: nat,
)
    requires
        closing(tokens, kind, from, to, depth) is Some,
    ensures
        depth + excess(tokens, kind, from, closing(tokens, kind, from, to, depth)->0) == 0,
        forall|m: nat|
            from <= m <= closing(tokens, kind, from, to, depth)->0 ==> depth + #[trigger] excess(
                tokens,
                kind,
                from,
                m,
            ) >= 0,
        forall|m: nat|
            from <= m < closing(tokens, kind, from, to, depth)->0 && closes(tokens[m as int], kind)
                ==> depth + #[trigger] excess(tokens, kind, from, m) >= 1,
    decreases to - from,
{
    let j = closing(tokens, kind, from, to, depth)->0;
    if !(closes(tokens[from as int], kind) && depth == 0) {
        let inner: nat = if closes(tokens[from as int], kind) {
            (depth - 1) as nat
        } else if opens(tokens[from as int], kind) {
            depth + 1
        } else {
            depth
        };
        lemma_closing(tokens, kind, from + 1, to, inner);
        lemma_closing_balances(tokens, kind, from + 1, to, inner);
        assert forall|m: nat| from <= m <= j implies depth + #[trigger] excess(
            tokens,
            kind,
            from,
            m,
        ) >= 0 by {
            if m > from {
                assert(inner + excess(tokens, kind, from + 1, m) >= 0);
            }
        }
        assert forall|m: nat| from <= m < j && closes(tokens[m as int], kind) implies depth
            + #[trigger] excess(tokens, kind, from, m) >= 1 by {
            if m > from {
                assert(inner + excess(tokens, kind, from + 1, m) >= 1);
            }
        }
    }
}

/// The place behind the last `]` of the chain of index brackets whose first
/// bracket opens at `open`, if every bracket of the chain is closed.
pub open spec fn chain_end(tokens: Seq<Tok>, open: nat, to: nat) -> Option<nat>
    decreases to - open,
{
    match closing(tokens, Bracket::Square, open + 1, to, 0) {
        None => None,
        Some(j) => {
            proof {
                lemma_closing(tokens, Bracket::Square, open + 1, to, 0);
            }
            if j + 1 < to && tokens[j as int + 1] is OpenSBrackets {
                chain_end(tokens, j + 1, to)
            } else {
                Some(j + 1)
            }
        },
    }
}

/// A chain ends behind where it starts and inside the range.
pub proof fn lemma_chain_end(tokens: Seq<Tok>, open: nat, to: nat)
    ensures
        chain_end(tokens, open, to) matches Some(next) ==> open < next <= to,
    decreases to - open,
{
    lemma_closing(tokens, Bracket::Square, open + 1, to, 0);
    match closing(tokens, Bracket::Square, open + 1, to, 0) {
        None => {},
        Some(j) => {
            if j + 1 < to && tokens[j as int + 1] is OpenSBrackets {
                lemma_chain_end(tokens, j + 1, to);
            }
        },
    }
}

/// What a token that is no bracket becomes.
pub open spec fn plain(t: Tok) -> Option<PTok> {
    match t {
        Tok::VarName(s) => Some(PTok::VarName(s)),
        Tok::Number(s) => Some(PTok::Number(s)),
        Tok::String(s) => Some(PTok::String(s)),
        Tok::Bool(b) => Some(PTok::Bool(b)),
        Tok::Null => Some(PTok::Null),
        Tok::Comma => Some(PTok::Comma),
        Tok::Not => Some(PTok::Not(None)),
        Tok::Operator(op) => Some(PTok::Operator(op)),
        _ => None,
    }
}

/// A `-` behind such a token subtracts: a number, a group in parentheses,
/// a negation or a name.
pub open spec fn is_operand(t: PTok) -> bool {
    t is Number || t is Parentheses || t is Neg || t is VarName
}

/// The tokens from `i` on with each unary `-` and each `!` holding the
/// token behind it, after what is done already. A `-` is unary unless the
/// token before it is an operand. A unary operator at the end fails.
pub open spec fn unary(tokens: Seq<PTok>, i: nat, done: Seq<PTok>) -> Result<Seq<PTok>, Error>
    decreases tokens.len() - i,
{
    if i >= tokens.len() {
        Ok(done)
    } else {
        match tokens[i as int] {
            PTok::Operator(BinaryOp::Sub) => if i > 0 && is_operand(tokens[i - 1]) {
                unary(tokens, i + 1, done.push(PTok::Operator(BinaryOp::Sub)))
            } else if i + 1 < tokens.len() {
                unary(tokens, i + 2, done.push(PTok::Neg(Box::new(tokens[i as int + 1]))))
            } else {
                Err(Error::EmptyOperand)
            },
            PTok::Not(_) => if i + 1 < tokens.len() {
                unary(tokens, i + 2, done.push(PTok::Not(Some(Box::new(tokens[i as int + 1])))))
            } else {
                Err(Error::EmptyOperand)
            },
            t => unary(tokens, i + 1, done.push(t)),
        }
    }
}

/// The tokens of the range with every bracket resolved, after what is
/// done already.
pub open spec fn resolved(tokens: Seq<Tok>, from: nat, to: nat, done: Seq<PTok>) -> Result<
    Seq<PTok>,
    Error,
>
    decreases to - from, 1nat,
{
    if from >= to || to > tokens.len() {
        Ok(done)
    } else {
        match tokens[from as int] {
            Tok::OpenParentheses => match closing(tokens, Bracket::Round, from + 1, to, 0) {
                None => Err(Error::UnmatchedParenthesis),
                Some(j) => {
                    proof {
                        lemma_closing(tokens, Bracket::Round, from + 1, to, 0);
                    }
                    match processed_range(tokens, from + 1, j) {
                        Err(e) => Err(e),
                        Ok(inner) => resolved(
                            tokens,
                            j + 1,
                            to,
                            done.push(PTok::Parentheses(inner)),
                        ),
                    }
                },
            },
            Tok::CloseParentheses => Err(Error::UnmatchedParenthesis),
            Tok::OpenSBrackets => match closing(tokens, Bracket::Square, from + 1, to, 0) {
                None => Err(Error::UnmatchedBracket),
                Some(j) => {
                    proof {
                        lemma_closing(tokens, Bracket::Square, from + 1, to, 0);
                    }
                    match processed_range(tokens, from + 1, j) {
                        Err(e) => Err(e),
                        Ok(inner) => resolved(tokens, j + 1, to, done.push(PTok::Vector(inner))),
                    }
                },
            },
            Tok::CloseSBrackets => Err(Error::UnmatchedBracket),
            Tok::VecAccessStart(name) => match chain_end(tokens, from, to) {
                None => Err(Error::UnmatchedBracket),
                Some(next) => {
                    proof {
                        lemma_chain_end(tokens, from, to);
                    }
                    match chain(tokens, from, to, Seq::empty()) {
                        Err(e) => Err(e),
                        Ok(indices) => resolved(
                            tokens,
                            next,
                            to,
                            done.push(PTok::VecAccess(name, indices)),
                        ),
                    }
                },
            },
            t => resolved(tokens, from + 1, to, done.push(plain(t).unwrap())),
        }
    }
}

/// The processed tokens of a range: brackets resolved, then the unary
/// operators attached.
pub open spec fn processed_range(tokens: Seq<Tok>, from: nat, to: nat) -> Result<Seq<PTok>, Error>
    decreases to - from, 2nat,
{
    match resolved(tokens, from, to, Seq::empty()) {
        Ok(flat) => unary(flat, 0, Seq::empty()),
        Err(e) => Err(e),
    }
}

/// The index lists of a vector access whose bracket opens at `open`, after
/// those found already. The chain goes on as long as a `[` stands right
/// behind a `]`.
pub open spec fn chain(tokens: Seq<Tok>, open: nat, to: nat, done: Seq<Seq<PTok>>) -> Result<
    Seq<Seq<PTok>>,
    Error,
>
    decreases to - open, 0nat,
{
    match closing(tokens, Bracket::Square, open + 1, to, 0) {
        None => Err(Error::UnmatchedBracket),
        Some(j) => {
            proof {
                lemma_closing(tokens, Bracket::Square, open + 1, to, 0);
            }
            match processed_range(tokens, open + 1, j) {
                Err(e) => Err(e),
                Ok(inner) => if j + 1 < to && tokens[j as int + 1] is OpenSBrackets {
                    chain(tokens, j + 1, to, done.push(inner))
                } else {
                    Ok(done.push(inner))
                },
            }
        },
    }
}

/// The processed tokens of an expression.
pub open spec fn processed(tokens: Seq<Tok>) -> Result<Seq<PTok>, Error> {
    processed_range(tokens, 0, tokens.len())
}

/// A copy of a processed token.
pub fn copy_token(t: &ProcessedExprToken) -> (r: ProcessedExprToken)
    ensures
        r@ == t@,
    decreases t,
{
    match t {
        ProcessedExprToken::VarName(s) => ProcessedExprToken::VarName(s.clone()),
        ProcessedExprToken::Number(s) => ProcessedExprToken::Number(s.clone()),
        ProcessedExprToken::String(s) => ProcessedExprToken::String(s.clone()),
        ProcessedExprToken::Bool(b) => ProcessedExprToken::Bool(*b),
        ProcessedExprToken::Null => ProcessedExprToken::Null,
        ProcessedExprToken::VecAccess(name, lists) => {
            let mut out: Vec<Vec<ProcessedExprToken>> = Vec::new();
            let mut i: usize = 0;
            while i < lists.len()
                invariant
                    i <= lists.len(),
                    out.len() == i,
                    t matches ProcessedExprToken::VecAccess(n, l) && l == lists,
                    forall|j: int| 0 <= j < i ==> ptoks(#[trigger] out[j]@) == ptoks(lists[j]@),
                decreases lists.len() - i,
            {
                let list = copy_tokens(&lists[i]);
                out.push(list);
                i += 1;
            }
            proof {
                lemma_ptok_lists(out@);
                lemma_ptok_lists(lists@);
                assert(ptok_lists(out@) =~= ptok_lists(lists@));
            }
            ProcessedExprToken::VecAccess(name.clone(), out)
        },
        ProcessedExprToken::Vector(v) => ProcessedExprToken::Vector(copy_tokens(v)),
        ProcessedExprToken::Parentheses(v) => ProcessedExprToken::Parentheses(copy_tokens(v)),
        ProcessedExprToken::Operator(op) => ProcessedExprToken::Operator(*op),
        ProcessedExprToken::Not(None) => ProcessedExprToken::Not(None),
        ProcessedExprToken::Not(Some(b)) => ProcessedExprToken::Not(Some(Box::new(copy_token(b)))),
        ProcessedExprToken::Comma => ProcessedExprToken::Comma,
        ProcessedExprToken::Neg(b) => ProcessedExprToken::Neg(Box::new(copy_token(b))),
    }
}

/// A copy of a list of processed tokens.
pub fn copy_tokens(tokens: &Vec<ProcessedExprToken>) -> (r: Vec<ProcessedExprToken>)
    ensures
        ptoks(r@) == ptoks(tokens@),
    decreases tokens,
{
    let mut out: Vec<ProcessedExprToken> = Vec::new();
    let mut i: usize = 0;
    while i < tokens.len()
        invariant
            i <= tokens.len(),
            out.len() == i,
            forall|j: int| 0 <= j < i ==> #[trigger] out[j]@ == tokens[j]@,
        decreases tokens.len() - i,
    {
        let token = copy_token(&tokens[i]);
        out.push(token);
        i += 1;
    }
    proof {
        lemma_ptoks(out@);
        lemma_ptoks(tokens@);
        assert(ptoks(out@) =~= ptoks(tokens@));
    }
    out
}

impl Clone for ProcessedExprToken {
    fn clone(&self) -> (r: ProcessedExprToken)
        ensures
            r@ == self@,
    {
        copy_token(self)
    }
}

fn opens_bracket(t: &ExprToken, kind: Bracket) -> (r: bool)
    ensures
        r == opens(t@, kind),
{
    match kind {
        Bracket::Round => match t {
            ExprToken::OpenParentheses => true,
            _ => false,
        },
        Bracket::Square => match t {
            ExprToken::OpenSBrackets => true,
            ExprToken::VecAccessStart(_) => true,
            _ => false,
        },
    }
}

fn closes_bracket(t: &ExprToken, kind: Bracket) -> (r: bool)
    ensures
        r == closes(t@, kind),
{
    match kind {
        Bracket::Round => match t {
            ExprToken::CloseParentheses => true,
            _ => false,
        },
        Bracket::Square => match t {
            ExprToken::CloseSBrackets => true,
            _ => false,
        },
    }
}

/// The place before `to` of the bracket that closes the one whose inside
/// starts at `from`.
pub fn find_closing(tokens: &[ExprToken], kind: Bracket, from: usize, to: usize) -> (r: Option<
    usize,
>)
    ensures
        match r {
            Some(j) => closing(toks(tokens@), kind, from as nat, to as nat, 0) == Some(j as nat)
                && from <= j < to,
            None => closing(toks(tokens@), kind, from as nat, to as nat, 0) is None,
        },
{
    if from > to || to > tokens.len() {
        return None;
    }
    let mut depth: usize = 0;
    let mut i: usize = from;
    while i < to
        invariant
            from <= i <= to <= tokens@.len(),
            depth <= i - from,
            closing(toks(tokens@), kind, from as nat, to as nat, 0) == closing(
                toks(tokens@),
                kind,
                i as nat,
                to as nat,
                depth as nat,
            ),
        decreases to - i,
    {
        if closes_bracket(&tokens[i], kind) {
            if depth == 0 {
                return Some(i);
            }
            depth -= 1;
        } else if opens_bracket(&tokens[i], kind) {
            depth += 1;
        }
        i += 1;
    }
    None
}

/// The place of the `)` that closes the `(` at `i`.
pub fn find_matching_parentheses(i: usize, tokens: &[ExprToken]) -> (r: Result<usize, Error>)
    ensures
        match closing(toks(tokens@), Bracket::Round, i as nat + 1, tokens@.len(), 0) {
            Some(j) => r == Ok::<usize, Error>(j as usize) && i < j < tokens@.len(),
            None => r == Err::<usize, Error>(Error::UnmatchedParenthesis),
        },
{
    if i >= tokens.len() {
        return Err(Error::UnmatchedParenthesis);
    }
    match find_closing(tokens, Bracket::Round, i + 1, tokens.len()) {
        Some(j) => Ok(j),
        None => Err(Error::UnmatchedParenthesis),
    }
}

/// The place of the `]` that closes the `[` at `i`.
pub fn find_matching_square_bracket(i: usize, tokens: &[ExprToken]) -> (r: Result<usize, Error>)
    ensures
        match closing(toks(tokens@), Bracket::Square, i as nat + 1, tokens@.len(), 0) {
            Some(j) => r == Ok::<usize, Error>(j as usize) && i < j < tokens@.len(),
            None => r == Err::<usize, Error>(Error::UnmatchedBracket),
        },
{
    if i >= tokens.len() {
        return Err(Error::UnmatchedBracket);
    }
    match find_closing(tokens, Bracket::Square, i + 1, tokens.len()) {
        Some(j) => Ok(j),
        None => Err(Error::UnmatchedBracket),
    }
}

fn plain_token(t: &ExprToken) -> (r: Option<ProcessedExprToken>)
    ensures
        match r {
            Some(p) => plain(t@) == Some(p@),
            None => plain(t@) is None,
        },
{
    match t {
        ExprToken::VarName(s) => Some(ProcessedExprToken::VarName(s.clone())),
        ExprToken::Number(s) => Some(ProcessedExprToken::Number(s.clone())),
        ExprToken::String(s) => Some(ProcessedExprToken::String(s.clone())),
        ExprToken::Bool(b) => Some(ProcessedExprToken::Bool(*b)),
        ExprToken::Null => Some(ProcessedExprToken::Null),
        ExprToken::Comma => Some(ProcessedExprToken::Comma),
        ExprToken::Not => Some(ProcessedExprToken::Not(None)),
        ExprToken::Operator(op) => Some(ProcessedExprToken::Operator(*op)),
        _ => None,
    }
}

fn is_operand_token(t: &ProcessedExprToken) -> (r: bool)
    ensures
        r == is_operand(t@),
{
    match t {
        ProcessedExprToken::Number(_) => true,
        ProcessedExprToken::Parentheses(_) => true,
        ProcessedExprToken::Neg(_) => true,
        ProcessedExprToken::VarName(_) => true,
        _ => false,
    }
}

/// Attaches to each unary `-` and each `!` the token behind it.
pub fn process_not_and_negatives(tokens: &[ProcessedExprToken]) -> (r: Result<
    Vec<ProcessedExprToken>,
    Error,
>)
    ensures
        ptoks_result(r) == unary(ptoks(tokens@), 0, Seq::empty()),
{
    let mut out: Vec<ProcessedExprToken> = Vec::new();
    let mut i: usize = 0;
    proof {
        lemma_ptoks(tokens@);
    }
    while i < tokens.len()
        invariant
            i <= tokens@.len(),
            ptoks(tokens@).len() == tokens@.len(),
            forall|k: int| 0 <= k < tokens@.len() ==> #[trigger] ptoks(tokens@)[k] == tokens@[k]@,
            unary(ptoks(tokens@), 0, Seq::empty()) == unary(ptoks(tokens@), i as nat, ptoks(out@)),
        decreases tokens@.len() - i,
    {
        let ghost before = out@;
        match &tokens[i] {
            ProcessedExprToken::Operator(BinaryOp::Sub) => {
                if i > 0 && is_operand_token(&tokens[i - 1]) {
                    out.push(ProcessedExprToken::Operator(BinaryOp::Sub));
                    assert(out@.drop_last() =~= before);
                    i += 1;
                } else if i + 1 < tokens.len() {
                    let operand = copy_token(&tokens[i + 1]);
                    let node = ProcessedExprToken::Neg(Box::new(operand));
                    assert(node@ == PTok::Neg(Box::new(operand@)));
                    out.push(node);
                    assert(out@.drop_last() =~= before);
                    i += 2;
                } else {
                    return Err(Error::EmptyOperand);
                }
            },
            ProcessedExprToken::Not(_) => {
                if i + 1 < tokens.len() {
                    let operand = copy_token(&tokens[i + 1]);
                    let node = ProcessedExprToken::Not(Some(Box::new(operand)));
                    assert(node@ == PTok::Not(Some(Box::new(operand@))));
                    out.push(node);
                    assert(out@.drop_last() =~= before);
                    i += 2;
                } else {
                    return Err(Error::EmptyOperand);
                }
            },
            t => {
                out.push(copy_token(t));
                assert(out@.drop_last() =~= before);
                i += 1;
            },
        }
    }
    Ok(out)
}

fn is_open_square(t: &ExprToken) -> (r: bool)
    ensures
        r == (t@ is OpenSBrackets),
{
    match t {
        ExprToken::OpenSBrackets => true,
        _ => false,
    }
}

fn find_chain_end(tokens: &[ExprToken], open: usize, to: usize) -> (r: Option<usize>)
    requires
        open < to <= tokens@.len(),
    ensures
        match r {
            Some(next) => chain_end(toks(tokens@), open as nat, to as nat) == Some(next as nat)
                && open < next <= to,
            None => chain_end(toks(tokens@), open as nat, to as nat) is None,
        },
{
    let mut at: usize = open;
    loop
        invariant
            open <= at < to <= tokens@.len(),
            chain_end(toks(tokens@), open as nat, to as nat) == chain_end(
                toks(tokens@),
                at as nat,
                to as nat,
            ),
        decreases to - at,
    {
        match find_closing(tokens, Bracket::Square, at + 1, to) {
            None => {
                return None;
            },
            Some(j) => {
                if j + 1 < to && is_open_square(&tokens[j + 1]) {
                    at = j + 1;
                } else {
                    return Some(j + 1);
                }
            },
        }
    }
}

/// The group in parentheses that opens at `i`, and the place behind it.
pub fn process_parentheses(tokens: &[ExprToken], i: usize, to: usize) -> (r: Result<
    (ProcessedExprToken, usize),
    Error,
>)
    requires
        i < to <= tokens@.len(),
    ensures
        match closing(toks(tokens@), Bracket::Round, i as nat + 1, to as nat, 0) {
            None => r matches Err(e) && e == Error::UnmatchedParenthesis,
            Some(j) => match processed_range(toks(tokens@), i as nat + 1, j) {
                Err(e) => r matches Err(x) && x == e,
                Ok(inner) => r matches Ok((token, next)) && token@ == PTok::Parentheses(inner)
                    && next == j + 1 && i < next <= to,
            },
        },
    decreases to - i, 0nat,
{
    match find_closing(tokens, Bracket::Round, i + 1, to) {
        None => Err(Error::UnmatchedParenthesis),
        Some(j) => match process_range(tokens, i + 1, j) {
            Err(e) => Err(e),
            Ok(inner) => Ok((ProcessedExprToken::Parentheses(inner), j + 1)),
        },
    }
}

/// The vector literal that opens at `i`, and the place behind it.
pub fn process_vector(tokens: &[ExprToken], i: usize, to: usize) -> (r: Result<
    (ProcessedExprToken, usize),
    Error,
>)
    requires
        i < to <= tokens@.len(),
    ensures
        match closing(toks(tokens@), Bracket::Square, i as nat + 1, to as nat, 0) {
            None => r matches Err(e) && e == Error::UnmatchedBracket,
            Some(j) => match processed_range(toks(tokens@), i as nat + 1, j) {
                Err(e) => r matches Err(x) && x == e,
                Ok(inner) => r matches Ok((token, next)) && token@ == PTok::Vector(inner) && next
                    == j + 1 && i < next <= to,
            },
        },
    decreases to - i, 0nat,
{
    match find_closing(tokens, Bracket::Square, i + 1, to) {
        None => Err(Error::UnmatchedBracket),
        Some(j) => match process_range(tokens, i + 1, j) {
            Err(e) => Err(e),
            Ok(inner) => Ok((ProcessedExprToken::Vector(inner), j + 1)),
        },
    }
}

/// The vector access whose first bracket opens at `i`, and the place
/// behind its last bracket.
pub fn process_vector_access(tokens: &[ExprToken], i: usize, to: usize, capture: &str) -> (r:
    Result<(ProcessedExprToken, usize), Error>)
    requires
        i < to <= tokens@.len(),
    ensures
        match chain_end(toks(tokens@), i as nat, to as nat) {
            None => r matches Err(e) && e == Error::UnmatchedBracket,
            Some(end) => match chain(toks(tokens@), i as nat, to as nat, Seq::empty()) {
                Err(e) => r matches Err(x) && x == e,
                Ok(indices) => r matches Ok((token, next)) && token@ == PTok::VecAccess(
                    capture@,
                    indices,
                ) && next == end && i < next <= to,
            },
        },
    decreases to - i, 0nat,
{
    let end = match find_chain_end(tokens, i, to) {
        None => {
            return Err(Error::UnmatchedBracket);
        },
        Some(end) => end,
    };
    let mut lists: Vec<Vec<ProcessedExprToken>> = Vec::new();
    let mut at: usize = i;
    loop
        invariant
            i <= at < to <= tokens@.len(),
            i < end <= to,
            chain_end(toks(tokens@), i as nat, to as nat) == Some(end as nat),
            chain(toks(tokens@), i as nat, to as nat, Seq::empty()) == chain(
                toks(tokens@),
                at as nat,
                to as nat,
                ptok_lists(lists@),
            ),
        decreases to - at,
    {
        let ghost before = lists@;
        match find_closing(tokens, Bracket::Square, at + 1, to) {
            None => {
                return Err(Error::UnmatchedBracket);
            },
            Some(j) => {
                match process_range(tokens, at + 1, j) {
                    Err(e) => {
                        return Err(e);
                    },
                    Ok(inner) => {
                        lists.push(inner);
                        assert(lists@.drop_last() =~= before);
                        if j + 1 < to && is_open_square(&tokens[j + 1]) {
                            at = j + 1;
                        } else {
                            return Ok(
                                (
                                    ProcessedExprToken::VecAccess(String::from_str(capture), lists),
                                    end,
                                ),
                            );
                        }
                    },
                }
            },
        }
    }
}

/// The processed tokens of the range from `from` to `to`.
pub fn process_range(tokens: &[ExprToken], from: usize, to: usize) -> (r: Result<
    Vec<ProcessedExprToken>,
    Error,
>)
    requires
        from <= to <= tokens@.len(),
    ensures
        ptoks_result(r) == processed_range(toks(tokens@), from as nat, to as nat),
    decreases to - from, 3nat,
{
    let mut out: Vec<ProcessedExprToken> = Vec::new();
    let mut index: usize = from;
    while index < to
        invariant
            from <= index <= to <= tokens@.len(),
            resolved(toks(tokens@), from as nat, to as nat, Seq::empty()) == resolved(
                toks(tokens@),
                index as nat,
                to as nat,
                ptoks(out@),
            ),
        decreases to - index,
    {
        let ghost before = out@;
        match &tokens[index] {
            ExprToken::OpenParentheses => {
                match process_parentheses(tokens, index, to) {
                    Err(e) => {
                        return Err(e);
                    },
                    Ok((token, next)) => {
                        out.push(token);
                        assert(out@.drop_last() =~= before);
                        index = next;
                    },
                }
            },
            ExprToken::CloseParentheses => {
                return Err(Error::UnmatchedParenthesis);
            },
            ExprToken::OpenSBrackets => {
                match process_vector(tokens, index, to) {
                    Err(e) => {
                        return Err(e);
                    },
                    Ok((token, next)) => {
                        out.push(token);
                        assert(out@.drop_last() =~= before);
                        index = next;
                    },
                }
            },
            ExprToken::CloseSBrackets => {
                return Err(Error::UnmatchedBracket);
            },
            ExprToken::VecAccessStart(name) => {
                match process_vector_access(tokens, index, to, name.as_str()) {
                    Err(e) => {
                        return Err(e);
                    },
                    Ok((token, next)) => {
                        out.push(token);
                        assert(out@.drop_last() =~= before);
                        index = next;
                    },
                }
            },
            t => {
                match plain_token(t) {
                    Some(token) => {
                        out.push(token);
                        assert(out@.drop_last() =~= before);
                    },
                    None => {},
                }
                index += 1;
            },
        }
    }
    process_not_and_negatives(out.as_slice())
}

/// The tree of tokens of an expression. Fails with `UnmatchedParenthesis`
/// or `UnmatchedBracket` where a bracket has no partner, and with
/// `EmptyOperand` where a unary operator stands at the end.
pub fn process_expr_tokens(tokens: &[ExprToken]) -> (r: Result<Vec<ProcessedExprToken>, Error>)
    ensures
        ptoks_result(r) == processed(toks(tokens@)),
{
    process_range(tokens, 0, tokens.len())
}

} // verus!

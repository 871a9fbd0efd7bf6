//! Running a program, one statement at a time.
//!
//! A run is a loop of the host: it calls [`execute`] on the program, the
//! environment, the cursor and the answers, and does what the returned
//! [`Action`] says, until the program has finished or failed. A step never
//! loops on its own, so a `while` of the program that never ends is a loop of
//! the host that never ends.

use vstd::prelude::*;
use crate::error::{Error, Interrupt, Stop};
use crate::evaluator::{Environment, eval, eval_all, index_of, index_value};
use crate::expr_parser::{Expr, ParseExprNode, exprs};
use crate::host::{Answers, Asked, Replied, Request};
use crate::parser::{ParseNode, Stmt, lemma_stmts, stmts};
use crate::val::{Val, Value, lemma_views, text_of, views, written};

verus! {

/// A place in a block: the statement at `index`, and, where the run stands
/// inside that statement, whether it is in its `else` block.
#[derive(Clone, Copy, Debug, PartialEq, Eq)]
pub struct Position {
    pub index: usize,
    pub alt: bool,
}

/// Where a run stands in its program: one position for each block that it
/// is in, the outermost first.
#[derive(Debug)]
pub struct Cursor {
    path: Vec<Position>,
}

impl View for Cursor {
    type V = Seq<Position>;

    closed spec fn view(&self) -> Seq<Position> {
        self.path@
    }
}

/// What the host has to do after a step.
#[derive(Debug, PartialEq)]
pub enum Action {
    /// Nothing: take the next step.
    Continue,
    /// Write the line, then take the next step.
    Print(String),
    /// Record the answer to the request, then take the next step.
    Ask(Request),
    /// The program has run to its end.
    Finished,
    /// The program has failed.
    Failed(Error),
}

/// The mathematical model of an [`Action`].
pub enum Act {
    Continue,
    Print(Seq<char>),
    Ask(Asked),
    Finished,
    Failed(Error),
}

impl View for Action {
    type V = Act;

    open spec fn view(&self) -> Act {
        match self {
            Action::Continue => Act::Continue,
            Action::Print(line) => Act::Print(line@),
            Action::Ask(request) => Act::Ask(request@),
            Action::Finished => Act::Finished,
            Action::Failed(e) => Act::Failed(*e),
        }
    }
}

/// The state of a run after a step, and what the host has to do.
pub struct Step {
    pub env: Map<Seq<char>, Value>,
    pub path: Seq<Position>,
    pub known: Map<Asked, Replied>,
    pub action: Act,
}

/// The block of a statement that a run can stand in.
pub open spec fn sub_block(s: Stmt, alt: bool) -> Option<Seq<Stmt>> {
    match s {
        Stmt::If(_, then_block, else_block) => if alt {
            else_block
        } else {
            Some(then_block)
        },
        Stmt::While(_, body) => if alt {
            None
        } else {
            Some(body)
        },
        _ => None,
    }
}

/// The innermost block that a path leads to from position `d` on, and
/// whether that block is the body of a `while`. `None` where the path leads
/// nowhere in the block.
pub open spec fn locate(block: Seq<Stmt>, path: Seq<Position>, d: nat, looping: bool) -> Option<
    (Seq<Stmt>, bool),
>
    decreases path.len() - d,
{
    if d + 1 >= path.len() {
        Some((block, looping))
    } else {
        let p = path[d as int];
        if p.index >= block.len() {
            None
        } else {
            match sub_block(block[p.index as int], p.alt) {
                Some(inner) => locate(inner, path, d + 1, block[p.index as int] is While),
                None => None,
            }
        }
    }
}

/// The path with its last position moved to the next statement.
pub open spec fn advanced(path: Seq<Position>) -> Seq<Position>
    recommends
        path.len() > 0,
{
    path.update(
        path.len() - 1,
        Position { index: (path.last().index + 1) as usize, alt: false },
    )
}

/// The path with the run inside a block of its last statement.
pub open spec fn entered(path: Seq<Position>, alt: bool) -> Seq<Position>
    recommends
        path.len() > 0,
{
    path.update(path.len() - 1, Position { index: path.last().index, alt: alt }).push(
        Position { index: 0, alt: false },
    )
}

/// The path after the run has left its innermost block: back at the
/// `while` whose body it was, or behind the `if`.
pub open spec fn left(path: Seq<Position>, looping: bool) -> Seq<Position>
    recommends
        path.len() > 1,
{
    if looping {
        path.drop_last()
    } else {
        advanced(path.drop_last())
    }
}

/// The indices that index values stand for, from `k` on, after those done
/// already.
pub open spec fn index_path(indices: Seq<Value>, k: nat, done: Seq<usize>) -> Result<
    Seq<usize>,
    Error,
>
    decreases indices.len() - k,
{
    if k >= indices.len() {
        Ok(done)
    } else {
        match index_of(indices[k as int]) {
            Err(e) => Err(e),
            Ok(n) => index_path(indices, k + 1, done.push(n as usize)),
        }
    }
}

/// The environment after a vector write: the value first, then the
/// indices, then the variable, which gets its old value with one item
/// replaced.
pub open spec fn vector_write(
    env: Map<Seq<char>, Value>,
    name: Seq<char>,
    index: Seq<Expr>,
    value: Expr,
    known: Map<Asked, Replied>,
) -> Result<Map<Seq<char>, Value>, Stop> {
    match eval(env, value, known) {
        Err(stop) => Err(stop),
        Ok(item) => match eval_all(env, index, 0, Seq::empty(), known) {
            Err(stop) => Err(stop),
            Ok(indices) => if !env.contains_key(name) {
                Err(Stop::Fail(Error::UndeclaredVariable))
            } else {
                match index_path(indices, 0, Seq::empty()) {
                    Err(e) => Err(Stop::Fail(e)),
                    Ok(path) => match written(env[name], path, 0, item) {
                        Err(e) => Err(Stop::Fail(e)),
                        Ok(whole) => Ok(env.insert(name, whole)),
                    },
                }
            },
        },
    }
}

/// The value of a condition: a boolean, or `ConditionTypeError`.
pub open spec fn condition(env: Map<Seq<char>, Value>, cond: Expr, known: Map<Asked, Replied>)
    -> Result<bool, Stop> {
    match eval(env, cond, known) {
        Err(stop) => Err(stop),
        Ok(Value::Bool(b)) => Ok(b),
        Ok(_) => Err(Stop::Fail(Error::ConditionTypeError)),
    }
}

/// The line that `print` writes for an expression.
pub open spec fn printed(env: Map<Seq<char>, Value>, e: Expr, known: Map<Asked, Replied>) -> Result<
    Seq<char>,
    Stop,
> {
    match eval(env, e, known) {
        Err(stop) => Err(stop),
        Ok(v) => text_of(v, known),
    }
}

/// A step that changes nothing.
pub open spec fn halted(
    env: Map<Seq<char>, Value>,
    path: Seq<Position>,
    known: Map<Asked, Replied>,
    action: Act,
) -> Step {
    Step { env, path, known, action }
}

/// A step that stops for the host or fails: the request or the error,
/// with nothing changed.
pub open spec fn stopped(
    env: Map<Seq<char>, Value>,
    path: Seq<Position>,
    known: Map<Asked, Replied>,
    stop: Stop,
) -> Step {
    match stop {
        Stop::Ask(asked) => halted(env, path, known, Act::Ask(asked)),
        Stop::Fail(e) => halted(env, path, known, Act::Failed(e)),
    }
}

/// A step that is done with its statement: the answers are dropped.
pub open spec fn moved(env: Map<Seq<char>, Value>, path: Seq<Position>, action: Act) -> Step {
    Step { env, path, known: Map::empty(), action }
}

/// The step that runs one statement.
pub open spec fn statement_step(
    s: Stmt,
    env: Map<Seq<char>, Value>,
    path: Seq<Position>,
    known: Map<Asked, Replied>,
) -> Step {
    match s {
        Stmt::Assignation(name, value) => match eval(env, value, known) {
            Err(stop) => stopped(env, path, known, stop),
            Ok(v) => moved(env.insert(name, v), advanced(path), Act::Continue),
        },
        Stmt::VecWrite(name, index, value) => match vector_write(env, name, index, value, known) {
            Err(stop) => stopped(env, path, known, stop),
            Ok(after) => moved(after, advanced(path), Act::Continue),
        },
        Stmt::Expression(e) => match eval(env, e, known) {
            Err(stop) => stopped(env, path, known, stop),
            Ok(_) => moved(env, advanced(path), Act::Continue),
        },
        Stmt::Print(e) => match printed(env, e, known) {
            Err(stop) => stopped(env, path, known, stop),
            Ok(line) => moved(env, advanced(path), Act::Print(line)),
        },
        Stmt::If(cond, _, else_block) => match condition(env, cond, known) {
            Err(stop) => stopped(env, path, known, stop),
            Ok(true) => moved(env, entered(path, false), Act::Continue),
            Ok(false) => if else_block is Some {
                moved(env, entered(path, true), Act::Continue)
            } else {
                moved(env, advanced(path), Act::Continue)
            },
        },
        Stmt::While(cond, _) => match condition(env, cond, known) {
            Err(stop) => stopped(env, path, known, stop),
            Ok(true) => moved(env, entered(path, false), Act::Continue),
            Ok(false) => moved(env, advanced(path), Act::Continue),
        },
    }
}

/// One step of a run. Where the cursor stands at a statement, that
/// statement is run; where it stands at the end of a block, the run leaves
/// the block; at the end of the program, or where the cursor leads nowhere in
/// this program, the run has finished.
pub open spec fn step(
    program: Seq<Stmt>,
    env: Map<Seq<char>, Value>,
    path: Seq<Position>,
    known: Map<Asked, Replied>,
) -> Step {
    if path.len() == 0 {
        halted(env, path, known, Act::Finished)
    } else {
        match locate(program, path, 0, false) {
            None => halted(env, path, known, Act::Finished),
            Some((block, looping)) => if path.last().index < block.len() {
                statement_step(block[path.last().index as int], env, path, known)
            } else if path.len() == 1 {
                halted(env, path, known, Act::Finished)
            } else {
                moved(env, left(path, looping), Act::Continue)
            },
        }
    }
}

/// A step that asks the host, fails or finds the program finished changes
/// nothing: neither the environment nor the cursor nor the answers. So the
/// same step is taken again once the host has answered, and a run that has
/// failed or finished stays so.
pub proof fn lemma_stop_changes_nothing(
    program: Seq<Stmt>,
    env: Map<Seq<char>, Value>,
    path: Seq<Position>,
    known: Map<Asked, Replied>,
)
    ensures
        !(step(program, env, path, known).action is Continue) && !(step(
            program,
            env,
            path,
            known,
        ).action is Print) ==> step(program, env, path, known) == halted(
            env,
            path,
            known,
            step(program, env, path, known).action,
        ),
{
}

impl Cursor {
    /// The cursor at the start of a program.
    pub fn new() -> (r: Cursor)
        ensures
            r@ == seq![Position { index: 0, alt: false }],
    {
        let mut path: Vec<Position> = Vec::new();
        path.push(Position { index: 0, alt: false });
        assert(path@ =~= seq![Position { index: 0, alt: false }]);
        Cursor { path }
    }

    fn advance(&mut self)
        requires
            old(self)@.len() > 0,
            old(self)@.last().index < usize::MAX,
        ensures
            final(self)@ == advanced(old(self)@),
    {
        let last = self.path.len() - 1;
        let index = self.path[last].index;
        self.path[last] = Position { index: index + 1, alt: false };
    }

    fn enter(&mut self, alt: bool)
        requires
            old(self)@.len() > 0,
        ensures
            final(self)@ == entered(old(self)@, alt),
    {
        let last = self.path.len() - 1;
        let index = self.path[last].index;
        self.path[last] = Position { index, alt };
        self.path.push(Position { index: 0, alt: false });
    }

    fn leave(&mut self, looping: bool)
        requires
            old(self)@.len() > 1,
            !looping ==> old(self)@[old(self)@.len() - 2].index < usize::MAX,
        ensures
            final(self)@ == left(old(self)@, looping),
    {
        self.path.pop();
        assert(self.path@ =~= old(self)@.drop_last());
        if !looping {
            self.advance();
        }
    }
}

/// Runs an assignment: binds the name to the value of the expression.
pub fn execute_assignation(
    variable: &str,
    value: &ParseExprNode,
    env: &mut Environment,
    host: &Answers,
) -> (r: Result<(), Interrupt>)
    ensures
        match eval(old(env)@, value@, host@) {
            Ok(v) => r is Ok && final(env)@ == old(env)@.insert(variable@, v),
            Err(stop) => r matches Err(e) && e@ == stop && final(env)@ == old(env)@,
        },
{
    match env.evaluate(value, host) {
        Err(stop) => Err(stop),
        Ok(v) => {
            env.insert(String::from_str(variable), v);
            Ok(())
        },
    }
}

/// Runs an expression statement: evaluates the expression and drops its
/// value.
pub fn execute_expression(expr: &ParseExprNode, env: &Environment, host: &Answers) -> (r: Result<
    (),
    Interrupt,
>)
    ensures
        match eval(env@, expr@, host@) {
            Ok(_) => r is Ok,
            Err(stop) => r matches Err(e) && e@ == stop,
        },
{
    match env.evaluate(expr, host) {
        Err(stop) => Err(stop),
        Ok(_) => Ok(()),
    }
}

/// The line that `print` writes for an expression.
pub fn execute_print(expression: &ParseExprNode, env: &Environment, host: &Answers) -> (r: Result<
    String,
    Interrupt,
>)
    ensures
        match printed(env@, expression@, host@) {
            Ok(line) => r matches Ok(text) && text@ == line,
            Err(stop) => r matches Err(e) && e@ == stop,
        },
{
    match env.evaluate(expression, host) {
        Err(stop) => Err(stop),
        Ok(v) => v.to_text(host),
    }
}

/// The value of the condition of an `if` or a `while`.
pub fn execute_condition(expr: &ParseExprNode, env: &Environment, host: &Answers) -> (r: Result<
    bool,
    Interrupt,
>)
    ensures
        match condition(env@, expr@, host@) {
            Ok(b) => r matches Ok(x) && x == b,
            Err(stop) => r matches Err(e) && e@ == stop,
        },
{
    match env.evaluate(expr, host) {
        Err(stop) => Err(stop),
        Ok(Val::Bool(b)) => Ok(b),
        Ok(_) => Err(Interrupt::Fail(Error::ConditionTypeError)),
    }
}

fn index_values(indices: &Vec<Val>) -> (r: Result<Vec<usize>, Error>)
    ensures
        match index_path(views(indices@), 0, Seq::empty()) {
            Ok(path) => r matches Ok(p) && p@ == path,
            Err(e) => r matches Err(x) && x == e,
        },
{
    proof {
        lemma_views(indices@);
    }
    let mut path: Vec<usize> = Vec::new();
    let mut k: usize = 0;
    while k < indices.len()
        invariant
            k <= indices@.len(),
            views(indices@).len() == indices@.len(),
            forall|j: int| 0 <= j < indices@.len() ==> #[trigger] views(indices@)[j] == indices@[j]@,
            index_path(views(indices@), 0, Seq::empty()) == index_path(
                views(indices@),
                k as nat,
                path@,
            ),
        decreases indices@.len() - k,
    {
        match index_value(&indices[k]) {
            Err(e) => {
                return Err(e);
            },
            Ok(n) => {
                path.push(n);
            },
        }
        k += 1;
    }
    Ok(path)
}

/// Runs a vector write: replaces one item of the vector that the name is
/// bound to.
pub fn execute_vector_write(
    name: &str,
    index: &Vec<ParseExprNode>,
    value: &ParseExprNode,
    env: &mut Environment,
    host: &Answers,
) -> (r: Result<(), Interrupt>)
    ensures
        match vector_write(old(env)@, name@, exprs(index@), value@, host@) {
            Ok(after) => r is Ok && final(env)@ == after,
            Err(stop) => r matches Err(e) && e@ == stop && final(env)@ == old(env)@,
        },
{
    let item = match env.evaluate(value, host) {
        Err(stop) => {
            return Err(stop);
        },
        Ok(item) => item,
    };
    let indices = match env.evaluate_all(index, host) {
        Err(stop) => {
            return Err(stop);
        },
        Ok(indices) => indices,
    };
    let whole = match env.get_ref(name) {
        Err(e) => {
            return Err(Interrupt::Fail(e));
        },
        Ok(whole) => whole.clone(),
    };
    let path = match index_values(&indices) {
        Err(e) => {
            return Err(Interrupt::Fail(e));
        },
        Ok(path) => path,
    };
    match whole.write(&path, item) {
        Err(e) => Err(Interrupt::Fail(e)),
        Ok(after) => {
            env.insert(String::from_str(name), after);
            Ok(())
        },
    }
}

/// What a stop of a statement means for the host.
fn stop_action(stop: Interrupt) -> (r: Action)
    ensures
        r@ == match stop@ {
            Stop::Ask(asked) => Act::Ask(asked),
            Stop::Fail(e) => Act::Failed(e),
        },
{
    match stop {
        Interrupt::Ask(request) => Action::Ask(request),
        Interrupt::Fail(e) => Action::Failed(e),
    }
}

/// Runs one statement at which the cursor stands.
fn execute_statement(
    statement: &ParseNode,
    env: &mut Environment,
    cursor: &mut Cursor,
    host: &mut Answers,
) -> (r: Action)
    requires
        old(cursor)@.len() > 0,
        old(cursor)@.last().index < usize::MAX,
    ensures
        (Step { env: final(env)@, path: final(cursor)@, known: final(host)@, action: r@ })
            == statement_step(statement@, old(env)@, old(cursor)@, old(host)@),
{
    match statement {
        ParseNode::Assignation(name, value) => match execute_assignation(
            name.as_str(),
            value,
            env,
            host,
        ) {
            Err(stop) => stop_action(stop),
            Ok(()) => {
                cursor.advance();
                host.clear();
                Action::Continue
            },
        },
        ParseNode::VecWrite(name, index, value) => match execute_vector_write(
            name.as_str(),
            index,
            value,
            env,
            host,
        ) {
            Err(stop) => stop_action(stop),
            Ok(()) => {
                cursor.advance();
                host.clear();
                Action::Continue
            },
        },
        ParseNode::Expression(e) => match execute_expression(e, env, host) {
            Err(stop) => stop_action(stop),
            Ok(()) => {
                cursor.advance();
                host.clear();
                Action::Continue
            },
        },
        ParseNode::Print(e) => match execute_print(e, env, host) {
            Err(stop) => stop_action(stop),
            Ok(line) => {
                cursor.advance();
                host.clear();
                Action::Print(line)
            },
        },
        ParseNode::If(cond, _, else_block) => match execute_condition(cond, env, host) {
            Err(stop) => stop_action(stop),
            Ok(true) => {
                cursor.enter(false);
                host.clear();
                Action::Continue
            },
            Ok(false) => {
                if else_block.is_some() {
                    cursor.enter(true);
                } else {
                    cursor.advance();
                }
                host.clear();
                Action::Continue
            },
        },
        ParseNode::While(cond, _) => match execute_condition(cond, env, host) {
            Err(stop) => stop_action(stop),
            Ok(true) => {
                cursor.enter(false);
                host.clear();
                Action::Continue
            },
            Ok(false) => {
                cursor.advance();
                host.clear();
                Action::Continue
            },
        },
    }
}

/// Takes one step of a run of the program: runs the statement at which
/// the cursor stands and moves the cursor, or leaves a block that has come to
/// its end. A statement that lacks an answer of the host changes nothing and
/// asks for it; once a statement is done, the answers are dropped.
pub fn execute(ast: &[ParseNode], env: &mut Environment, cursor: &mut Cursor, host: &mut Answers)
    -> (r: Action)
    ensures
        (Step { env: final(env)@, path: final(cursor)@, known: final(host)@, action: r@ })
            == step(stmts(ast@), old(env)@, old(cursor)@, old(host)@),
{
    if cursor.path.len() == 0 {
        return Action::Finished;
    }
    let mut block: &[ParseNode] = ast;
    let mut looping: bool = false;
    let mut d: usize = 0;
    let depth: usize = cursor.path.len() - 1;
    while d < depth
        invariant
            d <= depth,
            depth + 1 == cursor.path@.len(),
            d > 0 ==> cursor.path@[d - 1].index < usize::MAX,
            locate(stmts(ast@), cursor.path@, 0, false) == locate(
                stmts(block@),
                cursor.path@,
                d as nat,
                looping,
            ),
        decreases cursor.path@.len() - d,
    {
        proof {
            lemma_stmts(block@);
        }
        let p = cursor.path[d];
        if p.index >= block.len() {
            return Action::Finished;
        }
        match &block[p.index] {
            ParseNode::If(_, then_block, else_block) => {
                if p.alt {
                    match else_block {
                        Some(inner) => {
                            block = inner.as_slice();
                        },
                        None => {
                            return Action::Finished;
                        },
                    }
                } else {
                    block = then_block.as_slice();
                }
                looping = false;
            },
            ParseNode::While(_, body) => {
                if p.alt {
                    return Action::Finished;
                }
                block = body.as_slice();
                looping = true;
            },
            _ => {
                return Action::Finished;
            },
        }
        d += 1;
    }
    proof {
        lemma_stmts(block@);
    }
    let last = cursor.path[cursor.path.len() - 1];
    if last.index < block.len() {
        execute_statement(&block[last.index], env, cursor, host)
    } else if cursor.path.len() == 1 {
        Action::Finished
    } else {
        cursor.leave(looping);
        host.clear();
        Action::Continue
    }
}

} // verus!

//! The variable store, and the evaluation of an expression against it.

use vstd::prelude::*;
use crate::error::{Error, Interrupt, Stop};
use crate::expr_parser::{Expr, ParseExprNode, exprs, lemma_exprs};
use crate::expr_tokenizer::BinaryOp;
use crate::host::{Answers, Asked, NumOp, Replied, Request, extends, known_number};
use crate::number::{negated, to_index, whole_part};
use crate::text::same_text;
use crate::val::{
    Val, Value, item_at, lemma_numeric_settled, lemma_sum_settled, lemma_views, numeric, outcome,
    settled, sum, value_eq, value_le, value_lt, views,
};

verus! {

/// The place of the first entry for a name at or after `from`, or the
/// length where there is none.
pub open spec fn first_at(entries: Seq<(String, Val)>, name: Seq<char>, from: nat) -> nat
    decreases entries.len() - from,
{
    if from >= entries.len() {
        entries.len()
    } else if entries[from as int].0@ == name {
        from
    } else {
        first_at(entries, name, from + 1)
    }
}

/// `first_at` is the least place from `from` on that holds the name.
pub proof fn lemma_first_at(entries: Seq<(String, Val)>, name: Seq<char>, from: nat)
    requires
        from <= entries.len(),
    ensures
        from <= first_at(entries, name, from) <= entries.len(),
        forall|j: int| from <= j < first_at(entries, name, from) ==> entries[j].0@ != name,
        first_at(entries, name, from) < entries.len() ==> entries[first_at(
            entries,
            name,
            from,
        ) as int].0@ == name,
    decreases entries.len() - from,
{
    if from < entries.len() && entries[from as int].0@ != name {
        lemma_first_at(entries, name, from + 1);
    }
}

/// A place that holds the name with none before it is `first_at`.
pub proof fn lemma_first_at_is(entries: Seq<(String, Val)>, name: Seq<char>, from: nat, at: nat)
    requires
        from <= at <= entries.len(),
        forall|j: int| from <= j < at ==> entries[j].0@ != name,
        at < entries.len() ==> entries[at as int].0@ == name,
    ensures
        first_at(entries, name, from) == at,
    decreases at - from,
{
    if from < at {
        lemma_first_at_is(entries, name, from + 1, at);
    }
}

/// The variables of a running program: one flat mapping from names to
/// values.
#[derive(Debug)]
pub struct Environment {
    variables: Vec<(String, Val)>,
}

impl View for Environment {
    type V = Map<Seq<char>, Value>;

    closed spec fn view(&self) -> Map<Seq<char>, Value> {
        bindings(self.variables@)
    }
}

/// The mapping that a list of entries stands for: each name is bound to
/// the value of its first entry.
pub open spec fn bindings(entries: Seq<(String, Val)>) -> Map<Seq<char>, Value> {
    Map::new(
        |name: Seq<char>| first_at(entries, name, 0) < entries.len(),
        |name: Seq<char>| entries[first_at(entries, name, 0) as int].1@,
    )
}

/// A new value in the first entry of a name binds the name anew and
/// nothing else.
pub proof fn lemma_rebind(entries: Seq<(String, Val)>, name: Seq<char>, value: Val)
    requires
        first_at(entries, name, 0) < entries.len(),
    ensures
        bindings(
            entries.update(
                first_at(entries, name, 0) as int,
                (entries[first_at(entries, name, 0) as int].0, value),
            ),
        ) == bindings(entries).insert(name, value@),
{
    let at = first_at(entries, name, 0);
    let after = entries.update(at as int, (entries[at as int].0, value));
    lemma_first_at(entries, name, 0);
    assert forall|q: Seq<char>|
        (#[trigger] bindings(after).contains_key(q)) == bindings(entries).insert(
            name,
            value@,
        ).contains_key(q) && (bindings(after).contains_key(q) ==> bindings(after)[q] == bindings(
            entries,
        ).insert(name, value@)[q]) by {
        lemma_first_at(entries, q, 0);
        lemma_first_at_is(after, q, 0, first_at(entries, q, 0));
    }
    assert(bindings(after) =~= bindings(entries).insert(name, value@));
}

/// A new entry for a name that has none binds the name and nothing else.
pub proof fn lemma_bind(entries: Seq<(String, Val)>, name: String, value: Val)
    requires
        first_at(entries, name@, 0) >= entries.len(),
    ensures
        bindings(entries.push((name, value))) == bindings(entries).insert(name@, value@),
{
    let after = entries.push((name, value));
    lemma_first_at(entries, name@, 0);
    assert forall|q: Seq<char>|
        (#[trigger] bindings(after).contains_key(q)) == bindings(entries).insert(
            name@,
            value@,
        ).contains_key(q) && (bindings(after).contains_key(q) ==> bindings(after)[q] == bindings(
            entries,
        ).insert(name@, value@)[q]) by {
        lemma_first_at(entries, q, 0);
        let p = first_at(entries, q, 0);
        if q == name@ {
            lemma_first_at_is(after, q, 0, entries.len());
        } else if p < entries.len() {
            lemma_first_at_is(after, q, 0, p);
        } else {
            lemma_first_at_is(after, q, 0, after.len());
        }
    }
    assert(bindings(after) =~= bindings(entries).insert(name@, value@));
}

/// The vector index that a value stands for: the whole part of a number,
/// where it fits the machine.
pub open spec fn index_of(v: Value) -> Result<nat, Error> {
    match v {
        Value::Number(bits) => match whole_part(bits) {
            Some(n) => if n <= usize::MAX {
                Ok(n)
            } else {
                Err(Error::IndexOutOfRange)
            },
            None => Err(Error::IndexOutOfRange),
        },
        _ => Err(Error::TypeMismatch),
    }
}

/// The item that the indices from `k` on select in a value, one dimension
/// after the other.
pub open spec fn reads(v: Value, indices: Seq<Value>, k: nat) -> Result<Value, Error>
    decreases indices.len() - k,
{
    if k >= indices.len() {
        Ok(v)
    } else {
        match index_of(indices[k as int]) {
            Err(e) => Err(e),
            Ok(n) => match item_at(v, n) {
                Err(e) => Err(e),
                Ok(item) => reads(item, indices, k + 1),
            },
        }
    }
}

/// A failure as the outcome of an evaluation.
pub open spec fn failed(r: Result<Value, Error>) -> Result<Value, Stop> {
    match r {
        Ok(v) => Ok(v),
        Err(e) => Err(Stop::Fail(e)),
    }
}

/// The result of an operator on two values.
pub open spec fn applied(op: BinaryOp, a: Value, b: Value, known: Map<Asked, Replied>) -> Result<
    Value,
    Stop,
> {
    match op {
        BinaryOp::And => match (a, b) {
            (Value::Bool(x), Value::Bool(y)) => Ok(Value::Bool(x && y)),
            _ => Err(Stop::Fail(Error::TypeMismatch)),
        },
        BinaryOp::Or => match (a, b) {
            (Value::Bool(x), Value::Bool(y)) => Ok(Value::Bool(x || y)),
            _ => Err(Stop::Fail(Error::TypeMismatch)),
        },
        BinaryOp::Eq => Ok(Value::Bool(value_eq(a, b))),
        BinaryOp::NotEq => Ok(Value::Bool(!value_eq(a, b))),
        BinaryOp::Gt => Ok(Value::Bool(value_lt(b, a))),
        BinaryOp::Gtoe => Ok(Value::Bool(value_le(b, a))),
        BinaryOp::Lt => Ok(Value::Bool(value_lt(a, b))),
        BinaryOp::Ltoe => Ok(Value::Bool(value_le(a, b))),
        BinaryOp::Add => sum(a, b, known),
        BinaryOp::Sub => numeric(NumOp::Sub, a, b, known),
        BinaryOp::Rem => numeric(NumOp::Rem, a, b, known),
        BinaryOp::Div => numeric(NumOp::Div, a, b, known),
        BinaryOp::Mul => numeric(NumOp::Mul, a, b, known),
    }
}

/// The value of an expression in an environment, with the answers that
/// the host has given. Where an answer is missing, the first request that the
/// evaluation meets; where it fails, the first error.
pub open spec fn eval(env: Map<Seq<char>, Value>, e: Expr, known: Map<Asked, Replied>) -> Result<
    Value,
    Stop,
>
    decreases e, 0nat,
{
    match e {
        Expr::VarName(name) => if env.contains_key(name) {
            Ok(env[name])
        } else {
            Err(Stop::Fail(Error::UndeclaredVariable))
        },
        Expr::Number(text) => match known_number(known, Asked::Parse(text)) {
            Some(bits) => Ok(Value::Number(bits)),
            None => Err(Stop::Ask(Asked::Parse(text))),
        },
        Expr::String(s) => Ok(Value::Str(s)),
        Expr::Bool(b) => Ok(Value::Bool(b)),
        Expr::Null => Ok(Value::Null),
        Expr::VecAccess(name, index) => match eval_all(env, index, 0, Seq::empty(), known) {
            Err(stop) => Err(stop),
            Ok(indices) => if env.contains_key(name) {
                failed(reads(env[name], indices, 0))
            } else {
                Err(Stop::Fail(Error::UndeclaredVariable))
            },
        },
        Expr::Vector(items) => match eval_all(env, items, 0, Seq::empty(), known) {
            Err(stop) => Err(stop),
            Ok(values) => Ok(Value::Vec(values)),
        },
        Expr::Neg(a) => match eval(env, *a, known) {
            Err(stop) => Err(stop),
            Ok(Value::Number(bits)) => Ok(Value::Number(negated(bits))),
            Ok(_) => Err(Stop::Fail(Error::TypeMismatch)),
        },
        Expr::Not(a) => match eval(env, *a, known) {
            Err(stop) => Err(stop),
            Ok(Value::Bool(b)) => Ok(Value::Bool(!b)),
            Ok(_) => Err(Stop::Fail(Error::TypeMismatch)),
        },
        Expr::Binary(op, a, b) => match eval(env, *a, known) {
            Err(stop) => Err(stop),
            Ok(x) => match eval(env, *b, known) {
                Err(stop) => Err(stop),
                Ok(y) => applied(op, x, y, known),
            },
        },
    }
}

/// The values of the expressions from `k` on, in their order, after those
/// done already.
pub open spec fn eval_all(
    env: Map<Seq<char>, Value>,
    items: Seq<Expr>,
    k: nat,
    done: Seq<Value>,
    known: Map<Asked, Replied>,
) -> Result<Seq<Value>, Stop>
    decreases items, items.len() - k,
{
    if k >= items.len() {
        Ok(done)
    } else {
        match eval(env, items[k as int], known) {
            Err(stop) => Err(stop),
            Ok(v) => eval_all(env, items, k + 1, done.push(v), known),
        }
    }
}

/// A list of expressions has one value for each of them: a vector literal
/// is as long as it was written, and a vector access has one index for each
/// dimension.
pub proof fn lemma_eval_all_count(
    env: Map<Seq<char>, Value>,
    items: Seq<Expr>,
    k: nat,
    done: Seq<Value>,
    known: Map<Asked, Replied>,
)
    requires
        k <= items.len(),
        eval_all(env, items, k, done, known) is Ok,
    ensures
        eval_all(env, items, k, done, known)->Ok_0.len() == done.len() + items.len() - k,
    decreases items.len() - k,
{
    if k < items.len() {
        match eval(env, items[k as int], known) {
            Err(stop) => {},
            Ok(v) => {
                lemma_eval_all_count(env, items, k + 1, done.push(v), known);
            },
        }
    }
}

/// Further answers of the host do not change the result of an operator
/// that needed none of them.
pub proof fn lemma_applied_settled(
    op: BinaryOp,
    a: Value,
    b: Value,
    known: Map<Asked, Replied>,
    more: Map<Asked, Replied>,
)
    requires
        extends(more, known),
        settled(applied(op, a, b, known)),
    ensures
        applied(op, a, b, more) == applied(op, a, b, known),
{
    match op {
        BinaryOp::Add => lemma_sum_settled(a, b, known, more),
        BinaryOp::Sub => lemma_numeric_settled(NumOp::Sub, a, b, known, more),
        BinaryOp::Rem => lemma_numeric_settled(NumOp::Rem, a, b, known, more),
        BinaryOp::Div => lemma_numeric_settled(NumOp::Div, a, b, known, more),
        BinaryOp::Mul => lemma_numeric_settled(NumOp::Mul, a, b, known, more),
        _ => {},
    }
}

/// An evaluation that has come to a value or to a failure comes to the
/// same again, whatever the host answers afterwards: only a request can turn
/// into something else.
pub proof fn lemma_eval_settled(
    env: Map<Seq<char>, Value>,
    e: Expr,
    known: Map<Asked, Replied>,
    more: Map<Asked, Replied>,
)
    requires
        extends(more, known),
        settled(eval(env, e, known)),
    ensures
        eval(env, e, more) == eval(env, e, known),
    decreases e, 0nat,
{
    match e {
        Expr::Number(text) => {
            assert(known.contains_key(Asked::Parse(text)));
        },
        Expr::VecAccess(name, index) => {
            lemma_eval_all_settled(env, index, 0, Seq::empty(), known, more);
        },
        Expr::Vector(items) => {
            lemma_eval_all_settled(env, items, 0, Seq::empty(), known, more);
        },
        Expr::Neg(a) => {
            lemma_eval_settled(env, *a, known, more);
        },
        Expr::Not(a) => {
            lemma_eval_settled(env, *a, known, more);
        },
        Expr::Binary(op, a, b) => {
            lemma_eval_settled(env, *a, known, more);
            match eval(env, *a, known) {
                Ok(x) => {
                    lemma_eval_settled(env, *b, known, more);
                    match eval(env, *b, known) {
                        Ok(y) => {
                            lemma_applied_settled(op, x, y, known, more);
                        },
                        Err(_) => {},
                    }
                },
                Err(_) => {},
            }
        },
        _ => {},
    }
}

/// The same for a list of expressions.
pub proof fn lemma_eval_all_settled(
    env: Map<Seq<char>, Value>,
    items: Seq<Expr>,
    k: nat,
    done: Seq<Value>,
    known: Map<Asked, Replied>,
    more: Map<Asked, Replied>,
)
    requires
        extends(more, known),
        settled(eval_all(env, items, k, done, known)),
    ensures
        eval_all(env, items, k, done, more) == eval_all(env, items, k, done, known),
    decreases items, items.len() - k,
{
    if k < items.len() {
        lemma_eval_settled(env, items[k as int], known, more);
        match eval(env, items[k as int], known) {
            Ok(v) => {
                lemma_eval_all_settled(env, items, k + 1, done.push(v), known, more);
            },
            Err(_) => {},
        }
    }
}

/// The vector index that a value stands for.
pub fn index_value(v: &Val) -> (r: Result<usize, Error>)
    ensures
        match r {
            Ok(n) => index_of(v@) == Ok::<nat, Error>(n as nat),
            Err(e) => index_of(v@) == Err::<nat, Error>(e),
        },
{
    match v {
        Val::Number(bits) => match to_index(*bits) {
            Some(n) => Ok(n),
            None => Err(Error::IndexOutOfRange),
        },
        _ => Err(Error::TypeMismatch),
    }
}

/// The result of an operator on two values.
pub fn apply(op: BinaryOp, a: Val, b: Val, host: &Answers) -> (r: Result<Val, Interrupt>)
    ensures
        outcome(r) == applied(op, a@, b@, host@),
{
    match op {
        BinaryOp::And => match a.and(b) {
            Ok(v) => Ok(v),
            Err(e) => Err(Interrupt::Fail(e)),
        },
        BinaryOp::Or => match a.or(b) {
            Ok(v) => Ok(v),
            Err(e) => Err(Interrupt::Fail(e)),
        },
        BinaryOp::Eq => Ok(Val::Bool(a.equals(&b))),
        BinaryOp::NotEq => Ok(Val::Bool(!a.equals(&b))),
        BinaryOp::Gt => Ok(Val::Bool(b.less_than(&a))),
        BinaryOp::Gtoe => Ok(Val::Bool(b.less_or_equal(&a))),
        BinaryOp::Lt => Ok(Val::Bool(a.less_than(&b))),
        BinaryOp::Ltoe => Ok(Val::Bool(a.less_or_equal(&b))),
        BinaryOp::Add => a.add(b, host),
        BinaryOp::Sub => a.sub(b, host),
        BinaryOp::Rem => a.rem(b, host),
        BinaryOp::Div => a.div(b, host),
        BinaryOp::Mul => a.mul(b, host),
    }
}

impl Environment {
    /// An environment without variables.
    pub fn new() -> (r: Environment)
        ensures
            r@ == Map::<Seq<char>, Value>::empty(),
    {
        let r = Environment { variables: Vec::new() };
        assert(r@ =~= Map::<Seq<char>, Value>::empty());
        r
    }

    fn position(&self, key: &str) -> (r: usize)
        ensures
            r == first_at(self.variables@, key@, 0),
            r <= self.variables@.len(),
    {
        let mut i: usize = 0;
        while i < self.variables.len()
            invariant
                i <= self.variables@.len(),
                first_at(self.variables@, key@, 0) == first_at(self.variables@, key@, i as nat),
            decreases self.variables@.len() - i,
        {
            if same_text(self.variables[i].0.as_str(), key) {
                return i;
            }
            i += 1;
        }
        i
    }

    /// Binds a name to a value, whether or not it was bound before.
    pub fn insert(&mut self, variable: String, value: Val)
        ensures
            final(self)@ == old(self)@.insert(variable@, value@),
    {
        let at = self.position(variable.as_str());
        proof {
            lemma_first_at(self.variables@, variable@, 0);
            if at < self.variables@.len() {
                lemma_rebind(self.variables@, variable@, value);
            } else {
                lemma_bind(self.variables@, variable, value);
            }
        }
        if at < self.variables.len() {
            let ghost entries = self.variables@;
            self.variables[at].1 = value;
            assert(self.variables@ =~= entries.update(at as int, (entries[at as int].0, value)));
        } else {
            self.variables.push((variable, value));
        }
    }

    /// The value of a variable, to be changed in its place.
    pub fn get_mut_ref(&mut self, key: &str) -> (r: Result<&mut Val, Error>)
        ensures
            match r {
                Ok(v) => old(self)@.contains_key(key@) && v@ == old(self)@[key@] && final(self)@
                    == old(self)@.insert(key@, final(v)@),
                Err(e) => !old(self)@.contains_key(key@) && e == Error::UndeclaredVariable
                    && final(self)@ == old(self)@,
            },
    {
        let at = self.position(key);
        proof {
            lemma_first_at(self.variables@, key@, 0);
            if at < self.variables@.len() {
                assert forall|value: Val|
                    #![trigger bindings(
                        self.variables@.update(at as int, (self.variables@[at as int].0, value)),
                    )]
                    bindings(
                        self.variables@.update(at as int, (self.variables@[at as int].0, value)),
                    ) == bindings(self.variables@).insert(key@, value@) by {
                    lemma_rebind(self.variables@, key@, value);
                }
            }
        }
        if at < self.variables.len() {
            Ok(&mut self.variables[at].1)
        } else {
            Err(Error::UndeclaredVariable)
        }
    }

    /// The value of a variable. Fails with `UndeclaredVariable` where
    /// nothing was assigned to the name.
    pub fn get_ref(&self, key: &str) -> (r: Result<&Val, Error>)
        ensures
            match r {
                Ok(v) => self@.contains_key(key@) && self@[key@] == v@,
                Err(e) => !self@.contains_key(key@) && e == Error::UndeclaredVariable,
            },
    {
        let at = self.position(key);
        if at < self.variables.len() {
            Ok(&self.variables[at].1)
        } else {
            Err(Error::UndeclaredVariable)
        }
    }

    /// The values of a list of expressions, in their order.
    pub fn evaluate_all(&self, v: &Vec<ParseExprNode>, host: &Answers) -> (r: Result<
        Vec<Val>,
        Interrupt,
    >)
        ensures
            match r {
                Ok(values) => eval_all(self@, exprs(v@), 0, Seq::empty(), host@) == Ok::<
                    Seq<Value>,
                    Stop,
                >(views(values@)),
                Err(stop) => eval_all(self@, exprs(v@), 0, Seq::empty(), host@) == Err::<
                    Seq<Value>,
                    Stop,
                >(stop@),
            },
        decreases v, 0nat,
    {
        proof {
            lemma_exprs(v@);
        }
        let mut values: Vec<Val> = Vec::new();
        let mut k: usize = 0;
        while k < v.len()
            invariant
                k <= v@.len(),
                exprs(v@).len() == v@.len(),
                forall|j: int| 0 <= j < v@.len() ==> #[trigger] exprs(v@)[j] == v@[j]@,
                eval_all(self@, exprs(v@), 0, Seq::empty(), host@) == eval_all(
                    self@,
                    exprs(v@),
                    k as nat,
                    views(values@),
                    host@,
                ),
            decreases v@.len() - k,
        {
            let ghost before = values@;
            match self.evaluate(&v[k], host) {
                Err(stop) => {
                    return Err(stop);
                },
                Ok(value) => {
                    values.push(value);
                    assert(values@.drop_last() =~= before);
                },
            }
            k += 1;
        }
        Ok(values)
    }

    fn execute_vec_access(&self, name: &str, index: &Vec<ParseExprNode>, host: &Answers) -> (r:
        Result<Val, Interrupt>)
        ensures
            outcome(r) == eval(self@, Expr::VecAccess(name@, exprs(index@)), host@),
        decreases index, 1nat,
    {
        let indices = match self.evaluate_all(index, host) {
            Err(stop) => {
                return Err(stop);
            },
            Ok(indices) => indices,
        };
        let whole = match self.get_ref(name) {
            Err(e) => {
                return Err(Interrupt::Fail(e));
            },
            Ok(whole) => whole,
        };
        proof {
            lemma_views(indices@);
        }
        let mut item: &Val = whole;
        let mut k: usize = 0;
        while k < indices.len()
            invariant
                k <= indices@.len(),
                views(indices@).len() == indices@.len(),
                forall|j: int|
                    0 <= j < indices@.len() ==> #[trigger] views(indices@)[j] == indices@[j]@,
                eval_all(self@, exprs(index@), 0, Seq::empty(), host@) == Ok::<Seq<Value>, Stop>(
                    views(indices@),
                ),
                self@.contains_key(name@) && self@[name@] == whole@,
                reads(whole@, views(indices@), 0) == reads(item@, views(indices@), k as nat),
            decreases indices@.len() - k,
        {
            let n = match index_value(&indices[k]) {
                Err(e) => {
                    return Err(Interrupt::Fail(e));
                },
                Ok(n) => n,
            };
            item =
            match item.index(n) {
                Err(e) => {
                    return Err(Interrupt::Fail(e));
                },
                Ok(inner) => inner,
            };
            k += 1;
        }
        Ok(item.clone())
    }

    /// The value of an expression. Where the host has not yet given an
    /// answer that the evaluation needs, the request for it; the environment
    /// is the same afterwards in every case.
    pub fn evaluate(&self, node: &ParseExprNode, host: &Answers) -> (r: Result<Val, Interrupt>)
        ensures
            outcome(r) == eval(self@, node@, host@),
        decreases node, 2nat,
    {
        match node {
            ParseExprNode::VarName(name) => match self.get_ref(name.as_str()) {
                Ok(v) => Ok(v.clone()),
                Err(e) => Err(Interrupt::Fail(e)),
            },
            ParseExprNode::Number(text) => {
                let request = Request::Parse(text.clone());
                match host.number(&request) {
                    Some(bits) => Ok(Val::Number(bits)),
                    None => Err(Interrupt::Ask(request)),
                }
            },
            ParseExprNode::String(s) => Ok(Val::Str(s.clone())),
            ParseExprNode::Bool(b) => Ok(Val::Bool(*b)),
            ParseExprNode::Null => Ok(Val::Null),
            ParseExprNode::VecAccess(name, index) => self.execute_vec_access(
                name.as_str(),
                index,
                host,
            ),
            ParseExprNode::Vector(items) => match self.evaluate_all(items, host) {
                Err(stop) => Err(stop),
                Ok(values) => Ok(Val::Vec(values)),
            },
            ParseExprNode::Neg(a) => match self.evaluate(a, host) {
                Err(stop) => Err(stop),
                Ok(v) => match v.minus() {
                    Ok(r) => Ok(r),
                    Err(e) => Err(Interrupt::Fail(e)),
                },
            },
            ParseExprNode::Not(a) => match self.evaluate(a, host) {
                Err(stop) => Err(stop),
                Ok(v) => match v.not() {
                    Ok(r) => Ok(r),
                    Err(e) => Err(Interrupt::Fail(e)),
                },
            },
            ParseExprNode::Binary(op, a, b) => match self.evaluate(a, host) {
                Err(stop) => Err(stop),
                Ok(x) => match self.evaluate(b, host) {
                    Err(stop) => Err(stop),
                    Ok(y) => apply(*op, x, y, host),
                },
            },
        }
    }
}

} // verus!

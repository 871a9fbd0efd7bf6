//! The values of the language and the operators on them.

use vstd::prelude::*;
use crate::error::{Error, Interrupt, Stop};
use crate::host::{
    Answers, Asked, NumOp, Replied, Request, extends, known_number, known_text,
};
use crate::number::{
    equal_bits, less_bits, less_or_equal_bits, negate_bits, negated, number_eq, number_le,
    number_lt,
};

verus! {

/// A value at run time. A number is a double, held as its bits.
///
/// `==` on two values compares what they hold, numbers bit by bit; the
/// equality of the language, in which the two zeros are equal and a NaN
/// equals nothing, is [`Val::equals`].
#[derive(Debug, PartialEq)]
pub enum Val {
    Bool(bool),
    Number(u64),
    Str(String),
    Vec(Vec<Val>),
    Null,
}

/// The mathematical model of a [`Val`].
pub enum Value {
    Bool(bool),
    Number(u64),
    Str(Seq<char>),
    Vec(Seq<Value>),
    Null,
}

/// The model of a value.
pub open spec fn model(v: Val) -> Value
    decreases v,
{
    match v {
        Val::Bool(b) => Value::Bool(b),
        Val::Number(n) => Value::Number(n),
        Val::Str(s) => Value::Str(s@),
        Val::Vec(items) => Value::Vec(views(items@)),
        Val::Null => Value::Null,
    }
}

/// The models of a sequence of values, item by item.
pub open spec fn views(items: Seq<Val>) -> Seq<Value>
    decreases items,
{
    if items.len() == 0 {
        Seq::empty()
    } else {
        views(items.drop_last()).push(model(items.last()))
    }
}

impl View for Val {
    type V = Value;

    open spec fn view(&self) -> Value {
        model(*self)
    }
}

/// `views` keeps the length and models each item in its place.
pub proof fn lemma_views(items: Seq<Val>)
    ensures
        views(items).len() == items.len(),
        forall|i: int| 0 <= i < items.len() ==> #[trigger] views(items)[i] == items[i]@,
    decreases items.len(),
{
    if items.len() > 0 {
        lemma_views(items.drop_last());
    }
}

/// The model of the outcome of an evaluation.
pub open spec fn outcome(r: Result<Val, Interrupt>) -> Result<Value, Stop> {
    match r {
        Ok(v) => Ok(v@),
        Err(e) => Err(e@),
    }
}

/// The model of a value or an error.
pub open spec fn checked(r: Result<Val, Error>) -> Result<Value, Error> {
    match r {
        Ok(v) => Ok(v@),
        Err(e) => Err(e),
    }
}

/// The result of an arithmetic operator on two doubles: the host's answer,
/// or the request for it.
pub open spec fn arith(op: NumOp, a: u64, b: u64, known: Map<Asked, Replied>) -> Result<
    Value,
    Stop,
> {
    match known_number(known, Asked::Arith(op, a, b)) {
        Some(bits) => Ok(Value::Number(bits)),
        None => Err(Stop::Ask(Asked::Arith(op, a, b))),
    }
}

/// An arithmetic operator that only numbers have.
pub open spec fn numeric(op: NumOp, a: Value, b: Value, known: Map<Asked, Replied>) -> Result<
    Value,
    Stop,
> {
    match (a, b) {
        (Value::Number(x), Value::Number(y)) => arith(op, x, y, known),
        _ => Err(Stop::Fail(Error::TypeMismatch)),
    }
}

/// The text of a value: a string as it is, a number as the host writes
/// it, a vector as `[e1, e2]`, `Null` for null.
pub open spec fn text_of(v: Value, known: Map<Asked, Replied>) -> Result<Seq<char>, Stop>
    decreases v, 0nat,
{
    match v {
        Value::Bool(b) => Ok(
            if b {
                "true"@
            } else {
                "false"@
            },
        ),
        Value::Number(bits) => match known_text(known, Asked::Format(bits)) {
            Some(text) => Ok(text),
            None => Err(Stop::Ask(Asked::Format(bits))),
        },
        Value::Str(s) => Ok(s),
        Value::Vec(items) => joined(items, known, 0, "["@),
        Value::Null => Ok("Null"@),
    }
}

/// The text of a vector from item `i` on, behind what is written already.
pub open spec fn joined(items: Seq<Value>, known: Map<Asked, Replied>, i: nat, written: Seq<char>)
    -> Result<Seq<char>, Stop>
    decreases items, items.len() - i,
{
    if i >= items.len() {
        Ok(written + "]"@)
    } else {
        match text_of(items[i as int], known) {
            Ok(text) => joined(
                items,
                known,
                i + 1,
                if i == 0 {
                    written + text
                } else {
                    written + ", "@ + text
                },
            ),
            Err(stop) => Err(stop),
        }
    }
}

/// The item that a path of indices selects in a value, from position
/// `at` of the path on.
pub open spec fn selected(v: Value, path: Seq<usize>, at: nat) -> Result<Value, Error>
    decreases path.len() - at,
{
    if at >= path.len() {
        Ok(v)
    } else {
        match item_at(v, path[at as int] as nat) {
            Err(e) => Err(e),
            Ok(item) => selected(item, path, at + 1),
        }
    }
}

/// What was written at a path is what is read there afterwards.
pub proof fn lemma_write_then_read(v: Value, path: Seq<usize>, at: nat, item: Value)
    requires
        written(v, path, at, item) is Ok,
    ensures
        selected(written(v, path, at, item)->Ok_0, path, at) == Ok::<Value, Error>(item),
    decreases path.len() - at,
{
    match v {
        Value::Vec(items) => {
            let i = path[at as int] as int;
            if at + 1 < path.len() {
                lemma_write_then_read(items[i], path, at + 1, item);
            } else {
                assert(selected(item, path, at + 1) == Ok::<Value, Error>(item));
            }
        },
        _ => {},
    }
}

/// A write changes one item of the vector that it starts in and leaves
/// every other item, and the length, as they were.
pub proof fn lemma_write_keeps_siblings(
    v: Value,
    path: Seq<usize>,
    at: nat,
    item: Value,
    other: nat,
)
    requires
        written(v, path, at, item) is Ok,
        other != path[at as int],
    ensures
        v is Vec,
        written(v, path, at, item)->Ok_0 is Vec,
        written(v, path, at, item)->Ok_0->Vec_0.len() == v->Vec_0.len(),
        item_at(written(v, path, at, item)->Ok_0, other) == item_at(v, other),
{
}

/// An outcome that no further answer of the host changes: a result or a
/// failure, not a request.
pub open spec fn settled<T>(r: Result<T, Stop>) -> bool {
    match r {
        Ok(_) => true,
        Err(stop) => stop is Fail,
    }
}

/// `a + b`: the sum of two numbers, a string followed by the text of
/// anything, or two vectors joined.
pub open spec fn sum(a: Value, b: Value, known: Map<Asked, Replied>) -> Result<Value, Stop> {
    match (a, b) {
        (Value::Number(x), Value::Number(y)) => arith(NumOp::Add, x, y, known),
        (Value::Str(s), _) => match text_of(b, known) {
            Ok(text) => Ok(Value::Str(s + text)),
            Err(stop) => Err(stop),
        },
        (Value::Vec(u), Value::Vec(w)) => Ok(Value::Vec(u + w)),
        _ => Err(Stop::Fail(Error::TypeMismatch)),
    }
}

/// `a == b` in the language: by structure, numbers by IEEE equality.
pub open spec fn value_eq(a: Value, b: Value) -> bool
    decreases a,
{
    match (a, b) {
        (Value::Bool(x), Value::Bool(y)) => x == y,
        (Value::Number(x), Value::Number(y)) => number_eq(x, y),
        (Value::Str(s), Value::Str(t)) => s == t,
        (Value::Vec(u), Value::Vec(w)) => u.len() == w.len() && forall|i: int|
            0 <= i < u.len() ==> value_eq(#[trigger] u[i], w[i]),
        (Value::Null, Value::Null) => true,
        _ => false,
    }
}

/// `a < b` in the language: only numbers are ordered.
pub open spec fn value_lt(a: Value, b: Value) -> bool {
    match (a, b) {
        (Value::Number(x), Value::Number(y)) => number_lt(x, y),
        _ => false,
    }
}

/// `a <= b` in the language: only numbers are ordered.
pub open spec fn value_le(a: Value, b: Value) -> bool {
    match (a, b) {
        (Value::Number(x), Value::Number(y)) => number_le(x, y),
        _ => false,
    }
}

/// The item at an index of a vector.
pub open spec fn item_at(v: Value, i: nat) -> Result<Value, Error> {
    match v {
        Value::Vec(items) => if i < items.len() {
            Ok(items[i as int])
        } else {
            Err(Error::IndexOutOfRange)
        },
        _ => Err(Error::TypeMismatch),
    }
}

/// The value with the item at the end of an index path replaced, from
/// position `at` of the path on. Every index but the last selects the
/// vector to descend into.
pub open spec fn written(v: Value, path: Seq<usize>, at: nat, item: Value) -> Result<Value, Error>
    decreases path.len() - at,
{
    if at >= path.len() {
        Err(Error::MalformedVectorWrite)
    } else {
        match v {
            Value::Vec(items) => {
                let i = path[at as int] as int;
                if i >= items.len() {
                    Err(Error::IndexOutOfRange)
                } else if at + 1 == path.len() {
                    Ok(Value::Vec(items.update(i, item)))
                } else {
                    match written(items[i], path, at + 1, item) {
                        Ok(inner) => Ok(Value::Vec(items.update(i, inner))),
                        Err(e) => Err(e),
                    }
                }
            },
            _ => Err(Error::TypeMismatch),
        }
    }
}

/// Further answers of the host do not change the text of a value that
/// needed none of them.
pub proof fn lemma_text_settled(v: Value, known: Map<Asked, Replied>, more: Map<Asked, Replied>)
    requires
        extends(more, known),
        settled(text_of(v, known)),
    ensures
        text_of(v, more) == text_of(v, known),
    decreases v, 0nat,
{
    match v {
        Value::Vec(items) => {
            lemma_joined_settled(items, known, more, 0, "["@);
        },
        Value::Number(bits) => {
            assert(known.contains_key(Asked::Format(bits)));
        },
        _ => {},
    }
}

/// Further answers of the host do not change the text of the rest of a
/// vector that needed none of them.
pub proof fn lemma_joined_settled(
    items: Seq<Value>,
    known: Map<Asked, Replied>,
    more: Map<Asked, Replied>,
    i: nat,
    written: Seq<char>,
)
    requires
        extends(more, known),
        settled(joined(items, known, i, written)),
    ensures
        joined(items, more, i, written) == joined(items, known, i, written),
    decreases items, items.len() - i,
{
    if i < items.len() {
        lemma_text_settled(items[i as int], known, more);
        match text_of(items[i as int], known) {
            Ok(text) => {
                lemma_joined_settled(
                    items,
                    known,
                    more,
                    i + 1,
                    if i == 0 {
                        written + text
                    } else {
                        written + ", "@ + text
                    },
                );
            },
            Err(_) => {},
        }
    }
}

/// Further answers of the host do not change a sum that needed none of
/// them.
pub proof fn lemma_sum_settled(
    a: Value,
    b: Value,
    known: Map<Asked, Replied>,
    more: Map<Asked, Replied>,
)
    requires
        extends(more, known),
        settled(sum(a, b, known)),
    ensures
        sum(a, b, more) == sum(a, b, known),
{
    match (a, b) {
        (Value::Number(x), Value::Number(y)) => {
            assert(known.contains_key(Asked::Arith(NumOp::Add, x, y)));
        },
        (Value::Str(s), _) => {
            lemma_text_settled(b, known, more);
        },
        _ => {},
    }
}

/// Further answers of the host do not change the result of an arithmetic
/// operator that needed none of them.
pub proof fn lemma_numeric_settled(
    op: NumOp,
    a: Value,
    b: Value,
    known: Map<Asked, Replied>,
    more: Map<Asked, Replied>,
)
    requires
        extends(more, known),
        settled(numeric(op, a, b, known)),
    ensures
        numeric(op, a, b, more) == numeric(op, a, b, known),
{
    match (a, b) {
        (Value::Number(x), Value::Number(y)) => {
            assert(known.contains_key(Asked::Arith(op, x, y)));
        },
        _ => {},
    }
}

impl Clone for Val {
    fn clone(&self) -> (r: Val)
        ensures
            r@ == self@,
        decreases self,
    {
        match self {
            Val::Bool(b) => Val::Bool(*b),
            Val::Number(n) => Val::Number(*n),
            Val::Str(s) => Val::Str(s.clone()),
            Val::Vec(v) => {
                let mut items: Vec<Val> = Vec::new();
                let mut i: usize = 0;
                while i < v.len()
                    invariant
                        i <= v.len(),
                        items.len() == i,
                        self matches Val::Vec(w) && w == v,
                        forall|j: int| 0 <= j < i ==> items[j]@ == v[j]@,
                    decreases v.len() - i,
                {
                    let item = v[i].clone();
                    items.push(item);
                    i += 1;
                }
                proof {
                    lemma_views(items@);
                    lemma_views(v@);
                    assert(views(items@) =~= views(v@));
                }
                Val::Vec(items)
            },
            Val::Null => Val::Null,
        }
    }
}

/// The host's answer to an arithmetic request, or the request.
pub fn arithmetic(op: NumOp, a: u64, b: u64, host: &Answers) -> (r: Result<Val, Interrupt>)
    ensures
        outcome(r) == arith(op, a, b, host@),
{
    let request = Request::Arith(op, a, b);
    match host.number(&request) {
        Some(bits) => Ok(Val::Number(bits)),
        None => Err(Interrupt::Ask(request)),
    }
}

impl Val {
    fn numeric_op(self, op: NumOp, other: Val, host: &Answers) -> (r: Result<Val, Interrupt>)
        ensures
            outcome(r) == numeric(op, self@, other@, host@),
    {
        match (self, other) {
            (Val::Number(a), Val::Number(b)) => arithmetic(op, a, b, host),
            _ => Err(Interrupt::Fail(Error::TypeMismatch)),
        }
    }

    /// `self + other`.
    pub fn add(self, other: Val, host: &Answers) -> (r: Result<Val, Interrupt>)
        ensures
            outcome(r) == sum(self@, other@, host@),
    {
        match (self, other) {
            (Val::Number(a), Val::Number(b)) => arithmetic(NumOp::Add, a, b, host),
            (Val::Str(s), b) => match b.to_text(host) {
                Ok(text) => Ok(Val::Str(s.concat(text.as_str()))),
                Err(stop) => Err(stop),
            },
            (Val::Vec(mut u), Val::Vec(mut w)) => {
                proof {
                    lemma_views(u@);
                    lemma_views(w@);
                }
                let ghost before = u@;
                let ghost tail = w@;
                u.append(&mut w);
                proof {
                    lemma_views(u@);
                    lemma_views(before);
                    lemma_views(tail);
                    assert(views(u@) =~= views(before) + views(tail));
                }
                Ok(Val::Vec(u))
            },
            _ => Err(Interrupt::Fail(Error::TypeMismatch)),
        }
    }

    /// `self - other`.
    pub fn sub(self, other: Val, host: &Answers) -> (r: Result<Val, Interrupt>)
        ensures
            outcome(r) == numeric(NumOp::Sub, self@, other@, host@),
    {
        self.numeric_op(NumOp::Sub, other, host)
    }

    /// `self * other`.
    pub fn mul(self, other: Val, host: &Answers) -> (r: Result<Val, Interrupt>)
        ensures
            outcome(r) == numeric(NumOp::Mul, self@, other@, host@),
    {
        self.numeric_op(NumOp::Mul, other, host)
    }

    /// `self / other`.
    pub fn div(self, other: Val, host: &Answers) -> (r: Result<Val, Interrupt>)
        ensures
            outcome(r) == numeric(NumOp::Div, self@, other@, host@),
    {
        self.numeric_op(NumOp::Div, other, host)
    }

    /// `self % other`.
    pub fn rem(self, other: Val, host: &Answers) -> (r: Result<Val, Interrupt>)
        ensures
            outcome(r) == numeric(NumOp::Rem, self@, other@, host@),
    {
        self.numeric_op(NumOp::Rem, other, host)
    }

    /// `!self`.
    pub fn not(self) -> (r: Result<Val, Error>)
        ensures
            checked(r) == match self@ {
                Value::Bool(b) => Ok(Value::Bool(!b)),
                _ => Err(Error::TypeMismatch),
            },
    {
        match self {
            Val::Bool(b) => Ok(Val::Bool(!b)),
            _ => Err(Error::TypeMismatch),
        }
    }

    /// `-self`.
    pub fn minus(self) -> (r: Result<Val, Error>)
        ensures
            checked(r) == match self@ {
                Value::Number(bits) => Ok(Value::Number(negated(bits))),
                _ => Err(Error::TypeMismatch),
            },
    {
        match self {
            Val::Number(bits) => Ok(Val::Number(negate_bits(bits))),
            _ => Err(Error::TypeMismatch),
        }
    }

    /// The item at index `i` of a vector.
    pub fn index(&self, i: usize) -> (r: Result<&Val, Error>)
        ensures
            match r {
                Ok(item) => item_at(self@, i as nat) == Ok::<Value, Error>(item@),
                Err(e) => item_at(self@, i as nat) == Err::<Value, Error>(e),
            },
    {
        match self {
            Val::Vec(items) => {
                proof {
                    lemma_views(items@);
                }
                if i < items.len() {
                    Ok(&items[i])
                } else {
                    Err(Error::IndexOutOfRange)
                }
            },
            _ => Err(Error::TypeMismatch),
        }
    }

    /// `self && other`.
    pub fn and(&self, other: Val) -> (r: Result<Val, Error>)
        ensures
            checked(r) == match (self@, other@) {
                (Value::Bool(a), Value::Bool(b)) => Ok(Value::Bool(a && b)),
                _ => Err(Error::TypeMismatch),
            },
    {
        match (self, other) {
            (Val::Bool(a), Val::Bool(b)) => Ok(Val::Bool(*a && b)),
            _ => Err(Error::TypeMismatch),
        }
    }

    /// `self || other`.
    pub fn or(&self, other: Val) -> (r: Result<Val, Error>)
        ensures
            checked(r) == match (self@, other@) {
                (Value::Bool(a), Value::Bool(b)) => Ok(Value::Bool(a || b)),
                _ => Err(Error::TypeMismatch),
            },
    {
        match (self, other) {
            (Val::Bool(a), Val::Bool(b)) => Ok(Val::Bool(*a || b)),
            _ => Err(Error::TypeMismatch),
        }
    }

    /// The vector with one more item at its end.
    pub fn push(self, element: Val) -> (r: Result<Val, Error>)
        ensures
            checked(r) == match self@ {
                Value::Vec(items) => Ok(Value::Vec(items.push(element@))),
                _ => Err(Error::TypeMismatch),
            },
    {
        match self {
            Val::Vec(mut items) => {
                proof {
                    lemma_views(items@);
                }
                let ghost before = items@;
                items.push(element);
                proof {
                    assert(items@.drop_last() =~= before);
                }
                Ok(Val::Vec(items))
            },
            _ => Err(Error::TypeMismatch),
        }
    }

    /// The last item of a vector, and the vector without it.
    pub fn pop(self) -> (r: Result<(Val, Val), Error>)
        ensures
            match self@ {
                Value::Vec(items) => if items.len() > 0 {
                    r matches Ok((last, rest)) && last@ == items.last() && rest@ == Value::Vec(
                        items.drop_last(),
                    )
                } else {
                    r == Err::<(Val, Val), Error>(Error::IndexOutOfRange)
                },
                _ => r == Err::<(Val, Val), Error>(Error::TypeMismatch),
            },
    {
        match self {
            Val::Vec(mut items) => {
                proof {
                    lemma_views(items@);
                }
                let ghost before = items@;
                match items.pop() {
                    Some(last) => {
                        proof {
                            assert(items@ =~= before.drop_last());
                            assert(views(before).drop_last() =~= views(items@));
                        }
                        Ok((last, Val::Vec(items)))
                    },
                    None => Err(Error::IndexOutOfRange),
                }
            },
            _ => Err(Error::TypeMismatch),
        }
    }

    /// `self == other` in the language.
    pub fn equals(&self, other: &Val) -> (r: bool)
        ensures
            r == value_eq(self@, other@),
        decreases self,
    {
        match (self, other) {
            (Val::Bool(a), Val::Bool(b)) => *a == *b,
            (Val::Number(a), Val::Number(b)) => equal_bits(*a, *b),
            (Val::Str(s), Val::Str(t)) => *s == *t,
            (Val::Vec(u), Val::Vec(w)) => {
                proof {
                    lemma_views(u@);
                    lemma_views(w@);
                }
                if u.len() != w.len() {
                    return false;
                }
                let mut i: usize = 0;
                while i < u.len()
                    invariant
                        i <= u.len(),
                        u.len() == w.len(),
                        self matches Val::Vec(x) && x == u,
                        self@ == Value::Vec(views(u@)),
                        other@ == Value::Vec(views(w@)),
                        forall|j: int| 0 <= j < i ==> value_eq(#[trigger] views(u@)[j], views(w@)[j]),
                    decreases u.len() - i,
                {
                    proof {
                        lemma_views(u@);
                        lemma_views(w@);
                    }
                    if !u[i].equals(&w[i]) {
                        assert(!value_eq(views(u@)[i as int], views(w@)[i as int]));
                        return false;
                    }
                    i += 1;
                }
                true
            },
            (Val::Null, Val::Null) => true,
            _ => false,
        }
    }

    /// `self < other` in the language.
    pub fn less_than(&self, other: &Val) -> (r: bool)
        ensures
            r == value_lt(self@, other@),
    {
        match (self, other) {
            (Val::Number(a), Val::Number(b)) => less_bits(*a, *b),
            _ => false,
        }
    }

    /// `self <= other` in the language.
    pub fn less_or_equal(&self, other: &Val) -> (r: bool)
        ensures
            r == value_le(self@, other@),
    {
        match (self, other) {
            (Val::Number(a), Val::Number(b)) => less_or_equal_bits(*a, *b),
            _ => false,
        }
    }

    /// The text of the value, as `print` shows it.
    pub fn to_text(&self, host: &Answers) -> (r: Result<String, Interrupt>)
        ensures
            match r {
                Ok(text) => text_of(self@, host@) == Ok::<Seq<char>, Stop>(text@),
                Err(stop) => text_of(self@, host@) == Err::<Seq<char>, Stop>(stop@),
            },
        decreases self,
    {
        match self {
            Val::Bool(b) => {
                if *b {
                    Ok(String::from_str("true"))
                } else {
                    Ok(String::from_str("false"))
                }
            },
            Val::Number(bits) => {
                let request = Request::Format(*bits);
                match host.text(&request) {
                    Some(text) => Ok(text),
                    None => Err(Interrupt::Ask(request)),
                }
            },
            Val::Str(s) => Ok(s.clone()),
            Val::Vec(items) => {
                proof {
                    lemma_views(items@);
                }
                let mut text = String::from_str("[");
                let mut i: usize = 0;
                while i < items.len()
                    invariant
                        i <= items.len(),
                        self matches Val::Vec(x) && x == items,
                        text_of(self@, host@) == joined(views(items@), host@, i as nat, text@),
                    decreases items.len() - i,
                {
                    proof {
                        lemma_views(items@);
                    }
                    match items[i].to_text(host) {
                        Ok(piece) => {
                            if i > 0 {
                                text.append(", ");
                            }
                            text.append(piece.as_str());
                        },
                        Err(stop) => {
                            return Err(stop);
                        },
                    }
                    i += 1;
                }
                text.append("]");
                Ok(text)
            },
            Val::Null => Ok(String::from_str("Null")),
        }
    }

    /// The value with the item at the end of an index path replaced.
    pub fn write(self, path: &Vec<usize>, item: Val) -> (r: Result<Val, Error>)
        ensures
            checked(r) == written(self@, path@, 0, item@),
    {
        self.write_from(path, 0, item)
    }

    fn write_from(self, path: &Vec<usize>, at: usize, item: Val) -> (r: Result<Val, Error>)
        ensures
            checked(r) == written(self@, path@, at as nat, item@),
        decreases path.len() - at,
    {
        if at >= path.len() {
            return Err(Error::MalformedVectorWrite);
        }
        match self {
            Val::Vec(mut items) => {
                proof {
                    lemma_views(items@);
                }
                let ghost before = items@;
                let i = path[at];
                if i >= items.len() {
                    Err(Error::IndexOutOfRange)
                } else if at + 1 == path.len() {
                    items[i] = item;
                    proof {
                        lemma_views(items@);
                        lemma_views(before);
                        assert(views(items@) =~= views(before).update(i as int, item@));
                    }
                    Ok(Val::Vec(items))
                } else {
                    let inner = items[i].clone();
                    match inner.write_from(path, at + 1, item) {
                        Ok(replaced) => {
                            let ghost model = replaced@;
                            items[i] = replaced;
                            proof {
                                lemma_views(items@);
                                lemma_views(before);
                                assert(views(items@) =~= views(before).update(i as int, model));
                            }
                            Ok(Val::Vec(items))
                        },
                        Err(e) => Err(e),
                    }
                }
            },
            _ => Err(Error::TypeMismatch),
        }
    }
}

} // verus!

//! What the library asks of its host, and the answers it has.
//!
//! Arithmetic on doubles, the value of a decimal literal and the text of a
//! double are the host's work. A [`Request`] names one such piece of work; the
//! host records its answer in an [`Answers`] table, and the evaluation that
//! stopped with the request is run again.

use vstd::prelude::*;

verus! {

/// The arithmetic operators on two doubles.
#[derive(Clone, Copy, Debug, PartialEq, Eq, Structural)]
pub enum NumOp {
    Add,
    Sub,
    Mul,
    Div,
    Rem,
}

/// A piece of work for the host.
#[derive(Debug, PartialEq)]
pub enum Request {
    /// The result of the operator on the two doubles, as bits.
    Arith(NumOp, u64, u64),
    /// The double that a decimal literal denotes, as bits.
    Parse(String),
    /// The decimal text of a double.
    Format(u64),
}

/// The mathematical model of a [`Request`].
pub enum Asked {
    Arith(NumOp, u64, u64),
    Parse(Seq<char>),
    Format(u64),
}

impl View for Request {
    type V = Asked;

    open spec fn view(&self) -> Asked {
        match self {
            Request::Arith(op, a, b) => Asked::Arith(*op, *a, *b),
            Request::Parse(text) => Asked::Parse(text@),
            Request::Format(bits) => Asked::Format(*bits),
        }
    }
}

/// The host's answer to a request.
#[derive(Debug, PartialEq)]
pub enum Reply {
    Number(u64),
    Text(String),
}

/// The mathematical model of a [`Reply`].
pub enum Replied {
    Number(u64),
    Text(Seq<char>),
}

impl View for Reply {
    type V = Replied;

    open spec fn view(&self) -> Replied {
        match self {
            Reply::Number(bits) => Replied::Number(*bits),
            Reply::Text(text) => Replied::Text(text@),
        }
    }
}

impl Request {
    /// Whether two requests ask for the same work.
    pub fn same(&self, other: &Request) -> (r: bool)
        ensures
            r == (self@ == other@),
    {
        match (self, other) {
            (Request::Arith(op, a, b), Request::Arith(op2, a2, b2)) => {
                *op == *op2 && *a == *a2 && *b == *b2
            },
            (Request::Parse(s), Request::Parse(t)) => *s == *t,
            (Request::Format(a), Request::Format(b)) => *a == *b,
            _ => false,
        }
    }

}

impl Clone for Request {
    fn clone(&self) -> (r: Request)
        ensures
            r@ == self@,
    {
        match self {
            Request::Arith(op, a, b) => Request::Arith(*op, *a, *b),
            Request::Parse(text) => Request::Parse(text.clone()),
            Request::Format(bits) => Request::Format(*bits),
        }
    }
}

impl Clone for Reply {
    fn clone(&self) -> (r: Reply)
        ensures
            r@ == self@,
    {
        match self {
            Reply::Number(bits) => Reply::Number(*bits),
            Reply::Text(text) => Reply::Text(text.clone()),
        }
    }
}

/// The answer that a list of recorded answers gives to a request: that of
/// the latest entry for it.
pub open spec fn latest(entries: Seq<(Request, Reply)>, asked: Asked) -> Option<Replied>
    decreases entries.len(),
{
    if entries.len() == 0 {
        None
    } else if entries.last().0@ == asked {
        Some(entries.last().1@)
    } else {
        latest(entries.drop_last(), asked)
    }
}

/// The answers that the host has given so far.
pub struct Answers {
    entries: Vec<(Request, Reply)>,
}

impl View for Answers {
    type V = Map<Asked, Replied>;

    closed spec fn view(&self) -> Map<Asked, Replied> {
        Map::new(
            |asked: Asked| latest(self.entries@, asked) is Some,
            |asked: Asked| latest(self.entries@, asked)->0,
        )
    }
}

/// The number that the answers hold for a request.
pub open spec fn known_number(known: Map<Asked, Replied>, asked: Asked) -> Option<u64> {
    if known.contains_key(asked) {
        match known[asked] {
            Replied::Number(bits) => Some(bits),
            Replied::Text(_) => None,
        }
    } else {
        None
    }
}

/// The text that the answers hold for a request.
pub open spec fn known_text(known: Map<Asked, Replied>, asked: Asked) -> Option<Seq<char>> {
    if known.contains_key(asked) {
        match known[asked] {
            Replied::Text(text) => Some(text),
            Replied::Number(_) => None,
        }
    } else {
        None
    }
}

/// Every answer of `known` is an answer of `more`.
pub open spec fn extends(more: Map<Asked, Replied>, known: Map<Asked, Replied>) -> bool {
    forall|asked: Asked| #[trigger]
        known.contains_key(asked) ==> more.contains_key(asked) && more[asked] == known[asked]
}

impl Answers {
    /// A table without answers.
    pub fn new() -> (r: Answers)
        ensures
            r@ == Map::<Asked, Replied>::empty(),
    {
        let r = Answers { entries: Vec::new() };
        assert(r@ =~= Map::<Asked, Replied>::empty());
        r
    }

    /// Records the host's answer to a request. A later answer to the same
    /// request replaces the earlier one.
    pub fn record(&mut self, request: Request, reply: Reply)
        ensures
            final(self)@ == old(self)@.insert(request@, reply@),
    {
        let ghost before = self.entries@;
        self.entries.push((request, reply));
        proof {
            assert(self.entries@.drop_last() =~= before);
            assert(self@ =~= old(self)@.insert(request@, reply@));
        }
    }

    /// Drops every answer.
    pub fn clear(&mut self)
        ensures
            final(self)@ == Map::<Asked, Replied>::empty(),
    {
        self.entries = Vec::new();
        assert(self@ =~= Map::<Asked, Replied>::empty());
    }

    fn find(&self, request: &Request) -> (r: Option<&Reply>)
        ensures
            match r {
                Some(reply) => self@.contains_key(request@) && self@[request@] == reply@,
                None => !self@.contains_key(request@),
            },
    {
        let mut i: usize = self.entries.len();
        assert(self.entries@.take(i as int) =~= self.entries@);
        while i > 0
            invariant
                i <= self.entries.len(),
                latest(self.entries@, request@) == latest(self.entries@.take(i as int), request@),
            decreases i,
        {
            let ghost prefix = self.entries@.take(i as int);
            assert(prefix.last() == self.entries@[i - 1]);
            assert(prefix.drop_last() =~= self.entries@.take(i - 1));
            if self.entries[i - 1].0.same(request) {
                return Some(&self.entries[i - 1].1);
            }
            i -= 1;
        }
        assert(self.entries@.take(0).len() == 0);
        None
    }

    /// The number recorded for a request, if the host has answered it with one.
    pub fn number(&self, request: &Request) -> (r: Option<u64>)
        ensures
            r == known_number(self@, request@),
    {
        match self.find(request) {
            Some(Reply::Number(bits)) => Some(*bits),
            _ => None,
        }
    }

    /// The text recorded for a request, if the host has answered it with one.
    pub fn text(&self, request: &Request) -> (r: Option<String>)
        ensures
            r.is_some() == known_text(self@, request@).is_some(),
            r matches Some(t) ==> known_text(self@, request@) == Some(t@),
    {
        match self.find(request) {
            Some(Reply::Text(text)) => Some(text.clone()),
            _ => None,
        }
    }
}

} // verus!

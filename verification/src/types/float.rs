//! Double-precision numbers as opaque bit patterns, and the table through
//! which their arithmetic reaches the library.
//!
//! Nothing in this library performs floating-point arithmetic. A double is
//! carried as its 64-bit pattern, and every operation on doubles is a
//! [`FloatOp`] whose answer is looked up in a [`FloatTable`] that the caller
//! fills in. A function that needs an answer the table lacks stops and hands
//! the operation back; the caller computes it, records it with
//! [`FloatTable::insert`] and calls again. What a function returns is thereby
//! a function of its arguments and the table alone. The functions that work
//! in rounds, such as `Sheet::resolve_in_rounds`, do the asking and
//! recording themselves, given a function that computes.

use vstd::prelude::*;

verus! {

/// A double-precision number, held as its bit pattern.
///
/// The derived `==` compares patterns: it tells the two zeros apart, and
/// finds a pattern that is not a number equal to itself.
#[derive(Clone, Copy, Debug, PartialEq, Eq, Structural)]
pub struct Float {
    pub bits: u64,
}

/// How two doubles compare. `Unordered` is the answer when either is not a number.
#[derive(Clone, Copy, Debug, PartialEq, Eq, Structural)]
pub enum Order {
    Less,
    Equal,
    Greater,
    Unordered,
}

impl View for Float {
    type V = int;

    open spec fn view(&self) -> int {
        self.bits as int
    }
}

impl Order {
    /// The order that an answer to [`FloatOp::Compare`] stands for:
    /// 0 is less, 1 is equal, 2 is greater, anything else is unordered.
    pub open spec fn of_code(code: int) -> Order {
        if code == 0 {
            Order::Less
        } else if code == 1 {
            Order::Equal
        } else if code == 2 {
            Order::Greater
        } else {
            Order::Unordered
        }
    }

    /// Decodes the answer to a [`FloatOp::Compare`].
    pub fn from_code(code: u64) -> (r: Order)
        ensures
            r == Order::of_code(code as int),
    {
        if code == 0 {
            Order::Less
        } else if code == 1 {
            Order::Equal
        } else if code == 2 {
            Order::Greater
        } else {
            Order::Unordered
        }
    }

    /// The answer that stands for this order; the inverse of [`Order::from_code`]
    /// on 0, 1, 2 and 3.
    pub fn code(self) -> (r: u64)
        ensures
            r <= 3,
            Order::of_code(r as int) == self,
    {
        match self {
            Order::Less => 0,
            Order::Equal => 1,
            Order::Greater => 2,
            Order::Unordered => 3,
        }
    }
}

/// One operation on doubles. Its answer is a bit pattern, except for
/// `Compare`, whose answer is the code of an [`Order`].
#[derive(Debug, PartialEq, Eq)]
pub enum FloatOp {
    /// The double nearest to a decimal literal `digits.digits`.
    Parse(String),
    /// The double nearest to an integer.
    FromInt(i64),
    /// The sum of two doubles.
    Add(Float, Float),
    /// The product of two doubles.
    Mul(Float, Float),
    /// The first double divided by the second.
    Div(Float, Float),
    /// The order of the first double relative to the second.
    Compare(Float, Float),
}

/// The mathematical content of a [`FloatOp`]: doubles as the integers of
/// their bit patterns.
pub enum FloatOpView {
    Parse(Seq<char>),
    FromInt(int),
    Add(int, int),
    Mul(int, int),
    Div(int, int),
    Compare(int, int),
}

impl View for FloatOp {
    type V = FloatOpView;

    open spec fn view(&self) -> FloatOpView {
        match self {
            FloatOp::Parse(s) => FloatOpView::Parse(s@),
            FloatOp::FromInt(i) => FloatOpView::FromInt(*i as int),
            FloatOp::Add(a, b) => FloatOpView::Add(a@, b@),
            FloatOp::Mul(a, b) => FloatOpView::Mul(a@, b@),
            FloatOp::Div(a, b) => FloatOpView::Div(a@, b@),
            FloatOp::Compare(a, b) => FloatOpView::Compare(a@, b@),
        }
    }
}

impl Clone for FloatOp {
    fn clone(&self) -> (r: Self)
        ensures
            r@ == self@,
    {
        match self {
            FloatOp::Parse(s) => FloatOp::Parse(s.clone()),
            FloatOp::FromInt(i) => FloatOp::FromInt(*i),
            FloatOp::Add(a, b) => FloatOp::Add(*a, *b),
            FloatOp::Mul(a, b) => FloatOp::Mul(*a, *b),
            FloatOp::Div(a, b) => FloatOp::Div(*a, *b),
            FloatOp::Compare(a, b) => FloatOp::Compare(*a, *b),
        }
    }
}

impl FloatOp {
    /// Whether two operations ask the same question.
    pub fn same(&self, other: &FloatOp) -> (b: bool)
        ensures
            b == (self@ == other@),
    {
        match (self, other) {
            (FloatOp::Parse(s), FloatOp::Parse(t)) => *s == *t,
            (FloatOp::FromInt(i), FloatOp::FromInt(j)) => *i == *j,
            (FloatOp::Add(a, b), FloatOp::Add(c, d)) => a.bits == c.bits && b.bits == d.bits,
            (FloatOp::Mul(a, b), FloatOp::Mul(c, d)) => a.bits == c.bits && b.bits == d.bits,
            (FloatOp::Div(a, b), FloatOp::Div(c, d)) => a.bits == c.bits && b.bits == d.bits,
            (FloatOp::Compare(a, b), FloatOp::Compare(c, d)) => a.bits == c.bits && b.bits
                == d.bits,
            _ => false,
        }
    }
}

/// An operation together with its answer.
#[derive(Debug, PartialEq, Eq)]
pub struct FloatFact {
    pub op: FloatOp,
    pub answer: u64,
}

/// The answers known so far. Where an operation was recorded more than once,
/// the latest answer counts.
#[derive(Debug, PartialEq, Eq)]
pub struct FloatTable {
    pub facts: Vec<FloatFact>,
}

/// The map from operations to answers that a list of facts stands for.
pub open spec fn known(facts: Seq<FloatFact>) -> Map<FloatOpView, int>
    decreases facts.len(),
{
    if facts.len() == 0 {
        Map::empty()
    } else {
        known(facts.drop_last()).insert(facts.last().op@, facts.last().answer as int)
    }
}

/// The answer to `op` in `table`, or `op` itself where the table has none.
pub open spec fn ask(table: Map<FloatOpView, int>, op: FloatOpView) -> Result<int, FloatOpView> {
    if table.contains_key(op) {
        Ok(table[op])
    } else {
        Err(op)
    }
}

/// Where no fact from index `from` on is about `op`, the facts before `from`
/// decide what is known about `op`.
proof fn lemma_known_skips(facts: Seq<FloatFact>, from: int, op: FloatOpView)
    requires
        0 <= from <= facts.len(),
        forall|k: int| from <= k < facts.len() ==> (#[trigger] facts[k]).op@ != op,
    ensures
        known(facts).contains_key(op) == known(facts.take(from)).contains_key(op),
        known(facts).contains_key(op) ==> known(facts)[op] == known(facts.take(from))[op],
    decreases facts.len(),
{
    if from == facts.len() {
        assert(facts.take(from) =~= facts);
    } else {
        lemma_known_skips(facts.drop_last(), from, op);
        assert(facts.drop_last().take(from) =~= facts.take(from));
    }
}

impl View for FloatTable {
    type V = Map<FloatOpView, int>;

    open spec fn view(&self) -> Map<FloatOpView, int> {
        known(self.facts@)
    }
}

impl FloatTable {
    /// A table that knows nothing.
    pub fn new() -> (r: FloatTable)
        ensures
            r@ == Map::<FloatOpView, int>::empty(),
    {
        FloatTable { facts: Vec::new() }
    }

    /// Records `answer` as the answer to `op`.
    pub fn insert(&mut self, op: FloatOp, answer: u64)
        ensures
            final(self)@ == old(self)@.insert(op@, answer as int),
            final(self).facts@ == old(self).facts@.push(FloatFact { op, answer }),
    {
        let ghost before = self.facts@;
        self.facts.push(FloatFact { op, answer });
        assert(self.facts@.drop_last() =~= before);
    }

    /// The answer recorded for `op`, if there is one.
    pub fn lookup(&self, op: &FloatOp) -> (r: Option<u64>)
        ensures
            r is Some == self@.contains_key(op@),
            r matches Some(answer) ==> self@[op@] == answer,
    {
        let mut i: usize = self.facts.len();
        while i > 0
            invariant
                i <= self.facts.len(),
                forall|k: int| i <= k < self.facts.len() ==> (#[trigger] self.facts@[k]).op@ != op@,
            decreases i,
        {
            i -= 1;
            if self.facts[i].op.same(op) {
                proof {
                    lemma_known_skips(self.facts@, i + 1, op@);
                }
                return Some(self.facts[i].answer);
            }
        }
        proof {
            lemma_known_skips(self.facts@, 0, op@);
        }
        None
    }

    /// The answer to `op`, or `op` handed back where the table has none.
    pub fn ask(&self, op: FloatOp) -> (r: Result<u64, FloatOp>)
        ensures
            r matches Ok(answer) ==> ask(self@, op@) == Ok::<int, FloatOpView>(answer as int),
            r matches Err(pending) ==> !self@.contains_key(pending@),
            r matches Err(pending) ==> ask(self@, op@) == Err::<int, FloatOpView>(pending@),
    {
        match self.lookup(&op) {
            Some(answer) => Ok(answer),
            None => Err(op),
        }
    }
}

} // verus!

//! The kinds of value a cell can hold, and the closed union over them.

use vstd::prelude::*;
use super::float::{FloatOp, FloatOpView, FloatTable, Order};
use super::num::{Num, NumView};
use crate::text::{order_text, text_order};

verus! {

/// The kind of a value. Operators that ask for arguments of matching kind
/// compare these tags.
#[derive(Clone, Copy, Debug, PartialEq, Eq, Structural)]
pub enum Kind {
    Number,
    Boolean,
    Text,
}

/// A value of any kind.
#[derive(Debug, PartialEq, Eq)]
pub enum Scalar {
    Num(Num),
    Bool(bool),
    Str(String),
}

/// The mathematical content of a [`Scalar`].
pub enum ScalarView {
    Num(NumView),
    Bool(bool),
    Str(Seq<char>),
}

impl ScalarView {
    /// The kind of this value.
    pub open spec fn kind(self) -> Kind {
        match self {
            ScalarView::Num(_) => Kind::Number,
            ScalarView::Bool(_) => Kind::Boolean,
            ScalarView::Str(_) => Kind::Text,
        }
    }

    /// Equality of values: numeric on numbers, plain on booleans and texts,
    /// false across kinds.
    pub open spec fn equals(self, rhs: ScalarView, table: Map<FloatOpView, int>) -> Result<
        bool,
        FloatOpView,
    > {
        match (self, rhs) {
            (ScalarView::Num(a), ScalarView::Num(b)) => a.equals(b, table),
            (ScalarView::Bool(a), ScalarView::Bool(b)) => Ok(a == b),
            (ScalarView::Str(a), ScalarView::Str(b)) => Ok(a == b),
            _ => Ok(false),
        }
    }

    /// The order of values: numeric on numbers, false before true, texts by
    /// code point; values of different kinds are unordered.
    pub open spec fn order(self, rhs: ScalarView, table: Map<FloatOpView, int>) -> Result<
        Order,
        FloatOpView,
    > {
        match (self, rhs) {
            (ScalarView::Num(a), ScalarView::Num(b)) => a.order(b, table),
            (ScalarView::Bool(a), ScalarView::Bool(b)) => Ok(
                if a == b {
                    Order::Equal
                } else if b {
                    Order::Less
                } else {
                    Order::Greater
                },
            ),
            (ScalarView::Str(a), ScalarView::Str(b)) => Ok(text_order(a, b)),
            _ => Ok(Order::Unordered),
        }
    }
}

impl View for Scalar {
    type V = ScalarView;

    open spec fn view(&self) -> ScalarView {
        match self {
            Scalar::Num(n) => ScalarView::Num(n@),
            Scalar::Bool(b) => ScalarView::Bool(*b),
            Scalar::Str(s) => ScalarView::Str(s@),
        }
    }
}

impl Clone for Scalar {
    fn clone(&self) -> (r: Self)
        ensures
            r@ == self@,
    {
        match self {
            Scalar::Num(n) => Scalar::Num(*n),
            Scalar::Bool(b) => Scalar::Bool(*b),
            Scalar::Str(s) => Scalar::Str(s.clone()),
        }
    }
}

impl Scalar {
    /// The kind of this value.
    pub fn kind(&self) -> (k: Kind)
        ensures
            k == self@.kind(),
    {
        match self {
            Scalar::Num(_) => Kind::Number,
            Scalar::Bool(_) => Kind::Boolean,
            Scalar::Str(_) => Kind::Text,
        }
    }

    /// Whether two values are equal.
    pub fn equals(&self, rhs: &Scalar, floats: &FloatTable) -> (r: Result<bool, FloatOp>)
        ensures
            r matches Ok(b) ==> self@.equals(rhs@, floats@) == Ok::<bool, FloatOpView>(b),
            r matches Err(op) ==> !floats@.contains_key(op@),
            r matches Err(op) ==> self@.equals(rhs@, floats@) == Err::<bool, FloatOpView>(op@),
    {
        match (self, rhs) {
            (Scalar::Num(a), Scalar::Num(b)) => a.equals(*b, floats),
            (Scalar::Bool(a), Scalar::Bool(b)) => Ok(*a == *b),
            (Scalar::Str(a), Scalar::Str(b)) => Ok(*a == *b),
            _ => Ok(false),
        }
    }

    /// The order of two values.
    pub fn order(&self, rhs: &Scalar, floats: &FloatTable) -> (r: Result<Order, FloatOp>)
        ensures
            r matches Ok(o) ==> self@.order(rhs@, floats@) == Ok::<Order, FloatOpView>(o),
            r matches Err(op) ==> !floats@.contains_key(op@),
            r matches Err(op) ==> self@.order(rhs@, floats@) == Err::<Order, FloatOpView>(op@),
    {
        match (self, rhs) {
            (Scalar::Num(a), Scalar::Num(b)) => a.order(*b, floats),
            (Scalar::Bool(a), Scalar::Bool(b)) => Ok(
                if *a == *b {
                    Order::Equal
                } else if *b {
                    Order::Less
                } else {
                    Order::Greater
                },
            ),
            (Scalar::Str(a), Scalar::Str(b)) => Ok(order_text(a.as_str(), b.as_str())),
            _ => Ok(Order::Unordered),
        }
    }
}

/// A type whose values a cell can hold.
pub trait Value: Sized {
    /// The kind of every value of this type.
    spec fn kind() -> Kind;

    /// This value as a value of any kind.
    spec fn scalar(&self) -> ScalarView;

    /// Makes a value of any kind of this one.
    fn into_scalar(self) -> (r: Scalar)
        ensures
            r@ == self.scalar(),
            r@.kind() == Self::kind(),
    ;

    /// This type's value in a value of any kind, if it is of this type's kind.
    fn downcast_ref(value: &Scalar) -> (r: Option<&Self>)
        ensures
            r is Some == (value@.kind() == Self::kind()),
            r matches Some(v) ==> v.scalar() == value@,
    ;
}

impl Value for Num {
    open spec fn kind() -> Kind {
        Kind::Number
    }

    open spec fn scalar(&self) -> ScalarView {
        ScalarView::Num(self@)
    }

    fn into_scalar(self) -> (r: Scalar) {
        Scalar::Num(self)
    }

    fn downcast_ref(value: &Scalar) -> (r: Option<&Self>) {
        match value {
            Scalar::Num(n) => Some(n),
            _ => None,
        }
    }
}

impl Value for bool {
    open spec fn kind() -> Kind {
        Kind::Boolean
    }

    open spec fn scalar(&self) -> ScalarView {
        ScalarView::Bool(*self)
    }

    fn into_scalar(self) -> (r: Scalar) {
        Scalar::Bool(self)
    }

    fn downcast_ref(value: &Scalar) -> (r: Option<&Self>) {
        match value {
            Scalar::Bool(b) => Some(b),
            _ => None,
        }
    }
}

impl Value for String {
    open spec fn kind() -> Kind {
        Kind::Text
    }

    open spec fn scalar(&self) -> ScalarView {
        ScalarView::Str(self@)
    }

    fn into_scalar(self) -> (r: Scalar) {
        Scalar::Str(self)
    }

    fn downcast_ref(value: &Scalar) -> (r: Option<&Self>) {
        match value {
            Scalar::Str(s) => Some(s),
            _ => None,
        }
    }
}

} // verus!

//! Numbers: 64-bit integers and doubles under one arithmetic.
//!
//! Two integers combine exactly, wrapping round at the ends of the 64-bit
//! range. As soon as a double takes part, an integer operand is converted and
//! the operation is one on doubles, asked of the [`FloatTable`].

use vstd::prelude::*;
use super::float::{ask, Float, FloatOp, FloatOpView, FloatTable, Order};

verus! {

/// A number: a double or a signed 64-bit integer.
///
/// The derived `==` compares variant and bits; numeric equality across the
/// two variants is [`Num::equals`].
#[derive(Clone, Copy, Debug, PartialEq, Eq, Structural)]
pub enum Num {
    F(Float),
    I(i64),
}

/// The mathematical content of a [`Num`]: the bit pattern of a double, or an
/// integer.
pub enum NumView {
    F(int),
    I(int),
}

impl View for Num {
    type V = NumView;

    open spec fn view(&self) -> NumView {
        match self {
            Num::F(f) => NumView::F(f@),
            Num::I(i) => NumView::I(*i as int),
        }
    }
}

/// The integer of the signed 64-bit range that differs from `x` by a
/// multiple of 2^64.
pub open spec fn wrap(x: int) -> int {
    let m = x % 0x1_0000_0000_0000_0000;
    if m > i64::MAX {
        m - 0x1_0000_0000_0000_0000
    } else {
        m
    }
}

/// The absolute value of an integer.
pub open spec fn magnitude(i: int) -> nat {
    if i < 0 {
        (-i) as nat
    } else {
        i as nat
    }
}

/// Whether `b`, which is not zero, divides `a` without remainder.
pub open spec fn divides(b: int, a: int) -> bool {
    magnitude(a) % magnitude(b) == 0
}

/// The quotient of `a` by `b` where `b` divides `a`.
pub open spec fn exact_quotient(a: int, b: int) -> int {
    let q = (magnitude(a) / magnitude(b)) as int;
    if (a < 0) != (b < 0) {
        -q
    } else {
        q
    }
}

/// The order of two integers.
pub open spec fn int_order(a: int, b: int) -> Order {
    if a < b {
        Order::Less
    } else if a == b {
        Order::Equal
    } else {
        Order::Greater
    }
}

impl NumView {
    /// This number as a double: itself, or the conversion of the integer.
    pub open spec fn to_float(self, table: Map<FloatOpView, int>) -> Result<int, FloatOpView> {
        match self {
            NumView::F(f) => Ok(f),
            NumView::I(i) => ask(table, FloatOpView::FromInt(i)),
        }
    }

    /// Both numbers as doubles, the left one converted first.
    pub open spec fn both_floats(self, rhs: NumView, table: Map<FloatOpView, int>) -> Result<
        (int, int),
        FloatOpView,
    > {
        match self.to_float(table) {
            Err(op) => Err(op),
            Ok(a) => match rhs.to_float(table) {
                Err(op) => Err(op),
                Ok(b) => Ok((a, b)),
            },
        }
    }

    /// The sum: exact and wrapping on two integers, a double otherwise.
    pub open spec fn sum(self, rhs: NumView, table: Map<FloatOpView, int>) -> Result<
        NumView,
        FloatOpView,
    > {
        match (self, rhs) {
            (NumView::I(a), NumView::I(b)) => Ok(NumView::I(wrap(a + b))),
            _ => match self.both_floats(rhs, table) {
                Err(op) => Err(op),
                Ok((a, b)) => match ask(table, FloatOpView::Add(a, b)) {
                    Ok(bits) => Ok(NumView::F(bits)),
                    Err(op) => Err(op),
                },
            },
        }
    }

    /// The product: exact and wrapping on two integers, a double otherwise.
    pub open spec fn product(self, rhs: NumView, table: Map<FloatOpView, int>) -> Result<
        NumView,
        FloatOpView,
    > {
        match (self, rhs) {
            (NumView::I(a), NumView::I(b)) => Ok(NumView::I(wrap(a * b))),
            _ => match self.both_floats(rhs, table) {
                Err(op) => Err(op),
                Ok((a, b)) => match ask(table, FloatOpView::Mul(a, b)) {
                    Ok(bits) => Ok(NumView::F(bits)),
                    Err(op) => Err(op),
                },
            },
        }
    }

    /// The quotient by a divisor other than the integer zero: an integer,
    /// wrapping, where both are integers and the division leaves no
    /// remainder; a double otherwise.
    pub open spec fn quotient(self, rhs: NumView, table: Map<FloatOpView, int>) -> Result<
        NumView,
        FloatOpView,
    > {
        if self is I && rhs is I && divides(rhs->I_0, self->I_0) {
            Ok(NumView::I(wrap(exact_quotient(self->I_0, rhs->I_0))))
        } else {
            match self.both_floats(rhs, table) {
                Err(op) => Err(op),
                Ok((a, b)) => match ask(table, FloatOpView::Div(a, b)) {
                    Ok(bits) => Ok(NumView::F(bits)),
                    Err(op) => Err(op),
                },
            }
        }
    }

    /// The order of two numbers: that of the integers where both are
    /// integers, that of the doubles otherwise.
    pub open spec fn order(self, rhs: NumView, table: Map<FloatOpView, int>) -> Result<
        Order,
        FloatOpView,
    > {
        match (self, rhs) {
            (NumView::I(a), NumView::I(b)) => Ok(int_order(a, b)),
            _ => match self.both_floats(rhs, table) {
                Err(op) => Err(op),
                Ok((a, b)) => match ask(table, FloatOpView::Compare(a, b)) {
                    Ok(code) => Ok(Order::of_code(code)),
                    Err(op) => Err(op),
                },
            },
        }
    }

    /// Numeric equality: the integer 6 equals the double 6.0.
    pub open spec fn equals(self, rhs: NumView, table: Map<FloatOpView, int>) -> Result<
        bool,
        FloatOpView,
    > {
        match self.order(rhs, table) {
            Ok(order) => Ok(order == Order::Equal),
            Err(op) => Err(op),
        }
    }

    /// Whether the left number is the greater one.
    pub open spec fn greater(self, rhs: NumView, table: Map<FloatOpView, int>) -> Result<
        bool,
        FloatOpView,
    > {
        match self.order(rhs, table) {
            Ok(order) => Ok(order == Order::Greater),
            Err(op) => Err(op),
        }
    }
}

impl Num {
    /// This number as a double.
    pub fn to_float(self, floats: &FloatTable) -> (r: Result<Float, FloatOp>)
        ensures
            r matches Ok(f) ==> self@.to_float(floats@) == Ok::<int, FloatOpView>(f@),
            r matches Err(op) ==> !floats@.contains_key(op@),
            r matches Err(op) ==> self@.to_float(floats@) == Err::<int, FloatOpView>(op@),
    {
        match self {
            Num::F(f) => Ok(f),
            Num::I(i) => match floats.ask(FloatOp::FromInt(i)) {
                Ok(bits) => Ok(Float { bits }),
                Err(op) => Err(op),
            },
        }
    }

    fn floats_of(self, rhs: Num, floats: &FloatTable) -> (r: Result<(Float, Float), FloatOp>)
        ensures
            r matches Ok(p) ==> self@.both_floats(rhs@, floats@) == Ok::<(int, int), FloatOpView>(
                (p.0@, p.1@),
            ),
            r matches Err(op) ==> !floats@.contains_key(op@),
            r matches Err(op) ==> self@.both_floats(rhs@, floats@) == Err::<
                (int, int),
                FloatOpView,
            >(op@),
    {
        match self.to_float(floats) {
            Err(op) => Err(op),
            Ok(a) => match rhs.to_float(floats) {
                Err(op) => Err(op),
                Ok(b) => Ok((a, b)),
            },
        }
    }

    /// Adds two numbers.
    pub fn sum(self, rhs: Num, floats: &FloatTable) -> (r: Result<Num, FloatOp>)
        ensures
            r matches Ok(n) ==> self@.sum(rhs@, floats@) == Ok::<NumView, FloatOpView>(n@),
            r matches Err(op) ==> !floats@.contains_key(op@),
            r matches Err(op) ==> self@.sum(rhs@, floats@) == Err::<NumView, FloatOpView>(op@),
    {
        match (self, rhs) {
            (Num::I(a), Num::I(b)) => Ok(Num::I(a.wrapping_add(b))),
            _ => match self.floats_of(rhs, floats) {
                Err(op) => Err(op),
                Ok((a, b)) => match floats.ask(FloatOp::Add(a, b)) {
                    Ok(bits) => Ok(Num::F(Float { bits })),
                    Err(op) => Err(op),
                },
            },
        }
    }

    /// Multiplies two numbers.
    pub fn product(self, rhs: Num, floats: &FloatTable) -> (r: Result<Num, FloatOp>)
        ensures
            r matches Ok(n) ==> self@.product(rhs@, floats@) == Ok::<NumView, FloatOpView>(n@),
            r matches Err(op) ==> !floats@.contains_key(op@),
            r matches Err(op) ==> self@.product(rhs@, floats@) == Err::<NumView, FloatOpView>(
                op@,
            ),
    {
        match (self, rhs) {
            (Num::I(a), Num::I(b)) => Ok(Num::I(a.wrapping_mul(b))),
            _ => match self.floats_of(rhs, floats) {
                Err(op) => Err(op),
                Ok((a, b)) => match floats.ask(FloatOp::Mul(a, b)) {
                    Ok(bits) => Ok(Num::F(Float { bits })),
                    Err(op) => Err(op),
                },
            },
        }
    }

    /// Divides by a number other than the integer zero.
    pub fn quotient(self, rhs: Num, floats: &FloatTable) -> (r: Result<Num, FloatOp>)
        requires
            rhs != Num::I(0),
        ensures
            r matches Ok(n) ==> self@.quotient(rhs@, floats@) == Ok::<NumView, FloatOpView>(n@),
            r matches Err(op) ==> !floats@.contains_key(op@),
            r matches Err(op) ==> self@.quotient(rhs@, floats@) == Err::<NumView, FloatOpView>(
                op@,
            ),
    {
        if let (Num::I(a), Num::I(b)) = (self, rhs) {
            let ma: u64 = magnitude_of(a);
            let mb: u64 = magnitude_of(b);
            if ma % mb == 0 {
                let q: u64 = ma / mb;
                let negative: bool = (a < 0) != (b < 0);
                assert(q <= ma) by (nonlinear_arith)
                    requires
                        q == ma / mb,
                        mb >= 1,
                {
                }
                if negative {
                    if q > 0x7FFF_FFFF_FFFF_FFFF {
                        return Ok(Num::I(i64::MIN));
                    } else {
                        return Ok(Num::I(-(q as i64)));
                    }
                } else if q > 0x7FFF_FFFF_FFFF_FFFF {
                    return Ok(Num::I(i64::MIN));
                } else {
                    return Ok(Num::I(q as i64));
                }
            }
        }
        match self.floats_of(rhs, floats) {
            Err(op) => Err(op),
            Ok((a, b)) => match floats.ask(FloatOp::Div(a, b)) {
                Ok(bits) => Ok(Num::F(Float { bits })),
                Err(op) => Err(op),
            },
        }
    }

    /// The order of two numbers.
    pub fn order(self, rhs: Num, floats: &FloatTable) -> (r: Result<Order, FloatOp>)
        ensures
            r matches Ok(o) ==> self@.order(rhs@, floats@) == Ok::<Order, FloatOpView>(o),
            r matches Err(op) ==> !floats@.contains_key(op@),
            r matches Err(op) ==> self@.order(rhs@, floats@) == Err::<Order, FloatOpView>(op@),
    {
        match (self, rhs) {
            (Num::I(a), Num::I(b)) => {
                if a < b {
                    Ok(Order::Less)
                } else if a == b {
                    Ok(Order::Equal)
                } else {
                    Ok(Order::Greater)
                }
            },
            _ => match self.floats_of(rhs, floats) {
                Err(op) => Err(op),
                Ok((a, b)) => match floats.ask(FloatOp::Compare(a, b)) {
                    Ok(code) => Ok(Order::from_code(code)),
                    Err(op) => Err(op),
                },
            },
        }
    }

    /// Whether two numbers are equal in value.
    pub fn equals(self, rhs: Num, floats: &FloatTable) -> (r: Result<bool, FloatOp>)
        ensures
            r matches Ok(b) ==> self@.equals(rhs@, floats@) == Ok::<bool, FloatOpView>(b),
            r matches Err(op) ==> !floats@.contains_key(op@),
            r matches Err(op) ==> self@.equals(rhs@, floats@) == Err::<bool, FloatOpView>(op@),
    {
        match self.order(rhs, floats) {
            Ok(order) => Ok(order == Order::Equal),
            Err(op) => Err(op),
        }
    }

    /// Whether the left number is greater than the right one.
    pub fn greater(self, rhs: Num, floats: &FloatTable) -> (r: Result<bool, FloatOp>)
        ensures
            r matches Ok(b) ==> self@.greater(rhs@, floats@) == Ok::<bool, FloatOpView>(b),
            r matches Err(op) ==> !floats@.contains_key(op@),
            r matches Err(op) ==> self@.greater(rhs@, floats@) == Err::<bool, FloatOpView>(op@),
    {
        match self.order(rhs, floats) {
            Ok(order) => Ok(order == Order::Greater),
            Err(op) => Err(op),
        }
    }
}

/// The absolute value of an integer, which always fits the unsigned type.
fn magnitude_of(i: i64) -> (m: u64)
    ensures
        m == magnitude(i as int),
{
    if i >= 0 {
        i as u64
    } else if i == i64::MIN {
        0x8000_0000_0000_0000
    } else {
        (-i) as u64
    }
}

} // verus!

//! The owned value that an expression holds.

use vstd::prelude::*;
use super::num::Num;
use super::value::{Scalar, ScalarView};

verus! {

/// A value of any kind, owned on the heap.
#[derive(Debug, PartialEq, Eq)]
pub struct BoxValue(pub Box<Scalar>);

impl View for BoxValue {
    type V = ScalarView;

    open spec fn view(&self) -> ScalarView {
        (*self.0)@
    }
}

impl Clone for BoxValue {
    fn clone(&self) -> (r: Self)
        ensures
            r@ == self@,
    {
        BoxValue(Box::new((*self.0).clone()))
    }
}

impl BoxValue {
    /// Boxes a value.
    pub fn new(value: Scalar) -> (r: BoxValue)
        ensures
            r@ == value@,
    {
        BoxValue(Box::new(value))
    }

    /// Gives up the box.
    pub fn move_inner(self) -> (r: Box<Scalar>)
        ensures
            (*r)@ == self@,
    {
        self.0
    }

    /// The value in the box.
    pub fn get(&self) -> (r: &Scalar)
        ensures
            r@ == self@,
    {
        &*self.0
    }
}

/// A number as a boxed value.
impl From<Num> for BoxValue {
    fn from(value: Num) -> (r: BoxValue) {
        BoxValue(Box::new(Scalar::Num(value)))
    }
}

impl vstd::std_specs::convert::FromSpecImpl<Num> for BoxValue {
    open spec fn obeys_from_spec() -> bool {
        true
    }

    open spec fn from_spec(value: Num) -> BoxValue {
        BoxValue(Box::new(Scalar::Num(value)))
    }
}

/// A boolean as a boxed value.
impl From<bool> for BoxValue {
    fn from(value: bool) -> (r: BoxValue) {
        BoxValue(Box::new(Scalar::Bool(value)))
    }
}

impl vstd::std_specs::convert::FromSpecImpl<bool> for BoxValue {
    open spec fn obeys_from_spec() -> bool {
        true
    }

    open spec fn from_spec(value: bool) -> BoxValue {
        BoxValue(Box::new(Scalar::Bool(value)))
    }
}

/// A text as a boxed value.
impl From<String> for BoxValue {
    fn from(value: String) -> (r: BoxValue) {
        BoxValue(Box::new(Scalar::Str(value)))
    }
}

impl vstd::std_specs::convert::FromSpecImpl<String> for BoxValue {
    open spec fn obeys_from_spec() -> bool {
        true
    }

    open spec fn from_spec(value: String) -> BoxValue {
        BoxValue(Box::new(Scalar::Str(value)))
    }
}

/// A value that is boxed already.
impl From<Box<Scalar>> for BoxValue {
    fn from(value: Box<Scalar>) -> (r: BoxValue) {
        BoxValue(value)
    }
}

impl vstd::std_specs::convert::FromSpecImpl<Box<Scalar>> for BoxValue {
    open spec fn obeys_from_spec() -> bool {
        true
    }

    open spec fn from_spec(value: Box<Scalar>) -> BoxValue {
        BoxValue(value)
    }
}

} // verus!

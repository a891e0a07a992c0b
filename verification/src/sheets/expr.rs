//! Expressions: what a cell contains.

use vstd::prelude::*;
use super::{CellError, CellErrorView, OpInfo, OpInfoView, Position, PositionView};
use crate::types::box_value::BoxValue;
use crate::types::num::Num;
use crate::types::value::{Scalar, ScalarView, Value};

verus! {

/// The content of a cell: a value, a reference to another cell, a call of an
/// operator, or an error.
#[derive(Debug, PartialEq, Eq)]
pub enum Expr {
    Value(BoxValue),
    Ref(Position),
    Form(OpInfo),
    Error(CellError),
}

/// The mathematical content of an [`Expr`].
pub enum ExprView {
    Value(ScalarView),
    Ref(PositionView),
    Form(OpInfoView),
    Error(CellErrorView),
}

impl ExprView {
    /// Whether nothing is left to evaluate: the expression is a value or an
    /// error.
    pub open spec fn is_terminal(self) -> bool {
        self is Value || self is Error
    }
}

impl View for Expr {
    type V = ExprView;

    open spec fn view(&self) -> ExprView
        decreases self,
    {
        match self {
            Expr::Value(v) => ExprView::Value(v@),
            Expr::Ref(pos) => ExprView::Ref(pos@),
            Expr::Form(info) => ExprView::Form(info@),
            Expr::Error(e) => ExprView::Error(e@),
        }
    }
}

impl Clone for Expr {
    fn clone(&self) -> (r: Self)
        ensures
            r@ == self@,
        decreases self,
    {
        match self {
            Expr::Value(v) => Expr::Value(v.clone()),
            Expr::Ref(pos) => Expr::Ref(*pos),
            Expr::Form(info) => Expr::Form(info.clone()),
            Expr::Error(e) => Expr::Error(e.clone()),
        }
    }
}

impl Expr {
    /// Whether this is a value.
    pub fn is_value(&self) -> (b: bool)
        ensures
            b == (self@ is Value),
    {
        match self {
            Expr::Value(_) => true,
            _ => false,
        }
    }

    /// Whether this is a reference.
    pub fn is_ref(&self) -> (b: bool)
        ensures
            b == (self@ is Ref),
    {
        match self {
            Expr::Ref(_) => true,
            _ => false,
        }
    }

    /// Whether this is a call.
    pub fn is_form(&self) -> (b: bool)
        ensures
            b == (self@ is Form),
    {
        match self {
            Expr::Form(_) => true,
            _ => false,
        }
    }

    /// Whether this is an error.
    pub fn is_err(&self) -> (b: bool)
        ensures
            b == (self@ is Error),
    {
        match self {
            Expr::Error(_) => true,
            _ => false,
        }
    }

    /// Whether this is a value or an error.
    pub fn is_terminal(&self) -> (b: bool)
        ensures
            b == self@.is_terminal(),
    {
        match self {
            Expr::Value(_) => true,
            Expr::Error(_) => true,
            _ => false,
        }
    }

    /// The value of an expression that is one.
    pub fn unwrap_value_ref(&self) -> (r: &BoxValue)
        requires
            self@ is Value,
        ensures
            r@ == self@->Value_0,
    {
        match self {
            Expr::Value(v) => v,
            _ => vstd::pervasive::unreached(),
        }
    }

    /// The value of an expression that is one of the kind of `T`, as a `T`.
    pub fn unwrap_downcast_ref<T: Value>(&self) -> (r: &T)
        requires
            self@ is Value,
            self@->Value_0.kind() == T::kind(),
        ensures
            r.scalar() == self@->Value_0,
    {
        match T::downcast_ref(self.unwrap_value_ref().get()) {
            Some(v) => v,
            None => vstd::pervasive::unreached(),
        }
    }

    /// Replaces the value of an expression that is one by what `f` makes of
    /// it. Any other expression is left as it is.
    pub fn map_value_mut<F: FnOnce(BoxValue) -> BoxValue>(&mut self, f: F)
        requires
            forall|v: BoxValue| *old(self) == Expr::Value(v) ==> f.requires((v,)),
        ensures
            !(*old(self) is Value) ==> *final(self) == *old(self),
            forall|v: BoxValue|
                *old(self) == Expr::Value(v) ==> *final(self) is Value && f.ensures(
                    (v,),
                    final(self)->Value_0,
                ),
    {
        let mut current = Expr::Ref(Position { x: 0, y: 0 });
        std::mem::swap(self, &mut current);
        match current {
            Expr::Value(v) => {
                *self = Expr::Value(f(v));
            },
            other => {
                *self = other;
            },
        }
    }

    /// The error of an expression that is one.
    pub fn unwrap_err_ref(&self) -> (r: &CellError)
        requires
            self@ is Error,
        ensures
            r@ == self@->Error_0,
    {
        match self {
            Expr::Error(e) => e,
            _ => vstd::pervasive::unreached(),
        }
    }

    /// The position that a reference names.
    pub fn unwrap_ref_ref(&self) -> (r: &Position)
        requires
            self@ is Ref,
        ensures
            r@ == self@->Ref_0,
    {
        match self {
            Expr::Ref(pos) => pos,
            _ => vstd::pervasive::unreached(),
        }
    }
}

/// The contents of a list of expressions.
pub open spec fn views(list: Seq<Expr>) -> Seq<ExprView> {
    Seq::new(list.len(), |i: int| list[i]@)
}

/// The arguments of a call are the contents of its list of arguments.
pub proof fn lemma_args_view(info: OpInfo)
    ensures
        info@.args == views(info.args@),
        info@.name == info.name@,
{
}

/// A boxed value as an expression.
impl From<BoxValue> for Expr {
    fn from(value: BoxValue) -> (r: Expr) {
        Expr::Value(value)
    }
}

impl vstd::std_specs::convert::FromSpecImpl<BoxValue> for Expr {
    open spec fn obeys_from_spec() -> bool {
        true
    }

    open spec fn from_spec(value: BoxValue) -> Expr {
        Expr::Value(value)
    }
}

/// An error as an expression.
impl From<CellError> for Expr {
    fn from(value: CellError) -> (r: Expr) {
        Expr::Error(value)
    }
}

impl vstd::std_specs::convert::FromSpecImpl<CellError> for Expr {
    open spec fn obeys_from_spec() -> bool {
        true
    }

    open spec fn from_spec(value: CellError) -> Expr {
        Expr::Error(value)
    }
}

/// A number as an expression.
impl From<Num> for Expr {
    fn from(value: Num) -> (r: Expr) {
        Expr::Value(BoxValue(Box::new(Scalar::Num(value))))
    }
}

impl vstd::std_specs::convert::FromSpecImpl<Num> for Expr {
    open spec fn obeys_from_spec() -> bool {
        true
    }

    open spec fn from_spec(value: Num) -> Expr {
        Expr::Value(BoxValue(Box::new(Scalar::Num(value))))
    }
}

/// A boolean as an expression.
impl From<bool> for Expr {
    fn from(value: bool) -> (r: Expr) {
        Expr::Value(BoxValue(Box::new(Scalar::Bool(value))))
    }
}

impl vstd::std_specs::convert::FromSpecImpl<bool> for Expr {
    open spec fn obeys_from_spec() -> bool {
        true
    }

    open spec fn from_spec(value: bool) -> Expr {
        Expr::Value(BoxValue(Box::new(Scalar::Bool(value))))
    }
}

/// A text as an expression.
impl From<String> for Expr {
    fn from(value: String) -> (r: Expr) {
        Expr::Value(BoxValue(Box::new(Scalar::Str(value))))
    }
}

impl vstd::std_specs::convert::FromSpecImpl<String> for Expr {
    open spec fn obeys_from_spec() -> bool {
        true
    }

    open spec fn from_spec(value: String) -> Expr {
        Expr::Value(BoxValue(Box::new(Scalar::Str(value))))
    }
}

} // verus!

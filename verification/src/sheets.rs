//! Sheets, the positions of their cells, and the errors a cell can end in.

pub mod expr;
pub mod grid;
pub mod message;
pub mod operators;
pub mod parse;
pub mod raw;
pub mod resolve;
pub mod rounds;
pub mod theory;

use std::ops::RangeInclusive;
use vstd::prelude::*;
use self::expr::{views, Expr, ExprView};
use self::grid::{cell_at, put};

verus! {

/// The place of a cell: column `x` and row `y`, both counted from zero.
#[derive(Debug, Clone, Copy, PartialEq, Eq, PartialOrd, Structural)]
pub struct Position {
    pub x: usize,
    pub y: usize,
}

/// The mathematical content of a [`Position`].
pub struct PositionView {
    pub x: int,
    pub y: int,
}

impl View for Position {
    type V = PositionView;

    open spec fn view(&self) -> PositionView {
        PositionView { x: self.x as int, y: self.y as int }
    }
}

impl Position {
    /// The position in column `x` and row `y`.
    pub fn new(x: usize, y: usize) -> (r: Position)
        ensures
            r == (Position { x, y }),
    {
        Position { x, y }
    }
}

impl From<(usize, usize)> for Position {
    fn from(value: (usize, usize)) -> (r: Position) {
        Position { x: value.0, y: value.1 }
    }
}

impl vstd::std_specs::convert::FromSpecImpl<(usize, usize)> for Position {
    open spec fn obeys_from_spec() -> bool {
        true
    }

    open spec fn from_spec(value: (usize, usize)) -> Position {
        Position { x: value.0, y: value.1 }
    }
}

/// Why a cell has no value.
#[derive(Debug, PartialEq, Eq)]
pub enum CellError {
    /// The formula is malformed.
    ParseError,
    /// An argument is not of the kind that the operator expects.
    TypeMismatch(&'static str),
    /// Two arguments that must share a kind do not.
    BinaryTypeMismatch,
    /// A reference to a cell outside the sheet.
    InvalidReference(Position),
    /// The operator takes a number of arguments in the range, and got the
    /// number that follows.
    InvalidArgCount(RangeInclusive<usize>, usize),
    /// No operator has this name.
    NoOpFound(String),
    /// The cell at the position ended in the error.
    RefError(Box<CellError>, Position),
    /// The argument at the index, counted from zero, is the error.
    ArgError(usize, Box<CellError>),
    /// The errors of one formula.
    FormError(Vec<CellError>),
    /// Division by zero.
    DivByZero,
    /// The cell takes part in a cycle of references.
    CircularRef,
}

/// The mathematical content of a [`CellError`].
pub enum CellErrorView {
    ParseError,
    TypeMismatch(Seq<char>),
    BinaryTypeMismatch,
    InvalidReference(PositionView),
    /// The least and the greatest number of arguments taken, and the number given.
    InvalidArgCount(int, int, int),
    NoOpFound(Seq<char>),
    RefError(Box<CellErrorView>, PositionView),
    ArgError(int, Box<CellErrorView>),
    FormError(Seq<CellErrorView>),
    DivByZero,
    CircularRef,
}

impl View for CellError {
    type V = CellErrorView;

    open spec fn view(&self) -> CellErrorView
        decreases self,
    {
        match self {
            CellError::ParseError => CellErrorView::ParseError,
            CellError::TypeMismatch(expected) => CellErrorView::TypeMismatch(expected@),
            CellError::BinaryTypeMismatch => CellErrorView::BinaryTypeMismatch,
            CellError::InvalidReference(pos) => CellErrorView::InvalidReference(pos@),
            CellError::InvalidArgCount(range, actual) => CellErrorView::InvalidArgCount(
                range@.start as int,
                range@.end as int,
                *actual as int,
            ),
            CellError::NoOpFound(name) => CellErrorView::NoOpFound(name@),
            CellError::RefError(cause, at) => CellErrorView::RefError(Box::new((**cause)@), at@),
            CellError::ArgError(index, cause) => CellErrorView::ArgError(
                *index as int,
                Box::new((**cause)@),
            ),
            CellError::FormError(errors) => CellErrorView::FormError(
                Seq::new(
                    errors@.len(),
                    |i: int|
                        if 0 <= i < errors@.len() {
                            errors@[i]@
                        } else {
                            CellErrorView::ParseError
                        },
                ),
            ),
            CellError::DivByZero => CellErrorView::DivByZero,
            CellError::CircularRef => CellErrorView::CircularRef,
        }
    }
}

/// `RangeInclusive::start` of std returns the lower bound that the range was
/// made with.
pub assume_specification<Idx>[ RangeInclusive::<Idx>::start ](r: &RangeInclusive<Idx>) -> (ret:
    &Idx)
    ensures
        *ret == r@.start,
;

/// `RangeInclusive::end` of std returns the upper bound that the range was
/// made with.
pub assume_specification<Idx>[ RangeInclusive::<Idx>::end ](r: &RangeInclusive<Idx>) -> (ret: &Idx)
    ensures
        *ret == r@.end,
;

/// The contents of a list of errors.
pub open spec fn error_views(list: Seq<CellError>) -> Seq<CellErrorView> {
    Seq::new(list.len(), |i: int| list[i]@)
}

/// The content of the error of one formula is the contents of its errors.
pub proof fn lemma_form_error_view(e: CellError)
    requires
        e is FormError,
    ensures
        e@ == CellErrorView::FormError(error_views(e->FormError_0@)),
{
    assert(e@->FormError_0 =~= error_views(e->FormError_0@));
}

impl Clone for CellError {
    fn clone(&self) -> (r: Self)
        ensures
            r@ == self@,
        decreases self,
    {
        match self {
            CellError::ParseError => CellError::ParseError,
            CellError::TypeMismatch(expected) => CellError::TypeMismatch(expected),
            CellError::BinaryTypeMismatch => CellError::BinaryTypeMismatch,
            CellError::InvalidReference(pos) => CellError::InvalidReference(*pos),
            CellError::InvalidArgCount(range, actual) => CellError::InvalidArgCount(
                RangeInclusive::new(*range.start(), *range.end()),
                *actual,
            ),
            CellError::NoOpFound(name) => CellError::NoOpFound(name.clone()),
            CellError::RefError(cause, at) => CellError::RefError(
                Box::new((**cause).clone()),
                *at,
            ),
            CellError::ArgError(index, cause) => CellError::ArgError(
                *index,
                Box::new((**cause).clone()),
            ),
            CellError::FormError(errors) => {
                let mut out: Vec<CellError> = Vec::new();
                let mut i: usize = 0;
                while i < errors.len()
                    invariant
                        i <= errors.len(),
                        out@.len() == i,
                        forall|k: int| 0 <= k < i ==> (#[trigger] out@[k])@ == errors@[k]@,
                        forall|k: int|
                            0 <= k < errors@.len() ==> decreases_to!(self => #[trigger] errors@[k]),
                    decreases errors.len() - i,
                {
                    out.push(errors[i].clone());
                    i += 1;
                }
                let r = CellError::FormError(out);
                assert(r@->FormError_0 =~= self@->FormError_0);
                r
            },
            CellError::DivByZero => CellError::DivByZero,
            CellError::CircularRef => CellError::CircularRef,
        }
    }
}

/// A call of an operator: its name and its arguments.
#[derive(Debug, PartialEq, Eq)]
pub struct OpInfo {
    pub name: String,
    pub args: Vec<Expr>,
}

/// The mathematical content of an [`OpInfo`].
pub struct OpInfoView {
    pub name: Seq<char>,
    pub args: Seq<ExprView>,
}

impl View for OpInfo {
    type V = OpInfoView;

    open spec fn view(&self) -> OpInfoView
        decreases self,
    {
        OpInfoView {
            name: self.name@,
            args: Seq::new(
                self.args@.len(),
                |i: int|
                    if 0 <= i < self.args@.len() {
                        self.args@[i]@
                    } else {
                        ExprView::Ref(PositionView { x: 0, y: 0 })
                    },
            ),
        }
    }
}

impl Clone for OpInfo {
    fn clone(&self) -> (r: Self)
        ensures
            r@ == self@,
        decreases self,
    {
        let mut args: Vec<Expr> = Vec::new();
        let mut i: usize = 0;
        while i < self.args.len()
            invariant
                i <= self.args.len(),
                args@.len() == i,
                forall|k: int| 0 <= k < i ==> (#[trigger] args@[k])@ == self.args@[k]@,
                forall|k: int|
                    0 <= k < self.args@.len() ==> decreases_to!(self => #[trigger] self.args@[k]),
            decreases self.args.len() - i,
        {
            args.push(self.args[i].clone());
            i += 1;
        }
        let r = OpInfo { name: self.name.clone(), args };
        assert(r@.args =~= self@.args);
        r
    }
}

/// A sheet: an identifier and rows of cells. Rows may differ in length.
#[derive(Debug, PartialEq, Eq)]
pub struct Sheet {
    pub id: String,
    pub cells: Vec<Vec<Expr>>,
}

/// The mathematical content of a [`Sheet`].
pub struct SheetView {
    pub id: Seq<char>,
    pub cells: Seq<Seq<ExprView>>,
}

/// The contents of rows of cells.
pub open spec fn rows_view(rows: Seq<Vec<Expr>>) -> Seq<Seq<ExprView>> {
    Seq::new(rows.len(), |y: int| views(rows[y]@))
}

impl View for Sheet {
    type V = SheetView;

    open spec fn view(&self) -> SheetView {
        SheetView { id: self.id@, cells: rows_view(self.cells@) }
    }
}

impl Sheet {
    /// The cell at `index`, if the sheet has one there.
    pub fn get(&self, index: Position) -> (r: Option<&Expr>)
        ensures
            r is Some == cell_at(self@.cells, index@) is Some,
            r matches Some(e) ==> cell_at(self@.cells, index@) == Some(e@),
    {
        if index.y < self.cells.len() {
            let row = &self.cells[index.y];
            if index.x < row.len() {
                Some(&row[index.x])
            } else {
                None
            }
        } else {
            None
        }
    }

    /// Writes `expr` to the cell at `index`, which the sheet has.
    pub fn set_unchecked(&mut self, index: Position, expr: Expr)
        requires
            cell_at(old(self)@.cells, index@) is Some,
        ensures
            final(self)@.id == old(self)@.id,
            final(self)@.cells == put(old(self)@.cells, index@, expr@),
    {
        self.cells[index.y][index.x] = expr;
        proof {
            assert(self@.cells =~~= put(old(self)@.cells, index@, expr@));
        }
    }
}

} // verus!

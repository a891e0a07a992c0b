//! Sheets from plain cells and back.

use vstd::prelude::*;
use super::expr::{views, Expr, ExprView};
use super::grid::resolved;
use super::message::message_of;
use super::parse::{entry, parse_entry, ParseFailure, ParseFailureView};
use super::{rows_view, CellError, CellErrorView, Sheet, SheetView};
use crate::data::{raw_views, RawCellData, RawCellView, RawSheet, RawSheetView};
use crate::types::box_value::BoxValue;
use crate::types::float::{FloatOp, FloatOpView, FloatTable};
use crate::types::num::{Num, NumView};
use crate::types::value::{Scalar, ScalarView};

verus! {

/// The expression that a plain cell stands for: a number or a boolean is
/// itself, a text is read as an entry of the grammar, and a malformed
/// formula is the error of that name.
pub open spec fn expr_of_raw(raw: RawCellView, table: Map<FloatOpView, int>) -> Result<
    ExprView,
    FloatOpView,
> {
    match raw {
        RawCellView::Int(i) => Ok(ExprView::Value(ScalarView::Num(NumView::I(i)))),
        RawCellView::Float(f) => Ok(ExprView::Value(ScalarView::Num(NumView::F(f)))),
        RawCellView::Bool(b) => Ok(ExprView::Value(ScalarView::Bool(b))),
        RawCellView::String(s) => match entry(s, table) {
            Ok(e) => Ok(e),
            Err(ParseFailureView::Malformed) => Ok(ExprView::Error(CellErrorView::ParseError)),
            Err(ParseFailureView::Pending(op)) => Err(op),
        },
    }
}

/// The expressions that the first `n` plain cells of a row stand for.
pub open spec fn row_of_raw(row: Seq<RawCellView>, n: nat, table: Map<FloatOpView, int>) -> Result<
    Seq<ExprView>,
    FloatOpView,
>
    decreases n,
{
    if n == 0 {
        Ok(Seq::empty())
    } else {
        match row_of_raw(row, (n - 1) as nat, table) {
            Err(op) => Err(op),
            Ok(done) => match expr_of_raw(row[n - 1], table) {
                Err(op) => Err(op),
                Ok(e) => Ok(done.push(e)),
            },
        }
    }
}

/// The cells that the first `n` rows of plain cells stand for.
pub open spec fn rows_of_raw(
    rows: Seq<Seq<RawCellView>>,
    n: nat,
    table: Map<FloatOpView, int>,
) -> Result<Seq<Seq<ExprView>>, FloatOpView>
    decreases n,
{
    if n == 0 {
        Ok(Seq::empty())
    } else {
        match rows_of_raw(rows, (n - 1) as nat, table) {
            Err(op) => Err(op),
            Ok(done) => match row_of_raw(rows[n - 1], rows[n - 1].len(), table) {
                Err(op) => Err(op),
                Ok(row) => Ok(done.push(row)),
            },
        }
    }
}

/// The sheet that a sheet of plain cells stands for.
pub open spec fn sheet_of_raw(raw: RawSheetView, table: Map<FloatOpView, int>) -> Result<
    SheetView,
    FloatOpView,
> {
    match rows_of_raw(raw.data, raw.data.len(), table) {
        Err(op) => Err(op),
        Ok(cells) => Ok(SheetView { id: raw.id, cells }),
    }
}

/// The plain cell that a resolved cell leaves as: a value as itself, an
/// error as the text of its message.
pub open spec fn raw_of_expr(e: ExprView) -> RawCellView {
    match e {
        ExprView::Value(ScalarView::Num(NumView::I(i))) => RawCellView::Int(i),
        ExprView::Value(ScalarView::Num(NumView::F(f))) => RawCellView::Float(f),
        ExprView::Value(ScalarView::Bool(b)) => RawCellView::Bool(b),
        ExprView::Value(ScalarView::Str(s)) => RawCellView::String(s),
        ExprView::Error(e) => RawCellView::String(message_of(e)),
        _ => RawCellView::String(Seq::empty()),
    }
}

/// The sheet of plain cells that a resolved sheet leaves as.
pub open spec fn raw_of_sheet(sheet: SheetView) -> RawSheetView {
    RawSheetView {
        id: sheet.id,
        data: Seq::new(
            sheet.cells.len(),
            |y: int| Seq::new(sheet.cells[y].len(), |x: int| raw_of_expr(sheet.cells[y][x])),
        ),
    }
}

/// A row that stopped for want of an answer stays stopped however many
/// cells follow.
proof fn lemma_row_stuck(row: Seq<RawCellView>, n: nat, m: nat, table: Map<FloatOpView, int>)
    requires
        n <= m,
        row_of_raw(row, n, table) is Err,
    ensures
        row_of_raw(row, m, table) == row_of_raw(row, n, table),
    decreases m,
{
    if n < m {
        lemma_row_stuck(row, n, (m - 1) as nat, table);
    }
}

/// Rows that stopped for want of an answer stay stopped however many rows follow.
proof fn lemma_rows_stuck(rows: Seq<Seq<RawCellView>>, n: nat, m: nat, table: Map<FloatOpView, int>)
    requires
        n <= m,
        rows_of_raw(rows, n, table) is Err,
    ensures
        rows_of_raw(rows, m, table) == rows_of_raw(rows, n, table),
    decreases m,
{
    if n < m {
        lemma_rows_stuck(rows, n, (m - 1) as nat, table);
    }
}

impl Expr {
    /// Reads a plain cell.
    pub fn from_raw(raw: &RawCellData, floats: &FloatTable) -> (r: Result<Expr, FloatOp>)
        ensures
            r matches Ok(e) ==> expr_of_raw(raw@, floats@) == Ok::<ExprView, FloatOpView>(e@),
            r matches Err(op) ==> !floats@.contains_key(op@),
            r matches Err(op) ==> expr_of_raw(raw@, floats@) == Err::<ExprView, FloatOpView>(op@),
    {
        match raw {
            RawCellData::Int(i) => Ok(Expr::Value(BoxValue::new(Scalar::Num(Num::I(*i))))),
            RawCellData::Float(f) => Ok(Expr::Value(BoxValue::new(Scalar::Num(Num::F(*f))))),
            RawCellData::Bool(b) => Ok(Expr::Value(BoxValue::new(Scalar::Bool(*b)))),
            RawCellData::String(s) => match parse_entry(s.as_str(), floats) {
                Ok(e) => Ok(e),
                Err(ParseFailure::Malformed) => Ok(Expr::Error(CellError::ParseError)),
                Err(ParseFailure::Pending(op)) => Err(op),
            },
        }
    }

    /// The plain cell that this resolved cell leaves as.
    pub fn to_raw(&self) -> (r: RawCellData)
        requires
            self@.is_terminal(),
        ensures
            r@ == raw_of_expr(self@),
    {
        match self {
            Expr::Value(v) => match v.get() {
                Scalar::Num(Num::I(i)) => RawCellData::Int(*i),
                Scalar::Num(Num::F(f)) => RawCellData::Float(*f),
                Scalar::Bool(b) => RawCellData::Bool(*b),
                Scalar::Str(s) => RawCellData::String(s.clone()),
            },
            Expr::Error(e) => RawCellData::String(e.message()),
            _ => vstd::pervasive::unreached(),
        }
    }
}

impl Sheet {
    /// Reads a sheet of plain cells, cell by cell.
    pub fn from_raw(raw: &RawSheet, floats: &FloatTable) -> (r: Result<Sheet, FloatOp>)
        ensures
            r matches Ok(sheet) ==> sheet_of_raw(raw@, floats@) == Ok::<SheetView, FloatOpView>(
                sheet@,
            ),
            r matches Err(op) ==> !floats@.contains_key(op@),
            r matches Err(op) ==> sheet_of_raw(raw@, floats@) == Err::<SheetView, FloatOpView>(
                op@,
            ),
    {
        let mut cells: Vec<Vec<Expr>> = Vec::new();
        let mut y: usize = 0;
        assert(rows_view(cells@) =~= Seq::<Seq<ExprView>>::empty());
        while y < raw.data.len()
            invariant
                y <= raw.data.len(),
                rows_of_raw(raw@.data, y as nat, floats@) == Ok::<
                    Seq<Seq<ExprView>>,
                    FloatOpView,
                >(rows_view(cells@)),
            decreases raw.data.len() - y,
        {
            let source = &raw.data[y];
            let mut row: Vec<Expr> = Vec::new();
            let mut x: usize = 0;
            assert(views(row@) =~= Seq::<ExprView>::empty());
            while x < source.len()
                invariant
                    x <= source.len(),
                    y < raw.data.len(),
                    raw@.data[y as int] == raw_views(source@),
                    rows_of_raw(raw@.data, y as nat, floats@) == Ok::<
                        Seq<Seq<ExprView>>,
                        FloatOpView,
                    >(rows_view(cells@)),
                    row_of_raw(raw_views(source@), x as nat, floats@) == Ok::<
                        Seq<ExprView>,
                        FloatOpView,
                    >(views(row@)),
                decreases source.len() - x,
            {
                match Expr::from_raw(&source[x], floats) {
                    Err(op) => {
                        proof {
                            lemma_row_stuck(
                                raw_views(source@),
                                (x + 1) as nat,
                                source@.len(),
                                floats@,
                            );
                            lemma_rows_stuck(
                                raw@.data,
                                (y + 1) as nat,
                                raw@.data.len(),
                                floats@,
                            );
                        }
                        return Err(op);
                    },
                    Ok(e) => {
                        proof {
                            assert(views(row@.push(e)) =~= views(row@).push(e@));
                        }
                        row.push(e);
                    },
                }
                x += 1;
            }
            proof {
                assert(rows_view(cells@.push(row)) =~= rows_view(cells@).push(views(row@)));
            }
            cells.push(row);
            y += 1;
        }
        Ok(Sheet { id: raw.id.clone(), cells })
    }

    /// The sheet of plain cells that this resolved sheet leaves as.
    pub fn to_raw(&self) -> (r: RawSheet)
        requires
            resolved(self@.cells),
        ensures
            r@ == raw_of_sheet(self@),
    {
        let mut data: Vec<Vec<RawCellData>> = Vec::new();
        let mut y: usize = 0;
        while y < self.cells.len()
            invariant
                y <= self.cells.len(),
                resolved(self@.cells),
                data@.len() == y,
                forall|k: int|
                    0 <= k < y ==> raw_views((#[trigger] data@[k])@) == raw_of_sheet(self@).data[k],
            decreases self.cells.len() - y,
        {
            let source = &self.cells[y];
            let mut row: Vec<RawCellData> = Vec::new();
            let mut x: usize = 0;
            while x < source.len()
                invariant
                    x <= source.len(),
                    y < self.cells.len(),
                    resolved(self@.cells),
                    self@.cells[y as int] == views(source@),
                    row@.len() == x,
                    forall|k: int| 0 <= k < x ==> (#[trigger] row@[k])@ == raw_of_expr(source@[k]@),
                decreases source.len() - x,
            {
                assert(self@.cells[y as int][x as int].is_terminal());
                row.push(source[x].to_raw());
                x += 1;
            }
            data.push(row);
            y += 1;
        }
        let r = RawSheet { id: self.id.clone(), data };
        proof {
            assert(r@.data =~= raw_of_sheet(self@).data);
        }
        r
    }
}

} // verus!

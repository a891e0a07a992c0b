//! Grids of cells: reading and writing by position, and counting what is
//! still to be resolved.

use vstd::prelude::*;
use super::expr::ExprView;
use super::PositionView;

verus! {

/// The cell at `pos`, if the sheet has one there.
pub open spec fn cell_at(cells: Seq<Seq<ExprView>>, pos: PositionView) -> Option<ExprView> {
    if 0 <= pos.y < cells.len() && 0 <= pos.x < cells[pos.y].len() {
        Some(cells[pos.y][pos.x])
    } else {
        None
    }
}

/// The cells with `e` at `pos`, where there is a cell.
pub open spec fn put(cells: Seq<Seq<ExprView>>, pos: PositionView, e: ExprView) -> Seq<
    Seq<ExprView>,
> {
    cells.update(pos.y, cells[pos.y].update(pos.x, e))
}

/// 1 for an expression that is still to be resolved, 0 for a value or an error.
pub open spec fn open_one(e: ExprView) -> nat {
    if e.is_terminal() {
        0
    } else {
        1
    }
}

/// The number of cells of a row that are still to be resolved.
pub open spec fn open_in_row(row: Seq<ExprView>) -> nat
    decreases row.len(),
{
    if row.len() == 0 {
        0
    } else {
        open_in_row(row.drop_last()) + open_one(row.last())
    }
}

/// The number of cells that are still to be resolved.
pub open spec fn open_cells(cells: Seq<Seq<ExprView>>) -> nat
    decreases cells.len(),
{
    if cells.len() == 0 {
        0
    } else {
        open_cells(cells.drop_last()) + open_in_row(cells.last())
    }
}

/// Whether two grids have the same rows of the same lengths.
pub open spec fn same_shape(a: Seq<Seq<ExprView>>, b: Seq<Seq<ExprView>>) -> bool {
    &&& a.len() == b.len()
    &&& forall|y: int| 0 <= y < a.len() ==> (#[trigger] a[y]).len() == b[y].len()
}

/// Whether `after` has the shape of `before` and every value and error of
/// `before` in its place.
pub open spec fn settles(before: Seq<Seq<ExprView>>, after: Seq<Seq<ExprView>>) -> bool {
    &&& same_shape(before, after)
    &&& forall|y: int, x: int|
        0 <= y < before.len() && 0 <= x < before[y].len() && (#[trigger] before[y][x]).is_terminal()
            ==> after[y][x] == before[y][x]
}

/// Whether every cell is a value or an error.
pub open spec fn resolved(cells: Seq<Seq<ExprView>>) -> bool {
    forall|y: int, x: int|
        0 <= y < cells.len() && 0 <= x < cells[y].len() ==> (#[trigger] cells[y][x]).is_terminal()
}

/// Writing one cell of a row changes the count of open cells by that cell.
proof fn lemma_open_in_row_update(row: Seq<ExprView>, x: int, e: ExprView)
    requires
        0 <= x < row.len(),
    ensures
        open_in_row(row.update(x, e)) + open_one(row[x]) == open_in_row(row) + open_one(e),
    decreases row.len(),
{
    if x == row.len() - 1 {
        assert(row.update(x, e).drop_last() =~= row.drop_last());
    } else {
        lemma_open_in_row_update(row.drop_last(), x, e);
        assert(row.update(x, e).drop_last() =~= row.drop_last().update(x, e));
    }
}

/// Replacing one row changes the count of open cells by that row.
proof fn lemma_open_cells_update(cells: Seq<Seq<ExprView>>, y: int, row: Seq<ExprView>)
    requires
        0 <= y < cells.len(),
    ensures
        open_cells(cells.update(y, row)) + open_in_row(cells[y]) == open_cells(cells) + open_in_row(
            row,
        ),
    decreases cells.len(),
{
    if y == cells.len() - 1 {
        assert(cells.update(y, row).drop_last() =~= cells.drop_last());
    } else {
        lemma_open_cells_update(cells.drop_last(), y, row);
        assert(cells.update(y, row).drop_last() =~= cells.drop_last().update(y, row));
    }
}

/// Writing one cell changes the count of open cells by that cell.
pub proof fn lemma_open_cells_put(cells: Seq<Seq<ExprView>>, pos: PositionView, e: ExprView)
    requires
        cell_at(cells, pos) is Some,
    ensures
        open_cells(put(cells, pos, e)) + open_one(cells[pos.y][pos.x]) == open_cells(cells)
            + open_one(e),
{
    lemma_open_in_row_update(cells[pos.y], pos.x, e);
    lemma_open_cells_update(cells, pos.y, cells[pos.y].update(pos.x, e));
}

/// A row that keeps its values and errors has no more open cells than before.
proof fn lemma_open_in_row_settles(a: Seq<ExprView>, b: Seq<ExprView>)
    requires
        a.len() == b.len(),
        forall|x: int| 0 <= x < a.len() && (#[trigger] a[x]).is_terminal() ==> b[x] == a[x],
    ensures
        open_in_row(b) <= open_in_row(a),
    decreases a.len(),
{
    if a.len() > 0 {
        lemma_open_in_row_settles(a.drop_last(), b.drop_last());
    }
}

/// Cells that keep their values and errors have no more open cells than before.
pub proof fn lemma_open_cells_settles(a: Seq<Seq<ExprView>>, b: Seq<Seq<ExprView>>)
    requires
        settles(a, b),
    ensures
        open_cells(b) <= open_cells(a),
    decreases a.len(),
{
    if a.len() > 0 {
        lemma_open_cells_settles(a.drop_last(), b.drop_last());
        lemma_open_in_row_settles(a.last(), b.last());
    }
}

/// Keeping values and errors in place carries over from step to step.
pub proof fn lemma_settles_trans(a: Seq<Seq<ExprView>>, b: Seq<Seq<ExprView>>, c: Seq<Seq<ExprView>>)
    requires
        settles(a, b),
        settles(b, c),
    ensures
        settles(a, c),
{
}

/// Where an open cell was marked with a value or an error, work went on,
/// and the cell was written again, the values and errors from before the
/// mark are still in place.
pub proof fn lemma_settles_through(
    before: Seq<Seq<ExprView>>,
    pos: PositionView,
    mark: ExprView,
    after: Seq<Seq<ExprView>>,
    e: ExprView,
)
    requires
        cell_at(before, pos) is Some,
        !before[pos.y][pos.x].is_terminal(),
        mark.is_terminal(),
        settles(put(before, pos, mark), after),
    ensures
        settles(before, put(after, pos, e)),
        cell_at(after, pos) == Some(mark),
{
    let marked = put(before, pos, mark);
    assert(marked[pos.y][pos.x].is_terminal());
    assert forall|y: int| 0 <= y < before.len() implies (#[trigger] before[y]).len() == put(
        after,
        pos,
        e,
    )[y].len() by {
        assert(marked[y].len() == after[y].len());
    }
    assert forall|y: int, x: int|
        0 <= y < before.len() && 0 <= x < before[y].len() && (#[trigger] before[y][x]).is_terminal() implies put(
        after,
        pos,
        e,
    )[y][x] == before[y][x] by {
        assert(marked[y][x].is_terminal());
    }
}

} // verus!

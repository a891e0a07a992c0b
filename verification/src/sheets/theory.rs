//! What holds of resolving a sheet, whatever the sheet.

use vstd::prelude::*;
use super::expr::ExprView;
use super::operators::{
    all_terminal, arg_errors, errors, invoke, lemma_invoke_terminal, mismatch, product_of,
    sum_of, type_errors, Operator,
};
use super::grid::{
    cell_at, lemma_open_cells_put, lemma_open_cells_settles, lemma_settles_through,
    lemma_settles_trans, open_cells, put, resolved, same_shape, settles,
};
use super::parse::{word_false, word_true};
use super::raw::{expr_of_raw, raw_of_expr, raw_of_sheet, row_of_raw, rows_of_raw, sheet_of_raw};
use super::resolve::{
    circular, follow, resolve_all, resolve_args, resolve_cell, resolve_expr, resolve_rows,
};
use super::{CellErrorView, OpInfoView, PositionView, SheetView};
use crate::data::{RawCellView, RawSheetView};
use crate::types::float::FloatOpView;
use crate::types::num::NumView;
use crate::types::value::ScalarView;

verus! {

/// Resolving an expression leaves every value and error of the sheet in its
/// place, and comes to a value or an error.
pub proof fn lemma_resolve_expr_settles(
    cells: Seq<Seq<ExprView>>,
    e: ExprView,
    origin: PositionView,
    ops: Map<Seq<char>, Operator>,
    table: Map<FloatOpView, int>,
    fuel: nat,
)
    ensures
        settles(cells, resolve_expr(cells, e, origin, ops, table, fuel).0),
        resolve_expr(cells, e, origin, ops, table, fuel).1 matches Ok(v) ==> v.is_terminal(),
    decreases fuel, e, 0nat,
{
    match e {
        ExprView::Ref(r) => {
            if r != origin {
                match cell_at(cells, r) {
                    None => {},
                    Some(target) => {
                        if !target.is_terminal() && fuel > 0 {
                            let marked = put(cells, r, circular());
                            lemma_resolve_expr_settles(
                                marked,
                                target,
                                origin,
                                ops,
                                table,
                                (fuel - 1) as nat,
                            );
                            let inner = resolve_expr(
                                marked,
                                target,
                                origin,
                                ops,
                                table,
                                (fuel - 1) as nat,
                            );
                            match inner.1 {
                                Ok(v) => {
                                    lemma_settles_through(cells, r, circular(), inner.0, v);
                                },
                                Err(_) => {
                                    lemma_settles_through(cells, r, circular(), inner.0, target);
                                },
                            }
                        }
                    },
                }
            }
        },
        ExprView::Form(info) => {
            lemma_resolve_args_settles(cells, info, info.args.len(), origin, ops, table, fuel);
            let done = resolve_args(cells, info, info.args.len(), origin, ops, table, fuel);
            match done.1 {
                Err(_) => {},
                Ok(args) => {
                    if ops.contains_key(info.name) {
                        lemma_invoke_terminal(ops[info.name], args, table);
                    }
                },
            }
        },
        _ => {},
    }
}

/// Resolving the arguments of a call leaves every value and error of the
/// sheet in its place, and comes to as many values and errors.
pub proof fn lemma_resolve_args_settles(
    cells: Seq<Seq<ExprView>>,
    info: OpInfoView,
    n: nat,
    origin: PositionView,
    ops: Map<Seq<char>, Operator>,
    table: Map<FloatOpView, int>,
    fuel: nat,
)
    requires
        n <= info.args.len(),
    ensures
        settles(cells, resolve_args(cells, info, n, origin, ops, table, fuel).0),
        resolve_args(cells, info, n, origin, ops, table, fuel).1 matches Ok(args) ==> args.len()
            == n && all_terminal(args),
    decreases fuel, info, n,
{
    if n > 0 {
        lemma_resolve_args_settles(cells, info, (n - 1) as nat, origin, ops, table, fuel);
        let before = resolve_args(cells, info, (n - 1) as nat, origin, ops, table, fuel);
        match before.1 {
            Err(_) => {},
            Ok(done) => {
                lemma_resolve_expr_settles(before.0, info.args[n - 1], origin, ops, table, fuel);
                let last = resolve_expr(before.0, info.args[n - 1], origin, ops, table, fuel);
                lemma_settles_trans(cells, before.0, last.0);
                match last.1 {
                    Err(_) => {},
                    Ok(v) => {
                        assert forall|i: int| 0 <= i < done.push(v).len() implies (
                        #[trigger] done.push(v)[i]).is_terminal() by {}
                    },
                }
            },
        }
    }
}

/// Resolving a cell leaves every value and error of the sheet in its place;
/// where the work did not stop, the cell then holds a value or an error.
pub proof fn lemma_resolve_cell_settles(
    cells: Seq<Seq<ExprView>>,
    pos: PositionView,
    origin: PositionView,
    ops: Map<Seq<char>, Operator>,
    table: Map<FloatOpView, int>,
)
    ensures
        settles(cells, resolve_cell(cells, pos, origin, ops, table).0),
        resolve_cell(cells, pos, origin, ops, table).1 matches Ok(Some(v)) ==> v.is_terminal()
            && cell_at(resolve_cell(cells, pos, origin, ops, table).0, pos) == Some(v),
{
    match cell_at(cells, pos) {
        None => {},
        Some(e) => {
            if !e.is_terminal() {
                let marked = put(cells, pos, circular());
                let fuel = (open_cells(cells) - 1) as nat;
                lemma_resolve_expr_settles(marked, e, origin, ops, table, fuel);
                let inner = resolve_expr(marked, e, origin, ops, table, fuel);
                match inner.1 {
                    Ok(v) => {
                        lemma_settles_through(cells, pos, circular(), inner.0, v);
                    },
                    Err(_) => {
                        lemma_settles_through(cells, pos, circular(), inner.0, e);
                    },
                }
            }
        },
    }
}

/// Whether the cell in column `x` of row `y` comes before the one in column
/// `to_x` of row `to_y`, row by row and each row from the left.
pub open spec fn before(y: int, x: int, to_y: int, to_x: int) -> bool {
    y < to_y || (y == to_y && x < to_x)
}

/// Resolving the cells from one on leaves every value and error in its
/// place; where the work did not stop, every cell from that one on then
/// holds a value or an error.
pub proof fn lemma_resolve_rows_settles(
    base: Seq<Seq<ExprView>>,
    cells: Seq<Seq<ExprView>>,
    y: int,
    x: int,
    ops: Map<Seq<char>, Operator>,
    table: Map<FloatOpView, int>,
)
    requires
        settles(base, cells),
        0 <= y,
        0 <= x,
    ensures
        settles(cells, resolve_rows(base, cells, y, x, ops, table).0),
        resolve_rows(base, cells, y, x, ops, table).1 is None ==> forall|yy: int, xx: int|
            0 <= yy < base.len() && 0 <= xx < base[yy].len() && !before(yy, xx, y, x) ==> (
            #[trigger] resolve_rows(base, cells, y, x, ops, table).0[yy][xx]).is_terminal(),
    decreases base.len() - y, base[y].len() - x,
{
    if y >= base.len() {
    } else if x >= base[y].len() {
        lemma_resolve_rows_settles(base, cells, y + 1, 0, ops, table);
    } else {
        let here = PositionView { x, y };
        lemma_resolve_cell_settles(cells, here, here, ops, table);
        let step = resolve_cell(cells, here, here, ops, table);
        match step.1 {
            Err(_) => {},
            Ok(_) => {
                lemma_settles_trans(base, cells, step.0);
                lemma_resolve_rows_settles(base, step.0, y, x + 1, ops, table);
                let last = resolve_rows(base, step.0, y, x + 1, ops, table);
                lemma_settles_trans(cells, step.0, last.0);
            },
        }
    }
}

/// Resolving a sheet changes no cell that is a value or an error, and, where
/// the work does not stop, leaves every cell a value or an error.
pub proof fn lemma_resolve_all_settles(
    cells: Seq<Seq<ExprView>>,
    ops: Map<Seq<char>, Operator>,
    table: Map<FloatOpView, int>,
)
    ensures
        settles(cells, resolve_all(cells, ops, table).0),
        resolve_all(cells, ops, table).1 is None ==> resolved(resolve_all(cells, ops, table).0),
{
    lemma_resolve_rows_settles(cells, cells, 0, 0, ops, table);
}

/// Resolving a sheet whose cells are all values and errors gives the same
/// sheet, and asks for nothing.
pub proof fn lemma_resolved_is_fixed(
    cells: Seq<Seq<ExprView>>,
    ops: Map<Seq<char>, Operator>,
    table: Map<FloatOpView, int>,
)
    requires
        resolved(cells),
    ensures
        resolve_all(cells, ops, table) == (cells, None::<FloatOpView>),
{
    lemma_rows_fixed(cells, 0, 0, ops, table);
}

/// Resolving a sheet that was resolved changes nothing, whatever the table.
pub proof fn lemma_resolve_twice(
    cells: Seq<Seq<ExprView>>,
    ops: Map<Seq<char>, Operator>,
    table: Map<FloatOpView, int>,
    other: Map<FloatOpView, int>,
)
    requires
        resolve_all(cells, ops, table).1 is None,
    ensures
        resolve_all(resolve_all(cells, ops, table).0, ops, other) == (
            resolve_all(cells, ops, table).0,
            None::<FloatOpView>,
        ),
{
    lemma_resolve_all_settles(cells, ops, table);
    lemma_resolved_is_fixed(resolve_all(cells, ops, table).0, ops, other);
}

/// Resolving the cells from one on, in a sheet whose cells are all values
/// and errors, changes nothing and asks for nothing.
proof fn lemma_rows_fixed(
    cells: Seq<Seq<ExprView>>,
    y: int,
    x: int,
    ops: Map<Seq<char>, Operator>,
    table: Map<FloatOpView, int>,
)
    requires
        resolved(cells),
        0 <= y,
        0 <= x,
    ensures
        resolve_rows(cells, cells, y, x, ops, table) == (cells, None::<FloatOpView>),
    decreases cells.len() - y, cells[y].len() - x,
{
    if y >= cells.len() {
    } else if x >= cells[y].len() {
        lemma_rows_fixed(cells, y + 1, 0, ops, table);
    } else {
        lemma_rows_fixed(cells, y, x + 1, ops, table);
    }
}

/// Fuel beyond the number of unresolved cells makes no difference to what
/// an expression resolves to: that much is never used up.
pub proof fn lemma_fuel_suffices(
    cells: Seq<Seq<ExprView>>,
    e: ExprView,
    origin: PositionView,
    ops: Map<Seq<char>, Operator>,
    table: Map<FloatOpView, int>,
    fuel: nat,
    other: nat,
)
    requires
        fuel >= open_cells(cells),
        other >= open_cells(cells),
    ensures
        resolve_expr(cells, e, origin, ops, table, fuel) == resolve_expr(
            cells,
            e,
            origin,
            ops,
            table,
            other,
        ),
    decreases fuel, e, 0nat,
{
    match e {
        ExprView::Ref(r) => {
            if r != origin {
                match cell_at(cells, r) {
                    None => {},
                    Some(target) => {
                        if !target.is_terminal() {
                            lemma_open_cells_put(cells, r, circular());
                            lemma_fuel_suffices(
                                put(cells, r, circular()),
                                target,
                                origin,
                                ops,
                                table,
                                (fuel - 1) as nat,
                                (other - 1) as nat,
                            );
                        }
                    },
                }
            }
        },
        ExprView::Form(info) => {
            lemma_fuel_suffices_args(
                cells,
                info,
                info.args.len(),
                origin,
                ops,
                table,
                fuel,
                other,
            );
        },
        _ => {},
    }
}

/// Fuel beyond the number of unresolved cells makes no difference to what
/// the arguments of a call resolve to.
pub proof fn lemma_fuel_suffices_args(
    cells: Seq<Seq<ExprView>>,
    info: OpInfoView,
    n: nat,
    origin: PositionView,
    ops: Map<Seq<char>, Operator>,
    table: Map<FloatOpView, int>,
    fuel: nat,
    other: nat,
)
    requires
        n <= info.args.len(),
        fuel >= open_cells(cells),
        other >= open_cells(cells),
    ensures
        resolve_args(cells, info, n, origin, ops, table, fuel) == resolve_args(
            cells,
            info,
            n,
            origin,
            ops,
            table,
            other,
        ),
    decreases fuel, info, n,
{
    if n > 0 {
        lemma_fuel_suffices_args(cells, info, (n - 1) as nat, origin, ops, table, fuel, other);
        let before = resolve_args(cells, info, (n - 1) as nat, origin, ops, table, fuel);
        if before.1 is Ok {
            lemma_resolve_args_settles(cells, info, (n - 1) as nat, origin, ops, table, fuel);
            lemma_open_cells_settles(cells, before.0);
            lemma_fuel_suffices(before.0, info.args[n - 1], origin, ops, table, fuel, other);
        }
    }
}

/// Whether every argument is an integer.
pub open spec fn integers(args: Seq<ExprView>) -> bool {
    forall|i: int|
        0 <= i < args.len() ==> (#[trigger] args[i]) matches ExprView::Value(
            ScalarView::Num(NumView::I(_)),
        )
}

/// Whether every argument is a number.
pub open spec fn numbers(args: Seq<ExprView>) -> bool {
    forall|i: int|
        0 <= i < args.len() ==> (#[trigger] args[i]) matches ExprView::Value(ScalarView::Num(_))
}

/// Whether one of the arguments is a double.
pub open spec fn has_double(args: Seq<ExprView>) -> bool {
    exists|i: int|
        0 <= i < args.len() && (#[trigger] args[i]) matches ExprView::Value(
            ScalarView::Num(NumView::F(_)),
        )
}

/// Arguments that are all values of the kinds declared have no errors among
/// them and no mismatches.
proof fn lemma_clean(op: Operator, args: Seq<ExprView>)
    requires
        forall|i: int|
            0 <= i < args.len() ==> (#[trigger] args[i]) is Value && !mismatch(
                op,
                args.take(i),
                args[i],
            ),
    ensures
        arg_errors(args).len() == 0,
        type_errors(op, args).len() == 0,
    decreases args.len(),
{
    if args.len() > 0 {
        lemma_clean(op, args.drop_last());
    }
}

/// The sum of integers is an integer.
proof fn lemma_sum_of_integers(args: Seq<ExprView>, n: nat, table: Map<FloatOpView, int>)
    requires
        integers(args),
        n <= args.len(),
    ensures
        sum_of(args, n, table) matches Ok(NumView::I(_)),
    decreases n,
{
    if n > 0 {
        lemma_sum_of_integers(args, (n - 1) as nat, table);
    }
}

/// The product of integers is an integer.
proof fn lemma_product_of_integers(args: Seq<ExprView>, n: nat, table: Map<FloatOpView, int>)
    requires
        integers(args),
        n <= args.len(),
    ensures
        product_of(args, n, table) matches Ok(NumView::I(_)),
    decreases n,
{
    if n > 0 {
        lemma_product_of_integers(args, (n - 1) as nat, table);
    }
}

/// A sum that takes in a double is a double.
proof fn lemma_sum_with_double(
    args: Seq<ExprView>,
    k: int,
    n: nat,
    table: Map<FloatOpView, int>,
)
    requires
        0 <= k < n <= args.len(),
        args[k] matches ExprView::Value(ScalarView::Num(NumView::F(_))),
    ensures
        sum_of(args, n, table) matches Ok(v) ==> v is F,
    decreases n,
{
    if n - 1 > k {
        lemma_sum_with_double(args, k, (n - 1) as nat, table);
    }
}

/// A product that takes in a double is a double.
proof fn lemma_product_with_double(
    args: Seq<ExprView>,
    k: int,
    n: nat,
    table: Map<FloatOpView, int>,
)
    requires
        0 <= k < n <= args.len(),
        args[k] matches ExprView::Value(ScalarView::Num(NumView::F(_))),
    ensures
        product_of(args, n, table) matches Ok(v) ==> v is F,
    decreases n,
{
    if n - 1 > k {
        lemma_product_with_double(args, k, (n - 1) as nat, table);
    }
}

/// `SUM` and `MULTIPLY` of integers alone come to an integer, and never
/// want for an answer on doubles.
pub proof fn lemma_integers_stay_integers(
    op: Operator,
    args: Seq<ExprView>,
    table: Map<FloatOpView, int>,
)
    requires
        op == Operator::Sum || op == Operator::Multiply,
        1 <= args.len() <= usize::MAX,
        integers(args),
    ensures
        invoke(op, args, table) matches Ok(ExprView::Value(ScalarView::Num(NumView::I(_)))),
{
    lemma_clean(op, args);
    lemma_sum_of_integers(args, args.len(), table);
    lemma_product_of_integers(args, args.len(), table);
}

/// `SUM` and `MULTIPLY` of numbers with a double among them come, where
/// they come to a result, to a double.
pub proof fn lemma_double_makes_double(
    op: Operator,
    args: Seq<ExprView>,
    table: Map<FloatOpView, int>,
)
    requires
        op == Operator::Sum || op == Operator::Multiply,
        1 <= args.len() <= usize::MAX,
        numbers(args),
        has_double(args),
    ensures
        invoke(op, args, table) matches Ok(e) ==> e matches ExprView::Value(
            ScalarView::Num(NumView::F(_)),
        ),
{
    lemma_clean(op, args);
    let k = choose|i: int|
        0 <= i < args.len() && (#[trigger] args[i]) matches ExprView::Value(
            ScalarView::Num(NumView::F(_)),
        );
    lemma_sum_with_double(args, k, args.len(), table);
    lemma_product_with_double(args, k, args.len(), table);
}

/// Whether an error goes back to a cycle: it is the cycle error, or the
/// error of a cell or of an argument that goes back to one, or the error of
/// a formula one of whose errors does.
pub open spec fn rooted(e: CellErrorView) -> bool
    decreases e,
{
    match e {
        CellErrorView::CircularRef => true,
        CellErrorView::RefError(cause, _) => rooted(*cause),
        CellErrorView::ArgError(_, cause) => rooted(*cause),
        CellErrorView::FormError(list) => exists|i: int|
            0 <= i < list.len() && rooted(#[trigger] list[i]),
        _ => false,
    }
}

/// Whether an expression is an error that goes back to a cycle.
pub open spec fn cyclic(e: ExprView) -> bool {
    e matches ExprView::Error(err) && rooted(err)
}

/// Whether the expression refers to the cell at `q`: it is a reference to
/// it, or a call of a registered operator one of whose arguments refers to it.
pub open spec fn mentions(e: ExprView, q: PositionView, ops: Map<Seq<char>, Operator>) -> bool
    decreases e,
{
    match e {
        ExprView::Ref(r) => r == q,
        ExprView::Form(info) => ops.contains_key(info.name) && exists|i: int|
            0 <= i < info.args.len() && mentions(#[trigger] info.args[i], q, ops),
        _ => false,
    }
}

/// The place after `i` on a ring of `n` places.
pub open spec fn after(i: int, n: int) -> int {
    if i + 1 == n {
        0
    } else {
        i + 1
    }
}

/// Whether the positions are cells of which each refers to the next, and
/// the last to the first.
pub open spec fn is_ring(
    cells: Seq<Seq<ExprView>>,
    ring: Seq<PositionView>,
    ops: Map<Seq<char>, Operator>,
) -> bool {
    forall|i: int|
        0 <= i < ring.len() ==> cell_at(cells, #[trigger] ring[i]) is Some && mentions(
            cells[ring[i].y][ring[i].x],
            ring[after(i, ring.len() as int)],
            ops,
        )
}

/// Whether `cells` has the shape of `base` and each cell of the ring is as
/// in `base` or an error that goes back to a cycle.
pub open spec fn keeps(
    base: Seq<Seq<ExprView>>,
    cells: Seq<Seq<ExprView>>,
    ring: Seq<PositionView>,
) -> bool {
    &&& same_shape(base, cells)
    &&& forall|i: int|
        0 <= i < ring.len() ==> cells[(#[trigger] ring[i]).y][ring[i].x] == base[ring[i].y][ring[i].x]
            || cyclic(cells[ring[i].y][ring[i].x])
}

/// What follows an error that goes back to a cycle goes back to one.
proof fn lemma_follow_cyclic(inner: ExprView, at: PositionView)
    requires
        cyclic(inner),
    ensures
        cyclic(follow(inner, at)),
{
}

/// An argument that is an error is among the errors of the arguments.
proof fn lemma_arg_error_listed(args: Seq<ExprView>, k: int)
    requires
        0 <= k < args.len(),
        args[k] is Error,
    ensures
        exists|j: int|
            0 <= j < arg_errors(args).len() && #[trigger] arg_errors(args)[j]
                == CellErrorView::ArgError(k, Box::new(args[k]->Error_0)),
    decreases args.len(),
{
    if k == args.len() - 1 {
        let j = arg_errors(args).len() - 1;
        assert(arg_errors(args)[j] == CellErrorView::ArgError(k, Box::new(args[k]->Error_0)));
    } else {
        lemma_arg_error_listed(args.drop_last(), k);
        let j = choose|j: int|
            0 <= j < arg_errors(args.drop_last()).len() && #[trigger] arg_errors(
                args.drop_last(),
            )[j] == CellErrorView::ArgError(k, Box::new(args.drop_last()[k]->Error_0));
        assert(arg_errors(args)[j] == CellErrorView::ArgError(k, Box::new(args[k]->Error_0)));
    }
}

/// A call with an argument that goes back to a cycle goes back to one.
proof fn lemma_invoke_cyclic(
    op: Operator,
    args: Seq<ExprView>,
    k: int,
    table: Map<FloatOpView, int>,
)
    requires
        0 <= k < args.len(),
        cyclic(args[k]),
    ensures
        invoke(op, args, table) matches Ok(e) && cyclic(e),
{
    lemma_arg_error_listed(args, k);
    let j = choose|j: int|
        0 <= j < arg_errors(args).len() && #[trigger] arg_errors(args)[j]
            == CellErrorView::ArgError(k, Box::new(args[k]->Error_0));
    let list = errors(op, args);
    assert(rooted(list[j]));
    let whole = CellErrorView::FormError(list);
    assert(whole->FormError_0[j] == list[j]);
}

/// Writing to a cell keeps the ring, where the cell is not on the ring or
/// what is written is as in `base` or goes back to a cycle.
proof fn lemma_keeps_put(
    base: Seq<Seq<ExprView>>,
    cells: Seq<Seq<ExprView>>,
    ring: Seq<PositionView>,
    pos: PositionView,
    e: ExprView,
)
    requires
        keeps(base, cells, ring),
        cell_at(cells, pos) is Some,
        (forall|i: int| 0 <= i < ring.len() ==> #[trigger] ring[i] != pos) || cyclic(e) || e
            == base[pos.y][pos.x],
        forall|i: int| 0 <= i < ring.len() ==> cell_at(base, #[trigger] ring[i]) is Some,
    ensures
        keeps(base, put(cells, pos, e), ring),
{
    let out = put(cells, pos, e);
    assert forall|i: int| 0 <= i < ring.len() implies out[(#[trigger] ring[i]).y][ring[i].x]
        == base[ring[i].y][ring[i].x] || cyclic(out[ring[i].y][ring[i].x]) by {}
}

/// Resolving an expression keeps a ring; and an expression that refers to
/// a cell of the ring goes back to a cycle.
proof fn lemma_ring_expr(
    base: Seq<Seq<ExprView>>,
    cells: Seq<Seq<ExprView>>,
    e: ExprView,
    origin: PositionView,
    ops: Map<Seq<char>, Operator>,
    table: Map<FloatOpView, int>,
    fuel: nat,
    ring: Seq<PositionView>,
)
    requires
        is_ring(base, ring, ops),
        keeps(base, cells, ring),
    ensures
        keeps(base, resolve_expr(cells, e, origin, ops, table, fuel).0, ring),
        forall|i: int|
            0 <= i < ring.len() && mentions(e, #[trigger] ring[i], ops) ==> (resolve_expr(
                cells,
                e,
                origin,
                ops,
                table,
                fuel,
            ).1 matches Ok(v) ==> cyclic(v)),
    decreases fuel, e, 0nat,
{
    match e {
        ExprView::Ref(r) => {
            if r != origin {
                match cell_at(cells, r) {
                    None => {
                        assert forall|i: int| 0 <= i < ring.len() implies #[trigger] ring[i]
                            != r by {}
                    },
                    Some(target) => {
                        if target.is_terminal() {
                            assert forall|i: int|
                                0 <= i < ring.len() && mentions(
                                    e,
                                    #[trigger] ring[i],
                                    ops,
                                ) implies cyclic(follow(target, r)) by {
                                lemma_follow_cyclic(target, r);
                            }
                        } else if fuel > 0 {
                            let marked = put(cells, r, circular());
                            lemma_keeps_put(base, cells, ring, r, circular());
                            lemma_ring_expr(
                                base,
                                marked,
                                target,
                                origin,
                                ops,
                                table,
                                (fuel - 1) as nat,
                                ring,
                            );
                            lemma_resolve_expr_settles(
                                marked,
                                target,
                                origin,
                                ops,
                                table,
                                (fuel - 1) as nat,
                            );
                            let inner = resolve_expr(
                                marked,
                                target,
                                origin,
                                ops,
                                table,
                                (fuel - 1) as nat,
                            );
                            match inner.1 {
                                Ok(v) => {
                                    if exists|i: int| 0 <= i < ring.len() && #[trigger] ring[i] == r {
                                        lemma_follow_cyclic(v, r);
                                    }
                                    lemma_keeps_put(base, inner.0, ring, r, v);
                                },
                                Err(_) => {
                                    lemma_keeps_put(base, inner.0, ring, r, target);
                                },
                            }
                        }
                    },
                }
            }
        },
        ExprView::Form(info) => {
            lemma_ring_args(base, cells, info, info.args.len(), origin, ops, table, fuel, ring);
            let done = resolve_args(cells, info, info.args.len(), origin, ops, table, fuel);
            match done.1 {
                Err(_) => {},
                Ok(args) => {
                    lemma_resolve_args_settles(
                        cells,
                        info,
                        info.args.len(),
                        origin,
                        ops,
                        table,
                        fuel,
                    );
                    assert forall|i: int|
                        0 <= i < ring.len() && mentions(e, #[trigger] ring[i], ops) implies (
                    resolve_expr(cells, e, origin, ops, table, fuel).1 matches Ok(v) ==> cyclic(
                        v,
                    )) by {
                        let k = choose|k: int|
                            0 <= k < info.args.len() && mentions(
                                #[trigger] info.args[k],
                                ring[i],
                                ops,
                            );
                        lemma_invoke_cyclic(ops[info.name], args, k, table);
                    }
                },
            }
        },
        _ => {},
    }
}

/// Resolving arguments keeps a ring; and an argument that refers to a cell
/// of the ring goes back to a cycle.
proof fn lemma_ring_args(
    base: Seq<Seq<ExprView>>,
    cells: Seq<Seq<ExprView>>,
    info: OpInfoView,
    n: nat,
    origin: PositionView,
    ops: Map<Seq<char>, Operator>,
    table: Map<FloatOpView, int>,
    fuel: nat,
    ring: Seq<PositionView>,
)
    requires
        is_ring(base, ring, ops),
        keeps(base, cells, ring),
        n <= info.args.len(),
    ensures
        keeps(base, resolve_args(cells, info, n, origin, ops, table, fuel).0, ring),
        resolve_args(cells, info, n, origin, ops, table, fuel).1 matches Ok(args) ==> args.len()
            == n && forall|k: int, i: int|
            0 <= k < n && 0 <= i < ring.len() && mentions(
                #[trigger] info.args[k],
                #[trigger] ring[i],
                ops,
            ) ==> cyclic(args[k]),
    decreases fuel, info, n,
{
    if n > 0 {
        lemma_ring_args(base, cells, info, (n - 1) as nat, origin, ops, table, fuel, ring);
        let before = resolve_args(cells, info, (n - 1) as nat, origin, ops, table, fuel);
        match before.1 {
            Err(_) => {},
            Ok(done) => {
                lemma_ring_expr(base, before.0, info.args[n - 1], origin, ops, table, fuel, ring);
                let last = resolve_expr(before.0, info.args[n - 1], origin, ops, table, fuel);
                match last.1 {
                    Err(_) => {},
                    Ok(v) => {
                        let args = done.push(v);
                        assert forall|k: int, i: int|
                            0 <= k < n && 0 <= i < ring.len() && mentions(
                                #[trigger] info.args[k],
                                #[trigger] ring[i],
                                ops,
                            ) implies cyclic(args[k]) by {}
                    },
                }
            },
        }
    }
}

/// Resolving a cell keeps a ring.
proof fn lemma_ring_cell(
    base: Seq<Seq<ExprView>>,
    cells: Seq<Seq<ExprView>>,
    pos: PositionView,
    ops: Map<Seq<char>, Operator>,
    table: Map<FloatOpView, int>,
    ring: Seq<PositionView>,
)
    requires
        is_ring(base, ring, ops),
        keeps(base, cells, ring),
    ensures
        keeps(base, resolve_cell(cells, pos, pos, ops, table).0, ring),
{
    match cell_at(cells, pos) {
        None => {},
        Some(target) => {
            if !target.is_terminal() {
                let fuel = (open_cells(cells) - 1) as nat;
                let marked = put(cells, pos, circular());
                lemma_keeps_put(base, cells, ring, pos, circular());
                lemma_ring_expr(base, marked, target, pos, ops, table, fuel, ring);
                lemma_resolve_expr_settles(marked, target, pos, ops, table, fuel);
                let inner = resolve_expr(marked, target, pos, ops, table, fuel);
                match inner.1 {
                    Ok(v) => {
                        lemma_keeps_put(base, inner.0, ring, pos, v);
                    },
                    Err(_) => {
                        if exists|i: int| 0 <= i < ring.len() && #[trigger] ring[i] == pos {
                            assert(target == base[pos.y][pos.x]);
                        }
                        lemma_keeps_put(base, inner.0, ring, pos, target);
                    },
                }
            }
        },
    }
}

/// Resolving the cells from one on keeps a ring.
proof fn lemma_ring_rows(
    base: Seq<Seq<ExprView>>,
    cells: Seq<Seq<ExprView>>,
    y: int,
    x: int,
    ops: Map<Seq<char>, Operator>,
    table: Map<FloatOpView, int>,
    ring: Seq<PositionView>,
)
    requires
        is_ring(base, ring, ops),
        keeps(base, cells, ring),
        0 <= y,
        0 <= x,
    ensures
        keeps(base, resolve_rows(base, cells, y, x, ops, table).0, ring),
    decreases base.len() - y, base[y].len() - x,
{
    if y >= base.len() {
    } else if x >= base[y].len() {
        lemma_ring_rows(base, cells, y + 1, 0, ops, table, ring);
    } else {
        let here = PositionView { x, y };
        lemma_ring_cell(base, cells, here, ops, table, ring);
        let step = resolve_cell(cells, here, here, ops, table);
        match step.1 {
            Err(_) => {},
            Ok(_) => {
                lemma_ring_rows(base, step.0, y, x + 1, ops, table, ring);
            },
        }
    }
}

/// Where cells refer to one another in a ring, each through calls of
/// registered operators only, every cell of the ring ends in an error that
/// goes back to a cycle, once the sheet is resolved.
pub proof fn lemma_ring_ends_in_cycle(
    cells: Seq<Seq<ExprView>>,
    ops: Map<Seq<char>, Operator>,
    table: Map<FloatOpView, int>,
    ring: Seq<PositionView>,
)
    requires
        is_ring(cells, ring, ops),
        resolve_all(cells, ops, table).1 is None,
    ensures
        forall|i: int|
            0 <= i < ring.len() ==> cyclic(
                resolve_all(cells, ops, table).0[(#[trigger] ring[i]).y][ring[i].x],
            ),
{
    lemma_ring_rows(cells, cells, 0, 0, ops, table, ring);
    lemma_resolve_all_settles(cells, ops, table);
}

/// Whether a plain cell stands for itself: it is a number, a boolean, or a
/// text that is neither a formula nor the word `true` or `false`.
pub open spec fn literal(cell: RawCellView) -> bool {
    match cell {
        RawCellView::String(s) => !(s.len() > 0 && s[0] == '=') && s != word_true() && s
            != word_false(),
        _ => true,
    }
}

/// Whether every cell of a sheet of plain cells stands for itself.
pub open spec fn all_literal(data: Seq<Seq<RawCellView>>) -> bool {
    forall|y: int, x: int|
        0 <= y < data.len() && 0 <= x < data[y].len() ==> literal(#[trigger] data[y][x])
}

/// A plain cell that stands for itself is read as a value, and leaves as
/// the same plain cell.
pub proof fn lemma_literal_cell_round_trip(cell: RawCellView, table: Map<FloatOpView, int>)
    requires
        literal(cell),
    ensures
        expr_of_raw(cell, table) matches Ok(e) && e is Value && raw_of_expr(e) == cell,
{
}

/// A row of plain cells that stand for themselves is read as values.
proof fn lemma_literal_row(row: Seq<RawCellView>, n: nat, table: Map<FloatOpView, int>)
    requires
        n <= row.len(),
        forall|x: int| 0 <= x < row.len() ==> literal(#[trigger] row[x]),
    ensures
        row_of_raw(row, n, table) matches Ok(es) && es.len() == n && forall|x: int|
            0 <= x < n ==> (#[trigger] es[x]) is Value && raw_of_expr(es[x]) == row[x],
    decreases n,
{
    if n > 0 {
        lemma_literal_row(row, (n - 1) as nat, table);
        lemma_literal_cell_round_trip(row[n - 1], table);
    }
}

/// Rows of plain cells that stand for themselves are read as values.
proof fn lemma_literal_rows(data: Seq<Seq<RawCellView>>, n: nat, table: Map<FloatOpView, int>)
    requires
        n <= data.len(),
        all_literal(data),
    ensures
        rows_of_raw(data, n, table) matches Ok(cells) && cells.len() == n && forall|y: int|
            0 <= y < n ==> (#[trigger] cells[y]).len() == data[y].len() && forall|x: int|
                0 <= x < data[y].len() ==> (#[trigger] cells[y][x]) is Value && raw_of_expr(
                    cells[y][x],
                ) == data[y][x],
    decreases n,
{
    if n > 0 {
        lemma_literal_rows(data, (n - 1) as nat, table);
        lemma_literal_row(data[n - 1], data[n - 1].len(), table);
    }
}

/// A sheet of plain cells that all stand for themselves is read without
/// the table being asked, resolves to itself, and leaves as the same sheet
/// of plain cells.
pub proof fn lemma_literal_sheet_round_trip(
    raw: RawSheetView,
    ops: Map<Seq<char>, Operator>,
    table: Map<FloatOpView, int>,
)
    requires
        all_literal(raw.data),
    ensures
        sheet_of_raw(raw, table) matches Ok(sheet) && resolve_all(sheet.cells, ops, table) == (
            sheet.cells,
            None::<FloatOpView>,
        ) && raw_of_sheet(sheet) == raw,
{
    lemma_literal_rows(raw.data, raw.data.len(), table);
    let cells = rows_of_raw(raw.data, raw.data.len(), table)->Ok_0;
    let sheet = SheetView { id: raw.id, cells };
    lemma_resolved_is_fixed(cells, ops, table);
    assert(raw_of_sheet(sheet).data =~= raw.data) by {
        assert forall|y: int| 0 <= y < cells.len() implies #[trigger] raw_of_sheet(sheet).data[y]
            =~= raw.data[y] by {}
    }
}

} // verus!

//! Resolving in rounds.
//!
//! A round that stops for want of an answer hands back the sheet with what
//! it could resolve. Once the answer is in the table, the next round can go
//! on from that sheet: it comes to what a round on the sheet as it first was
//! comes to with the same table. So however many rounds it takes, the sheet
//! at the end is the one that a single round with every answer at hand
//! gives.

use vstd::prelude::*;
use super::expr::ExprView;
use super::operators::OpMap;
use super::raw::sheet_of_raw;
use super::resolve::Resolution;
use super::{Sheet, SheetView};
use crate::data::RawSheet;
use crate::types::float::{FloatOp, FloatTable};
use super::grid::{
    cell_at, lemma_open_cells_put, lemma_open_cells_settles, lemma_settles_through,
    lemma_settles_trans, open_cells, put, same_shape, settles,
};
use super::operators::{compute, errors, invoke, product_of, sum_of, Operator};
use super::resolve::{
    circular, follow, resolve_all, resolve_args, resolve_cell, resolve_expr, resolve_rows,
};
use super::theory::{
    lemma_fuel_suffices, lemma_resolve_args_settles, lemma_resolve_cell_settles,
    lemma_resolve_expr_settles, lemma_resolve_rows_settles,
};
use super::{OpInfoView, PositionView};
use crate::types::float::FloatOpView;

verus! {

/// Whether `more` has every answer that `table` has.
pub open spec fn extends(more: Map<FloatOpView, int>, table: Map<FloatOpView, int>) -> bool {
    forall|op: FloatOpView| #[trigger]
        table.contains_key(op) ==> more.contains_key(op) && more[op] == table[op]
}

/// A table with one more answer has every answer that it had.
pub proof fn lemma_insert_extends(table: Map<FloatOpView, int>, op: FloatOpView, answer: int)
    requires
        !table.contains_key(op),
    ensures
        extends(table.insert(op, answer), table),
{
}

/// A sum that does not want for an answer is the same with more answers.
proof fn lemma_sum_stable(
    args: Seq<ExprView>,
    n: nat,
    table: Map<FloatOpView, int>,
    more: Map<FloatOpView, int>,
)
    requires
        extends(more, table),
        sum_of(args, n, table) is Ok,
    ensures
        sum_of(args, n, more) == sum_of(args, n, table),
    decreases n,
{
    if n > 0 {
        lemma_sum_stable(args, (n - 1) as nat, table, more);
    }
}

/// A product that does not want for an answer is the same with more answers.
proof fn lemma_product_stable(
    args: Seq<ExprView>,
    n: nat,
    table: Map<FloatOpView, int>,
    more: Map<FloatOpView, int>,
)
    requires
        extends(more, table),
        product_of(args, n, table) is Ok,
    ensures
        product_of(args, n, more) == product_of(args, n, table),
    decreases n,
{
    if n > 0 {
        lemma_product_stable(args, (n - 1) as nat, table, more);
    }
}

/// A call that does not want for an answer is the same with more answers.
pub proof fn lemma_invoke_stable(
    op: Operator,
    args: Seq<ExprView>,
    table: Map<FloatOpView, int>,
    more: Map<FloatOpView, int>,
)
    requires
        extends(more, table),
        invoke(op, args, table) is Ok,
    ensures
        invoke(op, args, more) == invoke(op, args, table),
{
    if errors(op, args).len() == 0 {
        match op {
            Operator::Sum => {
                lemma_sum_stable(args, args.len(), table, more);
            },
            Operator::Multiply => {
                lemma_product_stable(args, args.len(), table, more);
            },
            _ => {},
        }
    }
}

/// An expression that resolves without want of an answer resolves to the
/// same, and leaves the same cells, with more answers.
pub proof fn lemma_stable_expr(
    cells: Seq<Seq<ExprView>>,
    e: ExprView,
    origin: PositionView,
    ops: Map<Seq<char>, Operator>,
    table: Map<FloatOpView, int>,
    more: Map<FloatOpView, int>,
    fuel: nat,
)
    requires
        extends(more, table),
        resolve_expr(cells, e, origin, ops, table, fuel).1 is Ok,
    ensures
        resolve_expr(cells, e, origin, ops, more, fuel) == resolve_expr(
            cells,
            e,
            origin,
            ops,
            table,
            fuel,
        ),
    decreases fuel, e, 0nat,
{
    match e {
        ExprView::Ref(r) => {
            if r != origin {
                match cell_at(cells, r) {
                    None => {},
                    Some(target) => {
                        if !target.is_terminal() && fuel > 0 {
                            lemma_stable_expr(
                                put(cells, r, circular()),
                                target,
                                origin,
                                ops,
                                table,
                                more,
                                (fuel - 1) as nat,
                            );
                        }
                    },
                }
            }
        },
        ExprView::Form(info) => {
            lemma_stable_args(cells, info, info.args.len(), origin, ops, table, more, fuel);
            let done = resolve_args(cells, info, info.args.len(), origin, ops, table, fuel);
            if ops.contains_key(info.name) {
                lemma_invoke_stable(ops[info.name], done.1->Ok_0, table, more);
            }
        },
        _ => {},
    }
}

/// Arguments that resolve without want of an answer resolve to the same,
/// and leave the same cells, with more answers.
pub proof fn lemma_stable_args(
    cells: Seq<Seq<ExprView>>,
    info: OpInfoView,
    n: nat,
    origin: PositionView,
    ops: Map<Seq<char>, Operator>,
    table: Map<FloatOpView, int>,
    more: Map<FloatOpView, int>,
    fuel: nat,
)
    requires
        extends(more, table),
        n <= info.args.len(),
        resolve_args(cells, info, n, origin, ops, table, fuel).1 is Ok,
    ensures
        resolve_args(cells, info, n, origin, ops, more, fuel) == resolve_args(
            cells,
            info,
            n,
            origin,
            ops,
            table,
            fuel,
        ),
    decreases fuel, info, n,
{
    if n > 0 {
        lemma_stable_args(cells, info, (n - 1) as nat, origin, ops, table, more, fuel);
        let before = resolve_args(cells, info, (n - 1) as nat, origin, ops, table, fuel);
        lemma_stable_expr(before.0, info.args[n - 1], origin, ops, table, more, fuel);
    }
}

/// An expression that was resolved resolves to the same again, and changes
/// nothing, in any sheet that has kept the values and errors that resolving
/// it left.
pub proof fn lemma_replay_expr(
    cells: Seq<Seq<ExprView>>,
    e: ExprView,
    origin: PositionView,
    ops: Map<Seq<char>, Operator>,
    table: Map<FloatOpView, int>,
    more: Map<FloatOpView, int>,
    fuel: nat,
    later: Seq<Seq<ExprView>>,
    other: nat,
)
    requires
        extends(more, table),
        fuel >= open_cells(cells),
        resolve_expr(cells, e, origin, ops, table, fuel).1 is Ok,
        settles(resolve_expr(cells, e, origin, ops, table, fuel).0, later),
    ensures
        resolve_expr(later, e, origin, ops, more, other) == (
            later,
            resolve_expr(cells, e, origin, ops, table, fuel).1,
        ),
    decreases fuel, e, 0nat,
{
    match e {
        ExprView::Ref(r) => {
            if r != origin {
                match cell_at(cells, r) {
                    None => {},
                    Some(target) => {
                        if !target.is_terminal() {
                            lemma_open_cells_put(cells, r, circular());
                            let marked = put(cells, r, circular());
                            let inner = resolve_expr(
                                marked,
                                target,
                                origin,
                                ops,
                                table,
                                (fuel - 1) as nat,
                            );
                            lemma_resolve_expr_settles(
                                marked,
                                target,
                                origin,
                                ops,
                                table,
                                (fuel - 1) as nat,
                            );
                            let v = inner.1->Ok_0;
                            lemma_settles_through(cells, r, circular(), inner.0, v);
                            let out = put(inner.0, r, v);
                            assert(out[r.y][r.x] == v);
                        }
                    },
                }
            }
        },
        ExprView::Form(info) => {
            let done = resolve_args(cells, info, info.args.len(), origin, ops, table, fuel);
            lemma_replay_args(
                cells,
                info,
                info.args.len(),
                origin,
                ops,
                table,
                more,
                fuel,
                later,
                other,
            );
            if ops.contains_key(info.name) {
                lemma_invoke_stable(ops[info.name], done.1->Ok_0, table, more);
            }
        },
        _ => {},
    }
}

/// Arguments that were resolved resolve to the same again, and change
/// nothing, in any sheet that has kept the values and errors that resolving
/// them left.
pub proof fn lemma_replay_args(
    cells: Seq<Seq<ExprView>>,
    info: OpInfoView,
    n: nat,
    origin: PositionView,
    ops: Map<Seq<char>, Operator>,
    table: Map<FloatOpView, int>,
    more: Map<FloatOpView, int>,
    fuel: nat,
    later: Seq<Seq<ExprView>>,
    other: nat,
)
    requires
        extends(more, table),
        n <= info.args.len(),
        fuel >= open_cells(cells),
        resolve_args(cells, info, n, origin, ops, table, fuel).1 is Ok,
        settles(resolve_args(cells, info, n, origin, ops, table, fuel).0, later),
    ensures
        resolve_args(later, info, n, origin, ops, more, other) == (
            later,
            resolve_args(cells, info, n, origin, ops, table, fuel).1,
        ),
    decreases fuel, info, n,
{
    if n > 0 {
        let before = resolve_args(cells, info, (n - 1) as nat, origin, ops, table, fuel);
        let last = resolve_expr(before.0, info.args[n - 1], origin, ops, table, fuel);
        lemma_resolve_args_settles(cells, info, (n - 1) as nat, origin, ops, table, fuel);
        lemma_open_cells_settles(cells, before.0);
        lemma_resolve_expr_settles(before.0, info.args[n - 1], origin, ops, table, fuel);
        lemma_settles_trans(before.0, last.0, later);
        lemma_replay_args(
            cells,
            info,
            (n - 1) as nat,
            origin,
            ops,
            table,
            more,
            fuel,
            later,
            other,
        );
        lemma_replay_expr(
            before.0,
            info.args[n - 1],
            origin,
            ops,
            table,
            more,
            fuel,
            later,
            other,
        );
    }
}

/// Where resolving an expression stopped for want of an answer, resolving
/// it with more answers in the sheet that was left comes to what resolving
/// it with more answers in the sheet as it was comes to.
pub proof fn lemma_coherent_expr(
    cells: Seq<Seq<ExprView>>,
    e: ExprView,
    origin: PositionView,
    ops: Map<Seq<char>, Operator>,
    table: Map<FloatOpView, int>,
    more: Map<FloatOpView, int>,
    fuel: nat,
)
    requires
        extends(more, table),
        fuel >= open_cells(cells),
        resolve_expr(cells, e, origin, ops, table, fuel).1 is Err,
    ensures
        resolve_expr(
            resolve_expr(cells, e, origin, ops, table, fuel).0,
            e,
            origin,
            ops,
            more,
            fuel,
        ) == resolve_expr(cells, e, origin, ops, more, fuel),
    decreases fuel, e, 0nat,
{
    match e {
        ExprView::Ref(r) => {
            let target = cell_at(cells, r)->Some_0;
            lemma_open_cells_put(cells, r, circular());
            let marked = put(cells, r, circular());
            let inner = resolve_expr(marked, target, origin, ops, table, (fuel - 1) as nat);
            lemma_resolve_expr_settles(marked, target, origin, ops, table, (fuel - 1) as nat);
            lemma_settles_through(cells, r, circular(), inner.0, target);
            let left = put(inner.0, r, target);
            assert(put(left, r, circular()) =~~= inner.0);
            lemma_coherent_expr(marked, target, origin, ops, table, more, (fuel - 1) as nat);
        },
        ExprView::Form(info) => {
            let done = resolve_args(cells, info, info.args.len(), origin, ops, table, fuel);
            match done.1 {
                Err(_) => {
                    lemma_coherent_args(
                        cells,
                        info,
                        info.args.len(),
                        origin,
                        ops,
                        table,
                        more,
                        fuel,
                    );
                },
                Ok(_) => {
                    lemma_stable_args(
                        cells,
                        info,
                        info.args.len(),
                        origin,
                        ops,
                        table,
                        more,
                        fuel,
                    );
                    lemma_replay_args(
                        cells,
                        info,
                        info.args.len(),
                        origin,
                        ops,
                        table,
                        more,
                        fuel,
                        done.0,
                        fuel,
                    );
                },
            }
        },
        _ => {},
    }
}

/// Where resolving arguments stopped for want of an answer, resolving them
/// with more answers in the sheet that was left comes to what resolving
/// them with more answers in the sheet as it was comes to.
pub proof fn lemma_coherent_args(
    cells: Seq<Seq<ExprView>>,
    info: OpInfoView,
    n: nat,
    origin: PositionView,
    ops: Map<Seq<char>, Operator>,
    table: Map<FloatOpView, int>,
    more: Map<FloatOpView, int>,
    fuel: nat,
)
    requires
        extends(more, table),
        n <= info.args.len(),
        fuel >= open_cells(cells),
        resolve_args(cells, info, n, origin, ops, table, fuel).1 is Err,
    ensures
        resolve_args(
            resolve_args(cells, info, n, origin, ops, table, fuel).0,
            info,
            n,
            origin,
            ops,
            more,
            fuel,
        ) == resolve_args(cells, info, n, origin, ops, more, fuel),
    decreases fuel, info, n,
{
    if n > 0 {
        let before = resolve_args(cells, info, (n - 1) as nat, origin, ops, table, fuel);
        match before.1 {
            Err(_) => {
                lemma_coherent_args(cells, info, (n - 1) as nat, origin, ops, table, more, fuel);
            },
            Ok(_) => {
                let arg = info.args[n - 1];
                let last = resolve_expr(before.0, arg, origin, ops, table, fuel);
                lemma_resolve_args_settles(cells, info, (n - 1) as nat, origin, ops, table, fuel);
                lemma_open_cells_settles(cells, before.0);
                lemma_resolve_expr_settles(before.0, arg, origin, ops, table, fuel);
                lemma_stable_args(cells, info, (n - 1) as nat, origin, ops, table, more, fuel);
                lemma_replay_args(
                    cells,
                    info,
                    (n - 1) as nat,
                    origin,
                    ops,
                    table,
                    more,
                    fuel,
                    last.0,
                    fuel,
                );
                lemma_coherent_expr(before.0, arg, origin, ops, table, more, fuel);
            },
        }
    }
}

/// A cell that resolves without want of an answer resolves to the same, and
/// leaves the same cells, with more answers.
pub proof fn lemma_stable_cell(
    cells: Seq<Seq<ExprView>>,
    pos: PositionView,
    origin: PositionView,
    ops: Map<Seq<char>, Operator>,
    table: Map<FloatOpView, int>,
    more: Map<FloatOpView, int>,
)
    requires
        extends(more, table),
        resolve_cell(cells, pos, origin, ops, table).1 is Ok,
    ensures
        resolve_cell(cells, pos, origin, ops, more) == resolve_cell(cells, pos, origin, ops, table),
{
    match cell_at(cells, pos) {
        None => {},
        Some(e) => {
            if !e.is_terminal() {
                lemma_stable_expr(
                    put(cells, pos, circular()),
                    e,
                    origin,
                    ops,
                    table,
                    more,
                    (open_cells(cells) - 1) as nat,
                );
            }
        },
    }
}

/// Where resolving a cell stopped for want of an answer, resolving it with
/// more answers in the sheet that was left comes to what resolving it with
/// more answers in the sheet as it was comes to.
pub proof fn lemma_coherent_cell(
    cells: Seq<Seq<ExprView>>,
    pos: PositionView,
    origin: PositionView,
    ops: Map<Seq<char>, Operator>,
    table: Map<FloatOpView, int>,
    more: Map<FloatOpView, int>,
)
    requires
        extends(more, table),
        resolve_cell(cells, pos, origin, ops, table).1 is Err,
    ensures
        resolve_cell(resolve_cell(cells, pos, origin, ops, table).0, pos, origin, ops, more)
            == resolve_cell(cells, pos, origin, ops, more),
{
    let target = cell_at(cells, pos)->Some_0;
    let fuel = (open_cells(cells) - 1) as nat;
    lemma_open_cells_put(cells, pos, circular());
    let marked = put(cells, pos, circular());
    let inner = resolve_expr(marked, target, origin, ops, table, fuel);
    lemma_resolve_expr_settles(marked, target, origin, ops, table, fuel);
    lemma_settles_through(cells, pos, circular(), inner.0, target);
    let left = put(inner.0, pos, target);
    assert(put(left, pos, circular()) =~~= inner.0);
    lemma_open_cells_put(left, pos, circular());
    lemma_open_cells_settles(marked, inner.0);
    lemma_coherent_expr(marked, target, origin, ops, table, more, fuel);
    lemma_fuel_suffices(
        inner.0,
        target,
        origin,
        ops,
        more,
        fuel,
        (open_cells(left) - 1) as nat,
    );
}

/// What resolving rows comes to depends on the shape that is given, not on
/// the cells that give it.
proof fn lemma_rows_by_shape(
    base: Seq<Seq<ExprView>>,
    other: Seq<Seq<ExprView>>,
    cells: Seq<Seq<ExprView>>,
    y: int,
    x: int,
    ops: Map<Seq<char>, Operator>,
    table: Map<FloatOpView, int>,
)
    requires
        same_shape(base, other),
    ensures
        resolve_rows(base, cells, y, x, ops, table) == resolve_rows(other, cells, y, x, ops, table),
    decreases base.len() - y, base[y].len() - x,
{
    if y < 0 || y >= base.len() {
    } else if x < 0 || x >= base[y].len() {
        lemma_rows_by_shape(base, other, cells, y + 1, 0, ops, table);
    } else {
        let here = PositionView { x, y };
        let step = resolve_cell(cells, here, here, ops, table);
        if step.1 is Ok {
            lemma_rows_by_shape(base, other, step.0, y, x + 1, ops, table);
        }
    }
}

/// Where resolving the cells from one on stopped for want of an answer,
/// resolving them with more answers in the sheet that was left comes to
/// what resolving them with more answers in the sheet as it was comes to.
proof fn lemma_coherent_rows(
    base: Seq<Seq<ExprView>>,
    cells: Seq<Seq<ExprView>>,
    y: int,
    x: int,
    ops: Map<Seq<char>, Operator>,
    table: Map<FloatOpView, int>,
    more: Map<FloatOpView, int>,
)
    requires
        extends(more, table),
        settles(base, cells),
        0 <= y,
        0 <= x,
        resolve_rows(base, cells, y, x, ops, table).1 is Some,
    ensures
        resolve_rows(base, resolve_rows(base, cells, y, x, ops, table).0, y, x, ops, more)
            == resolve_rows(base, cells, y, x, ops, more),
    decreases base.len() - y, base[y].len() - x,
{
    if y >= base.len() {
    } else if x >= base[y].len() {
        lemma_coherent_rows(base, cells, y + 1, 0, ops, table, more);
    } else {
        let here = PositionView { x, y };
        let step = resolve_cell(cells, here, here, ops, table);
        lemma_resolve_cell_settles(cells, here, here, ops, table);
        match step.1 {
            Err(_) => {
                lemma_coherent_cell(cells, here, here, ops, table, more);
            },
            Ok(_) => {
                lemma_settles_trans(base, cells, step.0);
                lemma_resolve_rows_settles(base, step.0, y, x + 1, ops, table);
                lemma_stable_cell(cells, here, here, ops, table, more);
                lemma_coherent_rows(base, step.0, y, x + 1, ops, table, more);
            },
        }
    }
}

/// Where resolving a sheet stopped for want of an answer, resolving the
/// sheet that was left with more answers comes to what resolving the sheet
/// as it was with those answers comes to.
pub proof fn lemma_rounds_agree(
    cells: Seq<Seq<ExprView>>,
    ops: Map<Seq<char>, Operator>,
    table: Map<FloatOpView, int>,
    more: Map<FloatOpView, int>,
)
    requires
        extends(more, table),
        resolve_all(cells, ops, table).1 is Some,
    ensures
        resolve_all(resolve_all(cells, ops, table).0, ops, more) == resolve_all(cells, ops, more),
{
    let left = resolve_all(cells, ops, table).0;
    lemma_resolve_rows_settles(cells, cells, 0, 0, ops, table);
    lemma_coherent_rows(cells, cells, 0, 0, ops, table, more);
    lemma_rows_by_shape(left, cells, left, 0, 0, ops, more);
}

impl Sheet {
    /// Resolves the sheet in rounds: whenever the work stops for want of an
    /// answer, asks `unit` for it, records it in `floats` and goes on from
    /// where the work stopped, for at most `budget` answers.
    ///
    /// What comes back is what one round on the sheet as it was comes to
    /// with the table as it is afterwards. Work is still pending only where
    /// the budget was used up.
    pub fn resolve_in_rounds<F: Fn(&FloatOp) -> u64>(
        self,
        ops: &OpMap,
        floats: &mut FloatTable,
        unit: &F,
        budget: usize,
    ) -> (r: Resolution)
        requires
            forall|op: FloatOp| unit.requires((&op,)),
        ensures
            extends(final(floats)@, old(floats)@),
            r.sheet@.id == self@.id,
            r.sheet@.cells == resolve_all(self@.cells, ops@, final(floats)@).0,
            r.pending is None == resolve_all(self@.cells, ops@, final(floats)@).1 is None,
            r.pending matches Some(op) ==> resolve_all(self@.cells, ops@, final(floats)@).1
                == Some(op@) && final(floats).facts@.len() == old(floats).facts@.len() + budget,
            old(floats).facts@.len() <= final(floats).facts@.len() <= old(floats).facts@.len()
                + budget,
            forall|k: int|
                old(floats).facts@.len() <= k < final(floats).facts@.len() ==> unit.ensures(
                    (&(#[trigger] final(floats).facts@[k]).op,),
                    final(floats).facts@[k].answer,
                ),
    {
        let ghost start = self@.cells;
        let ghost first = floats.facts@;
        let mut sheet = self;
        let mut used: usize = 0;
        loop
            invariant
                forall|op: FloatOp| unit.requires((&op,)),
                used <= budget,
                first == old(floats).facts@,
                floats.facts@.len() == first.len() + used,
                extends(floats@, old(floats)@),
                sheet@.id == self@.id,
                start == self@.cells,
                forall|more: Map<FloatOpView, int>|
                    extends(more, floats@) ==> #[trigger] resolve_all(sheet@.cells, ops@, more)
                        == resolve_all(start, ops@, more),
                forall|k: int|
                    first.len() <= k < floats.facts@.len() ==> unit.ensures(
                        (&(#[trigger] floats.facts@[k]).op,),
                        floats.facts@[k].answer,
                    ),
            decreases budget - used,
        {
            let ghost before = sheet@.cells;
            let ghost table = floats@;
            let step = sheet.resolve_refs(ops, floats);
            match step.pending {
                None => {
                    return Resolution { sheet: step.sheet, pending: None };
                },
                Some(op) => {
                    if used == budget {
                        return Resolution { sheet: step.sheet, pending: Some(op) };
                    }
                    let answer = unit(&op);
                    proof {
                        lemma_insert_extends(table, op@, answer as int);
                        assert forall|more: Map<FloatOpView, int>|
                            extends(more, table.insert(op@, answer as int)) implies #[trigger] resolve_all(
                            step.sheet@.cells,
                            ops@,
                            more,
                        ) == resolve_all(start, ops@, more) by {
                            lemma_rounds_agree(before, ops@, table, more);
                        }
                    }
                    floats.insert(op, answer);
                    sheet = step.sheet;
                    used += 1;
                },
            }
        }
    }

    /// Reads a sheet of plain cells in rounds: whenever the work stops for
    /// want of the double of a decimal literal, asks `unit` for it, records
    /// it in `floats` and reads again, for at most `budget` answers.
    ///
    /// What comes back is what reading comes to with the table as it is
    /// afterwards. An answer is still wanted only where the budget was used up.
    pub fn from_raw_in_rounds<F: Fn(&FloatOp) -> u64>(
        raw: &RawSheet,
        floats: &mut FloatTable,
        unit: &F,
        budget: usize,
    ) -> (r: Result<Sheet, FloatOp>)
        requires
            forall|op: FloatOp| unit.requires((&op,)),
        ensures
            extends(final(floats)@, old(floats)@),
            r matches Ok(sheet) ==> sheet_of_raw(raw@, final(floats)@) == Ok::<
                SheetView,
                FloatOpView,
            >(sheet@),
            r matches Err(op) ==> sheet_of_raw(raw@, final(floats)@) == Err::<
                SheetView,
                FloatOpView,
            >(op@) && final(floats).facts@.len() == old(floats).facts@.len() + budget,
            old(floats).facts@.len() <= final(floats).facts@.len() <= old(floats).facts@.len()
                + budget,
            forall|k: int|
                old(floats).facts@.len() <= k < final(floats).facts@.len() ==> unit.ensures(
                    (&(#[trigger] final(floats).facts@[k]).op,),
                    final(floats).facts@[k].answer,
                ),
    {
        let ghost first = floats.facts@;
        let mut used: usize = 0;
        loop
            invariant
                forall|op: FloatOp| unit.requires((&op,)),
                used <= budget,
                first == old(floats).facts@,
                floats.facts@.len() == first.len() + used,
                extends(floats@, old(floats)@),
                forall|k: int|
                    first.len() <= k < floats.facts@.len() ==> unit.ensures(
                        (&(#[trigger] floats.facts@[k]).op,),
                        floats.facts@[k].answer,
                    ),
            decreases budget - used,
        {
            match Sheet::from_raw(raw, floats) {
                Ok(sheet) => {
                    return Ok(sheet);
                },
                Err(op) => {
                    if used == budget {
                        return Err(op);
                    }
                    let answer = unit(&op);
                    proof {
                        lemma_insert_extends(floats@, op@, answer as int);
                    }
                    floats.insert(op, answer);
                    used += 1;
                },
            }
        }
    }
}

} // verus!

//! Resolving a sheet: every formula computed and every reference followed,
//! until each cell is a value or an error.
//!
//! Cells are resolved in place, so that a cell is computed once however
//! often it is referred to. A cell holds the cycle error while it is being
//! resolved: a chain of references that comes back to it meets that error
//! and ends there.
//!
//! The work follows references and calls by recursion. It goes as deep as
//! the longest chain of unresolved cells that refer to one another, and in
//! each of them as deep as its calls nest.

use vstd::prelude::*;
use super::expr::{lemma_args_view, views, Expr, ExprView};
use super::grid::{
    cell_at, lemma_open_cells_put, lemma_open_cells_settles, lemma_settles_through,
    lemma_settles_trans, open_cells, put, resolved, settles,
};
use super::operators::{all_terminal, invoke, lemma_invoke_terminal, OpMap, Operator};
use super::theory::lemma_resolved_is_fixed;
use super::{CellError, CellErrorView, OpInfo, OpInfoView, Position, PositionView, Sheet};
use crate::types::float::{FloatOp, FloatOpView, FloatTable};

verus! {

/// The error of a cell that takes part in a cycle.
pub open spec fn circular() -> ExprView {
    ExprView::Error(CellErrorView::CircularRef)
}

/// What a reference to the cell at `at` comes to, where that cell came to
/// `inner`: its value; a cycle, if it is one; its error, marked as that of
/// the cell referred to, otherwise.
pub open spec fn follow(inner: ExprView, at: PositionView) -> ExprView {
    match inner {
        ExprView::Error(CellErrorView::CircularRef) => circular(),
        ExprView::Error(e) => ExprView::Error(CellErrorView::RefError(Box::new(e), at)),
        _ => inner,
    }
}

/// Resolves the expression `e` in `cells`: gives the cells afterwards and
/// what `e` comes to, or the operation on doubles for want of whose answer
/// the work stopped.
///
/// A value or an error is itself. A reference to `origin` is a cycle; one to
/// a place outside the sheet is an invalid reference; one to a resolved cell
/// follows it. A reference to a cell not yet resolved resolves that cell
/// first, and writes the result there. While a cell is being resolved it
/// holds the cycle error, so that whatever comes back to it meets a cycle.
/// A call resolves its arguments from the left and hands them to the
/// operator of its name.
///
/// Each cell entered takes one unit of `fuel`; as many units as there are
/// unresolved cells are never used up.
pub open spec fn resolve_expr(
    cells: Seq<Seq<ExprView>>,
    e: ExprView,
    origin: PositionView,
    ops: Map<Seq<char>, Operator>,
    table: Map<FloatOpView, int>,
    fuel: nat,
) -> (Seq<Seq<ExprView>>, Result<ExprView, FloatOpView>)
    decreases fuel, e, 0nat,
{
    match e {
        ExprView::Ref(r) => {
            if r == origin {
                (cells, Ok(circular()))
            } else {
                match cell_at(cells, r) {
                    None => (cells, Ok(ExprView::Error(CellErrorView::InvalidReference(r)))),
                    Some(target) => {
                        if target.is_terminal() {
                            (cells, Ok(follow(target, r)))
                        } else if fuel == 0 {
                            (cells, Ok(circular()))
                        } else {
                            let inner = resolve_expr(
                                put(cells, r, circular()),
                                target,
                                origin,
                                ops,
                                table,
                                (fuel - 1) as nat,
                            );
                            match inner.1 {
                                Ok(v) => (put(inner.0, r, v), Ok(follow(v, r))),
                                Err(op) => (put(inner.0, r, target), Err(op)),
                            }
                        }
                    },
                }
            }
        },
        ExprView::Form(info) => {
            let resolved = resolve_args(cells, info, info.args.len(), origin, ops, table, fuel);
            match resolved.1 {
                Err(op) => (resolved.0, Err(op)),
                Ok(args) => {
                    if ops.contains_key(info.name) {
                        (resolved.0, invoke(ops[info.name], args, table))
                    } else {
                        (
                            resolved.0,
                            Ok(ExprView::Error(CellErrorView::NoOpFound(info.name))),
                        )
                    }
                },
            }
        },
        _ => (cells, Ok(e)),
    }
}

/// Resolves the first `n` arguments of the call `info` from the left: gives
/// the cells afterwards and what the arguments come to.
pub open spec fn resolve_args(
    cells: Seq<Seq<ExprView>>,
    info: OpInfoView,
    n: nat,
    origin: PositionView,
    ops: Map<Seq<char>, Operator>,
    table: Map<FloatOpView, int>,
    fuel: nat,
) -> (Seq<Seq<ExprView>>, Result<Seq<ExprView>, FloatOpView>)
    decreases fuel, info, n,
{
    if n == 0 || n > info.args.len() {
        (cells, Ok(Seq::empty()))
    } else {
        let before = resolve_args(cells, info, (n - 1) as nat, origin, ops, table, fuel);
        match before.1 {
            Err(op) => (before.0, Err(op)),
            Ok(done) => {
                let last = resolve_expr(before.0, info.args[n - 1], origin, ops, table, fuel);
                match last.1 {
                    Err(op) => (last.0, Err(op)),
                    Ok(v) => (last.0, Ok(done.push(v))),
                }
            },
        }
    }
}

/// What resolving the cell at `pos` comes to: nothing where the sheet has no
/// such cell, and else the cells afterwards and what the cell holds.
pub open spec fn resolve_cell(
    cells: Seq<Seq<ExprView>>,
    pos: PositionView,
    origin: PositionView,
    ops: Map<Seq<char>, Operator>,
    table: Map<FloatOpView, int>,
) -> (Seq<Seq<ExprView>>, Result<Option<ExprView>, FloatOpView>) {
    match cell_at(cells, pos) {
        None => (cells, Ok(None)),
        Some(e) => {
            if e.is_terminal() {
                (cells, Ok(Some(e)))
            } else {
                let inner = resolve_expr(
                    put(cells, pos, circular()),
                    e,
                    origin,
                    ops,
                    table,
                    (open_cells(cells) - 1) as nat,
                );
                match inner.1 {
                    Ok(v) => (put(inner.0, pos, v), Ok(Some(v))),
                    Err(op) => (put(inner.0, pos, e), Err(op)),
                }
            }
        },
    }
}

/// Resolves the cells from column `x` of row `y` on, row by row and each row
/// from the left, each cell with itself as the origin. `base` gives the
/// shape. The second part of the result is the operation on doubles for want
/// of whose answer the work stopped, if it did.
pub open spec fn resolve_rows(
    base: Seq<Seq<ExprView>>,
    cells: Seq<Seq<ExprView>>,
    y: int,
    x: int,
    ops: Map<Seq<char>, Operator>,
    table: Map<FloatOpView, int>,
) -> (Seq<Seq<ExprView>>, Option<FloatOpView>)
    decreases base.len() - y, base[y].len() - x,
{
    if y < 0 || y >= base.len() {
        (cells, None)
    } else if x < 0 || x >= base[y].len() {
        resolve_rows(base, cells, y + 1, 0, ops, table)
    } else {
        let here = PositionView { x, y };
        let step = resolve_cell(cells, here, here, ops, table);
        match step.1 {
            Err(op) => (step.0, Some(op)),
            Ok(_) => resolve_rows(base, step.0, y, x + 1, ops, table),
        }
    }
}

/// Resolves every cell of a sheet.
pub open spec fn resolve_all(
    cells: Seq<Seq<ExprView>>,
    ops: Map<Seq<char>, Operator>,
    table: Map<FloatOpView, int>,
) -> (Seq<Seq<ExprView>>, Option<FloatOpView>) {
    resolve_rows(cells, cells, 0, 0, ops, table)
}

/// What [`Sheet::enter`] found at a position.
enum Entered {
    /// The sheet has no cell there.
    Missing,
    /// The cell is resolved: its content.
    Terminal(Expr),
    /// The cell was still to be resolved: its content. The cell itself now
    /// holds the cycle error.
    Open(Expr),
}

/// What a reference to the cell at `at` comes to, where that cell came to `inner`.
fn follow_expr(inner: Expr, at: Position) -> (r: Expr)
    ensures
        r@ == follow(inner@, at@),
{
    match inner {
        Expr::Error(CellError::CircularRef) => Expr::Error(CellError::CircularRef),
        Expr::Error(e) => Expr::Error(CellError::RefError(Box::new(e), at)),
        other => other,
    }
}

impl Sheet {
    /// Looks at the cell at `pos` and, where it is still to be resolved,
    /// marks it as under way.
    fn enter(&mut self, pos: Position) -> (r: Entered)
        ensures
            final(self)@.id == old(self)@.id,
            match cell_at(old(self)@.cells, pos@) {
                None => r is Missing && final(self)@.cells == old(self)@.cells,
                Some(e) => if e.is_terminal() {
                    &&& r matches Entered::Terminal(t)
                    &&& t@ == e
                    &&& final(self)@.cells == old(self)@.cells
                } else {
                    &&& r matches Entered::Open(t)
                    &&& t@ == e
                    &&& final(self)@.cells == put(old(self)@.cells, pos@, circular())
                },
            },
    {
        let content = match self.get(pos) {
            None => {
                return Entered::Missing;
            },
            Some(e) => e.clone(),
        };
        if content.is_terminal() {
            Entered::Terminal(content)
        } else {
            self.set_unchecked(pos, Expr::Error(CellError::CircularRef));
            Entered::Open(content)
        }
    }
}

/// Arguments that stopped for want of an answer stay stopped however many follow.
proof fn lemma_args_stuck(
    cells: Seq<Seq<ExprView>>,
    info: OpInfoView,
    n: nat,
    m: nat,
    origin: PositionView,
    ops: Map<Seq<char>, Operator>,
    table: Map<FloatOpView, int>,
    fuel: nat,
)
    requires
        n <= m <= info.args.len(),
        resolve_args(cells, info, n, origin, ops, table, fuel).1 is Err,
    ensures
        resolve_args(cells, info, m, origin, ops, table, fuel) == resolve_args(
            cells,
            info,
            n,
            origin,
            ops,
            table,
            fuel,
        ),
    decreases m,
{
    if n < m {
        lemma_args_stuck(cells, info, n, (m - 1) as nat, origin, ops, table, fuel);
    }
}

impl Sheet {
    /// Resolves the expression `e` in this sheet.
    fn resolve_expr(
        &mut self,
        e: &Expr,
        origin: Position,
        ops: &OpMap,
        floats: &FloatTable,
        Ghost(fuel): Ghost<nat>,
    ) -> (r: Result<Expr, FloatOp>)
        requires
            fuel >= open_cells(old(self)@.cells),
        ensures
            final(self)@.id == old(self)@.id,
            final(self)@.cells == resolve_expr(
                old(self)@.cells,
                e@,
                origin@,
                ops@,
                floats@,
                fuel,
            ).0,
            r matches Ok(v) ==> v@.is_terminal() && resolve_expr(
                old(self)@.cells,
                e@,
                origin@,
                ops@,
                floats@,
                fuel,
            ).1 == Ok::<ExprView, FloatOpView>(v@),
            r matches Err(op) ==> !floats@.contains_key(op@),
            r matches Err(op) ==> resolve_expr(
                old(self)@.cells,
                e@,
                origin@,
                ops@,
                floats@,
                fuel,
            ).1 == Err::<ExprView, FloatOpView>(op@),
            settles(old(self)@.cells, final(self)@.cells),
        decreases fuel, e,
    {
        match e {
            Expr::Ref(r) => {
                if *r == origin {
                    return Ok(Expr::Error(CellError::CircularRef));
                }
                match self.enter(*r) {
                    Entered::Missing => Ok(Expr::Error(CellError::InvalidReference(*r))),
                    Entered::Terminal(t) => Ok(follow_expr(t, *r)),
                    Entered::Open(target) => {
                        proof {
                            lemma_open_cells_put(old(self)@.cells, r@, circular());
                        }
                        match self.resolve_expr(
                            &target,
                            origin,
                            ops,
                            floats,
                            Ghost((fuel - 1) as nat),
                        ) {
                            Ok(v) => {
                                proof {
                                    lemma_settles_through(old(self)@.cells, r@, circular(),
                                        self@.cells,
                                        v@,
                                    );
                                }
                                let out = follow_expr(v.clone(), *r);
                                self.set_unchecked(*r, v);
                                Ok(out)
                            },
                            Err(op) => {
                                proof {
                                    lemma_settles_through(old(self)@.cells, r@, circular(),
                                        self@.cells,
                                        target@,
                                    );
                                }
                                self.set_unchecked(*r, target);
                                Err(op)
                            },
                        }
                    },
                }
            },
            Expr::Form(info) => {
                proof {
                    lemma_args_view(*info);
                }
                match info.resolve_with_sheet(self, origin, ops, floats, Ghost(fuel)) {
                    Err(op) => Err(op),
                    Ok(args) => match ops.get(&info.name) {
                        None => Ok(Expr::Error(CellError::NoOpFound(info.name.clone()))),
                        Some(op) => {
                            proof {
                                lemma_invoke_terminal(op, views(args@), floats@);
                            }
                            op.invoke(&args, floats)
                        },
                    },
                }
            },
            _ => Ok(e.clone()),
        }
    }
}

impl OpInfo {
    /// Resolves the arguments of this call in `sheet`, from the left.
    fn resolve_with_sheet(
        &self,
        sheet: &mut Sheet,
        origin: Position,
        ops: &OpMap,
        floats: &FloatTable,
        Ghost(fuel): Ghost<nat>,
    ) -> (r: Result<Vec<Expr>, FloatOp>)
        requires
            fuel >= open_cells(old(sheet)@.cells),
        ensures
            final(sheet)@.id == old(sheet)@.id,
            final(sheet)@.cells == resolve_args(
                old(sheet)@.cells,
                self@,
                self@.args.len(),
                origin@,
                ops@,
                floats@,
                fuel,
            ).0,
            r matches Ok(args) ==> all_terminal(views(args@)) && resolve_args(
                old(sheet)@.cells,
                self@,
                self@.args.len(),
                origin@,
                ops@,
                floats@,
                fuel,
            ).1 == Ok::<Seq<ExprView>, FloatOpView>(views(args@)),
            r matches Err(op) ==> !floats@.contains_key(op@),
            r matches Err(op) ==> resolve_args(
                old(sheet)@.cells,
                self@,
                self@.args.len(),
                origin@,
                ops@,
                floats@,
                fuel,
            ).1 == Err::<Seq<ExprView>, FloatOpView>(op@),
            settles(old(sheet)@.cells, final(sheet)@.cells),
        decreases fuel, self,
    {
        let ghost start = sheet@.cells;
        let mut out: Vec<Expr> = Vec::new();
        let mut i: usize = 0;
        proof {
            lemma_args_view(*self);
            assert(views(out@) =~= Seq::<ExprView>::empty());
        }
        while i < self.args.len()
            invariant
                i <= self.args.len(),
                self@.args == views(self.args@),
                fuel >= open_cells(start),
                settles(start, sheet@.cells),
                sheet@.id == old(sheet)@.id,
                start == old(sheet)@.cells,
                all_terminal(views(out@)),
                resolve_args(start, self@, i as nat, origin@, ops@, floats@, fuel) == (
                    sheet@.cells,
                    Ok::<Seq<ExprView>, FloatOpView>(views(out@)),
                ),
                forall|k: int|
                    0 <= k < self.args@.len() ==> decreases_to!(self => #[trigger] self.args@[k]),
            decreases self.args.len() - i,
        {
            let ghost now = sheet@.cells;
            proof {
                lemma_open_cells_settles(start, now);
            }
            match sheet.resolve_expr(&self.args[i], origin, ops, floats, Ghost(fuel)) {
                Err(op) => {
                    proof {
                        lemma_settles_trans(start, now, sheet@.cells);
                        lemma_args_stuck(
                            start,
                            self@,
                            (i + 1) as nat,
                            self@.args.len(),
                            origin@,
                            ops@,
                            floats@,
                            fuel,
                        );
                    }
                    return Err(op);
                },
                Ok(v) => {
                    proof {
                        lemma_settles_trans(start, now, sheet@.cells);
                        assert(views(out@.push(v)) =~= views(out@).push(v@));
                    }
                    out.push(v);
                },
            }
            i += 1;
        }
        Ok(out)
    }
}

/// How far resolving a sheet got.
#[derive(Debug, PartialEq, Eq)]
pub struct Resolution {
    /// The sheet, with every cell resolved that could be.
    pub sheet: Sheet,
    /// The operation on doubles for want of whose answer the work stopped.
    /// Where there is none, every cell is resolved.
    pub pending: Option<FloatOp>,
}

impl Sheet {
    /// Resolves the cell at `pos`, with `origin` as the cell at which the
    /// work began: gives what the cell then holds, or nothing where the
    /// sheet has no such cell.
    pub fn resolve_on_pos(
        &mut self,
        pos: Position,
        origin: Position,
        ops: &OpMap,
        floats: &FloatTable,
    ) -> (r: Result<Option<Expr>, FloatOp>)
        ensures
            final(self)@.id == old(self)@.id,
            final(self)@.cells == resolve_cell(old(self)@.cells, pos@, origin@, ops@, floats@).0,
            r matches Ok(Some(v)) ==> v@.is_terminal() && resolve_cell(
                old(self)@.cells,
                pos@,
                origin@,
                ops@,
                floats@,
            ).1 == Ok::<Option<ExprView>, FloatOpView>(Some(v@)) && cell_at(
                final(self)@.cells,
                pos@,
            ) == Some(v@),
            r matches Ok(None) ==> resolve_cell(
                old(self)@.cells,
                pos@,
                origin@,
                ops@,
                floats@,
            ).1 == Ok::<Option<ExprView>, FloatOpView>(None) && cell_at(old(self)@.cells, pos@)
                is None,
            r matches Err(op) ==> !floats@.contains_key(op@),
            r matches Err(op) ==> resolve_cell(
                old(self)@.cells,
                pos@,
                origin@,
                ops@,
                floats@,
            ).1 == Err::<Option<ExprView>, FloatOpView>(op@),
            settles(old(self)@.cells, final(self)@.cells),
    {
        match self.enter(pos) {
            Entered::Missing => Ok(None),
            Entered::Terminal(t) => Ok(Some(t)),
            Entered::Open(target) => {
                proof {
                    lemma_open_cells_put(old(self)@.cells, pos@, circular());
                }
                match self.resolve_expr(
                    &target,
                    origin,
                    ops,
                    floats,
                    Ghost((open_cells(old(self)@.cells) - 1) as nat),
                ) {
                    Ok(v) => {
                        proof {
                            lemma_settles_through(old(self)@.cells, pos@, circular(), self@.cells, v@);
                        }
                        self.set_unchecked(pos, v.clone());
                        Ok(Some(v))
                    },
                    Err(op) => {
                        proof {
                            lemma_settles_through(old(self)@.cells, pos@, circular(), self@.cells, target@);
                        }
                        self.set_unchecked(pos, target);
                        Err(op)
                    },
                }
            },
        }
    }

    /// Resolves every cell, row by row and each row from the left: every
    /// formula is computed and every reference followed, until each cell is
    /// a value or an error, or until the answer to an operation on doubles
    /// is wanted that `floats` lacks.
    pub fn resolve_refs(self, ops: &OpMap, floats: &FloatTable) -> (r: Resolution)
        ensures
            r.sheet@.id == self@.id,
            r.sheet@.cells == resolve_all(self@.cells, ops@, floats@).0,
            r.pending is None == resolve_all(self@.cells, ops@, floats@).1 is None,
            r.pending matches Some(op) ==> resolve_all(self@.cells, ops@, floats@).1 == Some(op@),
            r.pending matches Some(op) ==> !floats@.contains_key(op@),
            resolved(self@.cells) ==> r.sheet@ == self@ && r.pending is None,
            settles(self@.cells, r.sheet@.cells),
            r.pending is None ==> resolved(r.sheet@.cells),
    {
        let ghost base = self@.cells;
        proof {
            if resolved(base) {
                lemma_resolved_is_fixed(base, ops@, floats@);
            }
        }
        let mut sheet = self;
        let mut y: usize = 0;
        while y < sheet.cells.len()
            invariant
                sheet@.id == self@.id,
                base == self@.cells,
                resolved(base) ==> resolve_all(base, ops@, floats@) == (base, None::<FloatOpView>),
                settles(base, sheet@.cells),
                y <= base.len(),
                resolve_all(base, ops@, floats@) == resolve_rows(
                    base,
                    sheet@.cells,
                    y as int,
                    0,
                    ops@,
                    floats@,
                ),
                forall|yy: int, xx: int|
                    0 <= yy < y && 0 <= xx < sheet@.cells[yy].len() ==> (
                    #[trigger] sheet@.cells[yy][xx]).is_terminal(),
            decreases base.len() - y,
        {
            let mut x: usize = 0;
            while x < sheet.cells[y].len()
                invariant
                    sheet@.id == self@.id,
                    base == self@.cells,
                    resolved(base) ==> resolve_all(base, ops@, floats@) == (
                        base,
                        None::<FloatOpView>,
                    ),
                    settles(base, sheet@.cells),
                    y < base.len(),
                    x <= base[y as int].len(),
                    resolve_all(base, ops@, floats@) == resolve_rows(
                        base,
                        sheet@.cells,
                        y as int,
                        x as int,
                        ops@,
                        floats@,
                    ),
                    forall|yy: int, xx: int|
                        0 <= yy < y && 0 <= xx < sheet@.cells[yy].len() ==> (
                        #[trigger] sheet@.cells[yy][xx]).is_terminal(),
                    forall|xx: int|
                        0 <= xx < x ==> (#[trigger] sheet@.cells[y as int][xx]).is_terminal(),
                decreases base[y as int].len() - x,
            {
                let pos = Position { x, y };
                let ghost now = sheet@.cells;
                if !sheet.cells[y][x].is_terminal() {
                    match sheet.resolve_on_pos(pos, pos, ops, floats) {
                        Err(op) => {
                            proof {
                                lemma_settles_trans(base, now, sheet@.cells);
                            }
                            return Resolution { sheet, pending: Some(op) };
                        },
                        Ok(_) => {
                            proof {
                                lemma_settles_trans(base, now, sheet@.cells);
                                assert forall|yy: int, xx: int|
                                    0 <= yy < y && 0 <= xx < sheet@.cells[yy].len() implies (
                                #[trigger] sheet@.cells[yy][xx]).is_terminal() by {
                                    assert(now[yy][xx].is_terminal());
                                }
                                assert forall|xx: int| 0 <= xx < x + 1 implies (
                                #[trigger] sheet@.cells[y as int][xx]).is_terminal() by {
                                    if xx < x {
                                        assert(now[y as int][xx].is_terminal());
                                    }
                                }
                            }
                        },
                    }
                }
                x += 1;
            }
            y += 1;
        }
        Resolution { sheet, pending: None }
    }
}

} // verus!

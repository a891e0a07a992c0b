//! The operators that formulas call, and the registry that names them.
//!
//! An operator gets its arguments resolved: each is a value or an error. It
//! first gathers what is wrong with them: the arguments that are errors, then
//! a wrong number of arguments, then the values of the wrong kind. If
//! anything is wrong the call ends in one [`CellError::FormError`] that lists
//! it all. Otherwise the operator computes its result, which for `DIVIDE`,
//! `GT` and `EQ` may itself be the error of a formula: a division by zero,
//! or two values of different kinds.

use std::ops::RangeInclusive;
use vstd::prelude::*;
use vstd::string::StringExecFns;
use super::expr::{views, Expr, ExprView};
use super::{error_views, lemma_form_error_view, CellError, CellErrorView};
use crate::types::box_value::BoxValue;
use crate::types::float::{FloatOp, FloatOpView, FloatTable, Order};
use crate::types::num::{Num, NumView};
use crate::types::value::{Kind, Scalar, ScalarView};

verus! {

/// The built-in operators.
#[derive(Clone, Copy, Debug, PartialEq, Eq, Structural)]
pub enum Operator {
    /// `SUM`: the sum of one or more numbers.
    Sum,
    /// `MULTIPLY`: the product of one or more numbers.
    Multiply,
    /// `DIVIDE`: the quotient of two numbers.
    Divide,
    /// `GT`: whether the first of two values of one kind is the greater.
    Greater,
    /// `EQ`: whether two values of one kind are equal.
    Equal,
    /// `NOT`: the negation of a boolean.
    Not,
    /// `AND`: the conjunction of one or more booleans.
    And,
    /// `OR`: the disjunction of one or more booleans.
    Or,
    /// `IF`: the second or the third argument, which are of one kind, as the
    /// first is true or false.
    If,
    /// `CONCAT`: the texts, any number of them, joined in order.
    Concat,
}

/// The name by which errors call a kind.
pub open spec fn kind_name(kind: Kind) -> Seq<char> {
    match kind {
        Kind::Number => "Num"@,
        Kind::Boolean => "Boolean"@,
        Kind::Text => "String"@,
    }
}

impl Operator {
    /// The least number of arguments taken.
    pub open spec fn least(self) -> int {
        match self {
            Operator::Sum | Operator::Multiply | Operator::And | Operator::Or => 1,
            Operator::Divide | Operator::Greater | Operator::Equal => 2,
            Operator::Not => 1,
            Operator::If => 3,
            Operator::Concat => 0,
        }
    }

    /// The greatest number of arguments taken; for an operator without a
    /// limit, the greatest length there is.
    pub open spec fn most(self) -> int {
        match self {
            Operator::Sum | Operator::Multiply | Operator::And | Operator::Or | Operator::Concat => usize::MAX as int,
            Operator::Divide | Operator::Greater | Operator::Equal => 2,
            Operator::Not => 1,
            Operator::If => 3,
        }
    }

    /// The kind that the argument after the arguments `before` must have,
    /// if one is declared. The third argument of `IF` must be of the kind of
    /// the second, where that is a value.
    pub open spec fn expects(self, before: Seq<ExprView>) -> Option<Kind> {
        match self {
            Operator::Sum | Operator::Multiply => Some(Kind::Number),
            Operator::Divide => if before.len() < 2 {
                Some(Kind::Number)
            } else {
                None
            },
            Operator::Greater | Operator::Equal => None,
            Operator::Not => if before.len() < 1 {
                Some(Kind::Boolean)
            } else {
                None
            },
            Operator::And | Operator::Or => Some(Kind::Boolean),
            Operator::If => if before.len() < 1 {
                Some(Kind::Boolean)
            } else if before.len() == 2 && before[1] is Value {
                Some(before[1]->Value_0.kind())
            } else {
                None
            },
            Operator::Concat => Some(Kind::Text),
        }
    }
}

/// The arguments that are errors, each under its index, in order.
pub open spec fn arg_errors(args: Seq<ExprView>) -> Seq<CellErrorView>
    decreases args.len(),
{
    if args.len() == 0 {
        Seq::empty()
    } else {
        match args.last() {
            ExprView::Error(e) => arg_errors(args.drop_last()).push(
                CellErrorView::ArgError(args.len() - 1, Box::new(e)),
            ),
            _ => arg_errors(args.drop_last()),
        }
    }
}

/// The error for `count` arguments, if the operator does not take as many.
pub open spec fn count_errors(op: Operator, count: int) -> Seq<CellErrorView> {
    if op.least() <= count <= op.most() {
        Seq::empty()
    } else {
        seq![CellErrorView::InvalidArgCount(op.least(), op.most(), count)]
    }
}

/// Whether the argument `arg` after the arguments `before` is a value of
/// another kind than the operator declares for that place.
pub open spec fn mismatch(op: Operator, before: Seq<ExprView>, arg: ExprView) -> bool {
    arg matches ExprView::Value(v) && op.expects(before) matches Some(kind) && v.kind() != kind
}

/// The values of the wrong kind, each as a mismatch under its index, in order.
pub open spec fn type_errors(op: Operator, args: Seq<ExprView>) -> Seq<CellErrorView>
    decreases args.len(),
{
    if args.len() == 0 {
        Seq::empty()
    } else if mismatch(op, args.drop_last(), args.last()) {
        type_errors(op, args.drop_last()).push(
            CellErrorView::ArgError(
                args.len() - 1,
                Box::new(CellErrorView::TypeMismatch(kind_name(op.expects(args.drop_last())->0))),
            ),
        )
    } else {
        type_errors(op, args.drop_last())
    }
}

/// All that is wrong with the arguments of a call.
pub open spec fn errors(op: Operator, args: Seq<ExprView>) -> Seq<CellErrorView> {
    arg_errors(args) + count_errors(op, args.len() as int) + type_errors(op, args)
}

/// The number that an argument is, where it is one.
pub open spec fn number_of(arg: ExprView) -> NumView {
    arg->Value_0->Num_0
}

/// The boolean that an argument is, where it is one.
pub open spec fn boolean_of(arg: ExprView) -> bool {
    arg->Value_0->Bool_0
}

/// The text that an argument is, where it is one.
pub open spec fn text_of(arg: ExprView) -> Seq<char> {
    arg->Value_0->Str_0
}

/// The sum of the first `n` arguments, added from the left to the integer 0.
pub open spec fn sum_of(args: Seq<ExprView>, n: nat, table: Map<FloatOpView, int>) -> Result<
    NumView,
    FloatOpView,
>
    decreases n,
{
    if n == 0 {
        Ok(NumView::I(0))
    } else {
        match sum_of(args, (n - 1) as nat, table) {
            Err(op) => Err(op),
            Ok(acc) => acc.sum(number_of(args[n - 1]), table),
        }
    }
}

/// The product of the first `n` arguments, multiplied from the left onto the
/// integer 1.
pub open spec fn product_of(args: Seq<ExprView>, n: nat, table: Map<FloatOpView, int>) -> Result<
    NumView,
    FloatOpView,
>
    decreases n,
{
    if n == 0 {
        Ok(NumView::I(1))
    } else {
        match product_of(args, (n - 1) as nat, table) {
            Err(op) => Err(op),
            Ok(acc) => acc.product(number_of(args[n - 1]), table),
        }
    }
}

/// Whether the first `n` arguments are all true.
pub open spec fn all_of(args: Seq<ExprView>, n: nat) -> bool
    decreases n,
{
    if n == 0 {
        true
    } else {
        all_of(args, (n - 1) as nat) && boolean_of(args[n - 1])
    }
}

/// Whether one of the first `n` arguments is true.
pub open spec fn any_of(args: Seq<ExprView>, n: nat) -> bool
    decreases n,
{
    if n == 0 {
        false
    } else {
        any_of(args, (n - 1) as nat) || boolean_of(args[n - 1])
    }
}

/// The first `n` arguments joined in order.
pub open spec fn concat_of(args: Seq<ExprView>, n: nat) -> Seq<char>
    decreases n,
{
    if n == 0 {
        Seq::empty()
    } else {
        concat_of(args, (n - 1) as nat) + text_of(args[n - 1])
    }
}

/// The error of a call whose only fault is `e`.
pub open spec fn fault(e: CellErrorView) -> ExprView {
    ExprView::Error(CellErrorView::FormError(seq![e]))
}

/// A number as an expression.
pub open spec fn number(n: NumView) -> ExprView {
    ExprView::Value(ScalarView::Num(n))
}

/// A boolean as an expression.
pub open spec fn boolean(b: bool) -> ExprView {
    ExprView::Value(ScalarView::Bool(b))
}

/// What the operator computes from arguments with which nothing is wrong.
pub open spec fn compute(op: Operator, args: Seq<ExprView>, table: Map<FloatOpView, int>) -> Result<
    ExprView,
    FloatOpView,
> {
    match op {
        Operator::Sum => match sum_of(args, args.len(), table) {
            Ok(n) => Ok(number(n)),
            Err(op) => Err(op),
        },
        Operator::Multiply => match product_of(args, args.len(), table) {
            Ok(n) => Ok(number(n)),
            Err(op) => Err(op),
        },
        Operator::Divide => match number_of(args[1]).equals(NumView::I(0), table) {
            Err(op) => Err(op),
            Ok(true) => Ok(fault(CellErrorView::DivByZero)),
            Ok(false) => match number_of(args[0]).quotient(number_of(args[1]), table) {
                Ok(n) => Ok(number(n)),
                Err(op) => Err(op),
            },
        },
        Operator::Greater => if args[0]->Value_0.kind() != args[1]->Value_0.kind() {
            Ok(fault(CellErrorView::BinaryTypeMismatch))
        } else {
            match args[0]->Value_0.order(args[1]->Value_0, table) {
                Ok(order) => Ok(boolean(order == Order::Greater)),
                Err(op) => Err(op),
            }
        },
        Operator::Equal => if args[0]->Value_0.kind() != args[1]->Value_0.kind() {
            Ok(fault(CellErrorView::BinaryTypeMismatch))
        } else {
            match args[0]->Value_0.equals(args[1]->Value_0, table) {
                Ok(same) => Ok(boolean(same)),
                Err(op) => Err(op),
            }
        },
        Operator::Not => Ok(boolean(!boolean_of(args[0]))),
        Operator::And => Ok(boolean(all_of(args, args.len()))),
        Operator::Or => Ok(boolean(any_of(args, args.len()))),
        Operator::If => if boolean_of(args[0]) {
            Ok(args[1])
        } else {
            Ok(args[2])
        },
        Operator::Concat => Ok(ExprView::Value(ScalarView::Str(concat_of(args, args.len())))),
    }
}

/// What a call of the operator comes to: the list of what is wrong with the
/// arguments, if anything is, and else what the operator computes.
pub open spec fn invoke(op: Operator, args: Seq<ExprView>, table: Map<FloatOpView, int>) -> Result<
    ExprView,
    FloatOpView,
> {
    if errors(op, args).len() > 0 {
        Ok(ExprView::Error(CellErrorView::FormError(errors(op, args))))
    } else {
        compute(op, args, table)
    }
}

/// Whether every expression of a list is a value or an error.
pub open spec fn all_terminal(args: Seq<ExprView>) -> bool {
    forall|i: int| 0 <= i < args.len() ==> (#[trigger] args[i]).is_terminal()
}

/// Whether nothing is wrong with the arguments: they are as many as the
/// operator takes, and each is a value of the kind declared for its place.
pub open spec fn sound(op: Operator, args: Seq<ExprView>) -> bool {
    &&& op.least() <= args.len() <= op.most()
    &&& forall|i: int|
        0 <= i < args.len() ==> (#[trigger] args[i]) is Value && (op.expects(args.take(i))
            matches Some(kind) ==> args[i]->Value_0.kind() == kind)
}

/// Resolved arguments without an error among them are all values, and
/// without a mismatch each is of the kind declared for its place.
proof fn lemma_values(op: Operator, args: Seq<ExprView>, i: int)
    requires
        all_terminal(args),
        arg_errors(args).len() == 0,
        type_errors(op, args).len() == 0,
        0 <= i < args.len(),
    ensures
        args[i] is Value,
        op.expects(args.take(i)) matches Some(kind) ==> args[i]->Value_0.kind() == kind,
    decreases args.len(),
{
    assert(args.last().is_terminal());
    if i < args.len() - 1 {
        assert forall|k: int| 0 <= k < args.drop_last().len() implies (
        #[trigger] args.drop_last()[k]).is_terminal() by {
            assert(args[k].is_terminal());
        }
        lemma_values(op, args.drop_last(), i);
        assert(args.drop_last().take(i) =~= args.take(i));
    } else {
        assert(args.take(i) =~= args.drop_last());
    }
}

/// Resolved arguments with which nothing is found wrong are sound.
pub proof fn lemma_no_errors_sound(op: Operator, args: Seq<ExprView>)
    requires
        all_terminal(args),
        errors(op, args).len() == 0,
    ensures
        sound(op, args),
{
    assert forall|i: int| 0 <= i < args.len() implies (#[trigger] args[i]) is Value && (op.expects(
        args.take(i),
    ) matches Some(kind) ==> args[i]->Value_0.kind() == kind) by {
        lemma_values(op, args, i);
    }
}

/// A call on resolved arguments comes to a value or an error.
pub proof fn lemma_invoke_terminal(op: Operator, args: Seq<ExprView>, table: Map<FloatOpView, int>)
    requires
        all_terminal(args),
    ensures
        invoke(op, args, table) matches Ok(e) ==> e.is_terminal(),
{
    if errors(op, args).len() == 0 {
        lemma_no_errors_sound(op, args);
    }
}

impl Operator {
    /// The least and the greatest number of arguments taken.
    pub fn arity(self) -> (r: (usize, usize))
        ensures
            r.0 == self.least(),
            r.1 == self.most(),
    {
        match self {
            Operator::Sum | Operator::Multiply | Operator::And | Operator::Or => (1, usize::MAX),
            Operator::Divide | Operator::Greater | Operator::Equal => (2, 2),
            Operator::Not => (1, 1),
            Operator::If => (3, 3),
            Operator::Concat => (0, usize::MAX),
        }
    }

    /// The kind that the argument at `index` must have, if one is declared.
    pub fn expected(self, args: &Vec<Expr>, index: usize) -> (r: Option<Kind>)
        requires
            index <= args@.len(),
        ensures
            r == self.expects(views(args@).take(index as int)),
    {
        match self {
            Operator::Sum | Operator::Multiply => Some(Kind::Number),
            Operator::Divide => if index < 2 {
                Some(Kind::Number)
            } else {
                None
            },
            Operator::Greater | Operator::Equal => None,
            Operator::Not => if index < 1 {
                Some(Kind::Boolean)
            } else {
                None
            },
            Operator::And | Operator::Or => Some(Kind::Boolean),
            Operator::If => if index < 1 {
                Some(Kind::Boolean)
            } else if index == 2 {
                assert(views(args@).take(2)[1] == args@[1]@);
                match &args[1] {
                    Expr::Value(v) => Some(v.get().kind()),
                    _ => None,
                }
            } else {
                None
            },
            Operator::Concat => Some(Kind::Text),
        }
    }
}

/// The name by which errors call a kind.
pub fn kind_text(kind: Kind) -> (r: &'static str)
    ensures
        r@ == kind_name(kind),
{
    match kind {
        Kind::Number => "Num",
        Kind::Boolean => "Boolean",
        Kind::Text => "String",
    }
}

/// Gathers the arguments that are errors, each under its index.
pub fn collect_arg_errors(args: &Vec<Expr>) -> (errs: Vec<CellError>)
    ensures
        error_views(errs@) == arg_errors(views(args@)),
{
    let mut errs: Vec<CellError> = Vec::new();
    let mut i: usize = 0;
    while i < args.len()
        invariant
            i <= args.len(),
            error_views(errs@) == arg_errors(views(args@).take(i as int)),
        decreases args.len() - i,
    {
        proof {
            assert(views(args@).take(i + 1).drop_last() =~= views(args@).take(i as int));
        }
        if let Expr::Error(e) = &args[i] {
            errs.push(CellError::ArgError(i, Box::new(e.clone())));
        }
        i += 1;
    }
    proof {
        assert(views(args@).take(args@.len() as int) =~= views(args@));
    }
    errs
}

/// The error for `count` arguments, if the operator does not take as many.
pub fn count_error(op: Operator, count: usize) -> (errs: Vec<CellError>)
    ensures
        error_views(errs@) == count_errors(op, count as int),
{
    let (lo, hi) = op.arity();
    let mut errs: Vec<CellError> = Vec::new();
    if count < lo || count > hi {
        errs.push(CellError::InvalidArgCount(RangeInclusive::new(lo, hi), count));
    }
    errs
}

/// Finds the arguments that are values of the wrong kind.
pub fn find_type_errors(op: Operator, args: &Vec<Expr>) -> (errs: Vec<CellError>)
    ensures
        error_views(errs@) == type_errors(op, views(args@)),
{
    let mut errs: Vec<CellError> = Vec::new();
    let mut i: usize = 0;
    while i < args.len()
        invariant
            i <= args.len(),
            error_views(errs@) == type_errors(op, views(args@).take(i as int)),
        decreases args.len() - i,
    {
        proof {
            assert(views(args@).take(i + 1).drop_last() =~= views(args@).take(i as int));
        }
        if let Expr::Value(v) = &args[i] {
            if let Some(kind) = op.expected(args, i) {
                if v.get().kind() != kind {
                    let wrong = CellError::TypeMismatch(kind_text(kind));
                    assert(wrong@ == CellErrorView::TypeMismatch(kind_name(kind)));
                    errs.push(CellError::ArgError(i, Box::new(wrong)));
                }
            }
        }
        i += 1;
    }
    proof {
        assert(views(args@).take(args@.len() as int) =~= views(args@));
    }
    errs
}

/// Gathers all that is wrong with the arguments of a call.
pub fn errors_of(op: Operator, args: &Vec<Expr>) -> (errs: Vec<CellError>)
    ensures
        error_views(errs@) == errors(op, views(args@)),
{
    let mut errs = collect_arg_errors(args);
    let mut count = count_error(op, args.len());
    let mut kinds = find_type_errors(op, args);
    errs.append(&mut count);
    errs.append(&mut kinds);
    errs
}

/// A sum that stopped for want of an answer stays stopped however many
/// arguments follow.
proof fn lemma_sum_stuck(args: Seq<ExprView>, n: nat, m: nat, table: Map<FloatOpView, int>)
    requires
        n <= m,
        sum_of(args, n, table) is Err,
    ensures
        sum_of(args, m, table) == sum_of(args, n, table),
    decreases m,
{
    if n < m {
        lemma_sum_stuck(args, n, (m - 1) as nat, table);
    }
}

/// A product that stopped for want of an answer stays stopped however many
/// arguments follow.
proof fn lemma_product_stuck(args: Seq<ExprView>, n: nat, m: nat, table: Map<FloatOpView, int>)
    requires
        n <= m,
        product_of(args, n, table) is Err,
    ensures
        product_of(args, m, table) == product_of(args, n, table),
    decreases m,
{
    if n < m {
        lemma_product_stuck(args, n, (m - 1) as nat, table);
    }
}

/// The error of a call whose only fault is `e`.
fn fault_of(e: CellError) -> (r: Expr)
    ensures
        r@ == fault(e@),
{
    let mut list: Vec<CellError> = Vec::new();
    list.push(e);
    let error = CellError::FormError(list);
    proof {
        lemma_form_error_view(error);
        assert(error_views(list@) =~= seq![e@]);
    }
    Expr::Error(error)
}

fn sum_all(args: &Vec<Expr>, floats: &FloatTable) -> (r: Result<Num, FloatOp>)
    requires
        sound(Operator::Sum, views(args@)),
    ensures
        r matches Ok(n) ==> sum_of(views(args@), args@.len(), floats@) == Ok::<
            NumView,
            FloatOpView,
        >(n@),
        r matches Err(op) ==> !floats@.contains_key(op@),
        r matches Err(op) ==> sum_of(views(args@), args@.len(), floats@) == Err::<
            NumView,
            FloatOpView,
        >(op@),
{
    let mut acc = Num::I(0);
    let mut i: usize = 0;
    while i < args.len()
        invariant
            i <= args.len(),
            sound(Operator::Sum, views(args@)),
            sum_of(views(args@), i as nat, floats@) == Ok::<NumView, FloatOpView>(acc@),
        decreases args.len() - i,
    {
        assert(views(args@)[i as int] == args@[i as int]@);
        let n: &Num = args[i].unwrap_downcast_ref::<Num>();
        match acc.sum(*n, floats) {
            Ok(next) => {
                acc = next;
            },
            Err(op) => {
                proof {
                    lemma_sum_stuck(views(args@), (i + 1) as nat, args@.len(), floats@);
                }
                return Err(op);
            },
        }
        i += 1;
    }
    Ok(acc)
}

fn product_all(args: &Vec<Expr>, floats: &FloatTable) -> (r: Result<Num, FloatOp>)
    requires
        sound(Operator::Multiply, views(args@)),
    ensures
        r matches Ok(n) ==> product_of(views(args@), args@.len(), floats@) == Ok::<
            NumView,
            FloatOpView,
        >(n@),
        r matches Err(op) ==> !floats@.contains_key(op@),
        r matches Err(op) ==> product_of(views(args@), args@.len(), floats@) == Err::<
            NumView,
            FloatOpView,
        >(op@),
{
    let mut acc = Num::I(1);
    let mut i: usize = 0;
    while i < args.len()
        invariant
            i <= args.len(),
            sound(Operator::Multiply, views(args@)),
            product_of(views(args@), i as nat, floats@) == Ok::<NumView, FloatOpView>(acc@),
        decreases args.len() - i,
    {
        assert(views(args@)[i as int] == args@[i as int]@);
        let n: &Num = args[i].unwrap_downcast_ref::<Num>();
        match acc.product(*n, floats) {
            Ok(next) => {
                acc = next;
            },
            Err(op) => {
                proof {
                    lemma_product_stuck(views(args@), (i + 1) as nat, args@.len(), floats@);
                }
                return Err(op);
            },
        }
        i += 1;
    }
    Ok(acc)
}

fn all_true(args: &Vec<Expr>) -> (r: bool)
    requires
        sound(Operator::And, views(args@)),
    ensures
        r == all_of(views(args@), args@.len()),
{
    let mut acc = true;
    let mut i: usize = 0;
    while i < args.len()
        invariant
            i <= args.len(),
            sound(Operator::And, views(args@)),
            acc == all_of(views(args@), i as nat),
        decreases args.len() - i,
    {
        assert(views(args@)[i as int] == args@[i as int]@);
        let b: &bool = args[i].unwrap_downcast_ref::<bool>();
        acc = acc && *b;
        i += 1;
    }
    acc
}

fn any_true(args: &Vec<Expr>) -> (r: bool)
    requires
        sound(Operator::Or, views(args@)),
    ensures
        r == any_of(views(args@), args@.len()),
{
    let mut acc = false;
    let mut i: usize = 0;
    while i < args.len()
        invariant
            i <= args.len(),
            sound(Operator::Or, views(args@)),
            acc == any_of(views(args@), i as nat),
        decreases args.len() - i,
    {
        assert(views(args@)[i as int] == args@[i as int]@);
        let b: &bool = args[i].unwrap_downcast_ref::<bool>();
        acc = acc || *b;
        i += 1;
    }
    acc
}

fn join_texts(args: &Vec<Expr>) -> (r: String)
    requires
        sound(Operator::Concat, views(args@)),
    ensures
        r@ == concat_of(views(args@), args@.len()),
{
    let mut acc = String::new();
    let mut i: usize = 0;
    while i < args.len()
        invariant
            i <= args.len(),
            sound(Operator::Concat, views(args@)),
            acc@ == concat_of(views(args@), i as nat),
        decreases args.len() - i,
    {
        assert(views(args@)[i as int] == args@[i as int]@);
        let s: &String = args[i].unwrap_downcast_ref::<String>();
        acc.append(s.as_str());
        i += 1;
    }
    acc
}

fn number_expr(n: Num) -> (r: Expr)
    ensures
        r@ == number(n@),
{
    Expr::Value(BoxValue::new(Scalar::Num(n)))
}

fn boolean_expr(b: bool) -> (r: Expr)
    ensures
        r@ == boolean(b),
{
    Expr::Value(BoxValue::new(Scalar::Bool(b)))
}

impl Operator {
    /// Computes the result from arguments with which nothing is wrong.
    fn apply(self, args: &Vec<Expr>, floats: &FloatTable) -> (r: Result<Expr, FloatOp>)
        requires
            sound(self, views(args@)),
        ensures
            r matches Ok(e) ==> compute(self, views(args@), floats@) == Ok::<
                ExprView,
                FloatOpView,
            >(e@),
            r matches Err(op) ==> !floats@.contains_key(op@),
            r matches Err(op) ==> compute(self, views(args@), floats@) == Err::<
                ExprView,
                FloatOpView,
            >(op@),
    {
        match self {
            Operator::Sum => match sum_all(args, floats) {
                Ok(n) => Ok(number_expr(n)),
                Err(op) => Err(op),
            },
            Operator::Multiply => match product_all(args, floats) {
                Ok(n) => Ok(number_expr(n)),
                Err(op) => Err(op),
            },
            Operator::Divide => {
                let l: Num = *args[0].unwrap_downcast_ref::<Num>();
                let r: Num = *args[1].unwrap_downcast_ref::<Num>();
                match r.equals(Num::I(0), floats) {
                    Err(op) => Err(op),
                    Ok(true) => Ok(fault_of(CellError::DivByZero)),
                    Ok(false) => match l.quotient(r, floats) {
                        Ok(n) => Ok(number_expr(n)),
                        Err(op) => Err(op),
                    },
                }
            },
            Operator::Greater => {
                let a = args[0].unwrap_value_ref().get();
                let b = args[1].unwrap_value_ref().get();
                if a.kind() != b.kind() {
                    Ok(fault_of(CellError::BinaryTypeMismatch))
                } else {
                    match a.order(b, floats) {
                        Ok(order) => Ok(boolean_expr(order == Order::Greater)),
                        Err(op) => Err(op),
                    }
                }
            },
            Operator::Equal => {
                let a = args[0].unwrap_value_ref().get();
                let b = args[1].unwrap_value_ref().get();
                if a.kind() != b.kind() {
                    Ok(fault_of(CellError::BinaryTypeMismatch))
                } else {
                    match a.equals(b, floats) {
                        Ok(same) => Ok(boolean_expr(same)),
                        Err(op) => Err(op),
                    }
                }
            },
            Operator::Not => {
                let b: &bool = args[0].unwrap_downcast_ref::<bool>();
                Ok(boolean_expr(!*b))
            },
            Operator::And => Ok(boolean_expr(all_true(args))),
            Operator::Or => Ok(boolean_expr(any_true(args))),
            Operator::If => {
                let cond: &bool = args[0].unwrap_downcast_ref::<bool>();
                if *cond {
                    Ok(args[1].clone())
                } else {
                    Ok(args[2].clone())
                }
            },
            Operator::Concat => Ok(Expr::Value(BoxValue::new(Scalar::Str(join_texts(args))))),
        }
    }

    /// Calls the operator on resolved arguments.
    pub fn invoke(self, args: &Vec<Expr>, floats: &FloatTable) -> (r: Result<Expr, FloatOp>)
        requires
            all_terminal(views(args@)),
        ensures
            r matches Ok(e) ==> invoke(self, views(args@), floats@) == Ok::<ExprView, FloatOpView>(
                e@,
            ),
            r matches Err(op) ==> !floats@.contains_key(op@),
            r matches Err(op) ==> invoke(self, views(args@), floats@) == Err::<
                ExprView,
                FloatOpView,
            >(op@),
    {
        let errs = errors_of(self, args);
        if errs.len() > 0 {
            let error = CellError::FormError(errs);
            proof {
                lemma_form_error_view(error);
            }
            return Ok(Expr::Error(error));
        }
        proof {
            lemma_no_errors_sound(self, views(args@));
        }
        self.apply(args, floats)
    }
}

/// An operator under a name.
#[derive(Debug, PartialEq, Eq)]
pub struct OpEntry {
    pub name: String,
    pub op: Operator,
}

/// The registry: operators by name. Where a name was registered more than
/// once, the latest operator counts.
#[derive(Debug, PartialEq, Eq)]
pub struct OpMap {
    pub entries: Vec<OpEntry>,
}

/// The map from names to operators that a list of entries stands for.
pub open spec fn named(entries: Seq<OpEntry>) -> Map<Seq<char>, Operator>
    decreases entries.len(),
{
    if entries.len() == 0 {
        Map::empty()
    } else {
        named(entries.drop_last()).insert(entries.last().name@, entries.last().op)
    }
}

/// Where no entry from index `from` on has the name, the entries before
/// `from` decide what the name stands for.
proof fn lemma_named_skips(entries: Seq<OpEntry>, from: int, name: Seq<char>)
    requires
        0 <= from <= entries.len(),
        forall|k: int| from <= k < entries.len() ==> (#[trigger] entries[k]).name@ != name,
    ensures
        named(entries).contains_key(name) == named(entries.take(from)).contains_key(name),
        named(entries).contains_key(name) ==> named(entries)[name] == named(entries.take(from))[name],
    decreases entries.len(),
{
    if from == entries.len() {
        assert(entries.take(from) =~= entries);
    } else {
        lemma_named_skips(entries.drop_last(), from, name);
        assert(entries.drop_last().take(from) =~= entries.take(from));
    }
}

impl View for OpMap {
    type V = Map<Seq<char>, Operator>;

    open spec fn view(&self) -> Map<Seq<char>, Operator> {
        named(self.entries@)
    }
}

impl OpMap {
    /// A registry without operators.
    pub fn new() -> (r: OpMap)
        ensures
            r@ == Map::<Seq<char>, Operator>::empty(),
    {
        OpMap { entries: Vec::new() }
    }

    /// Registers `op` under `name`.
    pub fn insert(&mut self, name: String, op: Operator)
        ensures
            final(self)@ == old(self)@.insert(name@, op),
    {
        let ghost before = self.entries@;
        self.entries.push(OpEntry { name, op });
        assert(self.entries@.drop_last() =~= before);
    }

    /// The operator registered under `name`, if there is one.
    pub fn get(&self, name: &String) -> (r: Option<Operator>)
        ensures
            r is Some == self@.contains_key(name@),
            r matches Some(op) ==> self@[name@] == op,
    {
        let mut i: usize = self.entries.len();
        while i > 0
            invariant
                i <= self.entries.len(),
                forall|k: int|
                    i <= k < self.entries.len() ==> (#[trigger] self.entries@[k]).name@ != name@,
            decreases i,
        {
            i -= 1;
            if self.entries[i].name == *name {
                proof {
                    lemma_named_skips(self.entries@, i + 1, name@);
                }
                return Some(self.entries[i].op);
            }
        }
        proof {
            lemma_named_skips(self.entries@, 0, name@);
        }
        None
    }
}

/// The built-in operators under their names.
pub open spec fn default_ops() -> Map<Seq<char>, Operator> {
    Map::<Seq<char>, Operator>::empty().insert("SUM"@, Operator::Sum).insert(
        "MULTIPLY"@,
        Operator::Multiply,
    ).insert("DIVIDE"@, Operator::Divide).insert("GT"@, Operator::Greater).insert(
        "EQ"@,
        Operator::Equal,
    ).insert("NOT"@, Operator::Not).insert("AND"@, Operator::And).insert(
        "OR"@,
        Operator::Or,
    ).insert("IF"@, Operator::If).insert("CONCAT"@, Operator::Concat)
}

/// The registry of the built-in operators.
pub fn get_default_op_map() -> (r: OpMap)
    ensures
        r@ == default_ops(),
{
    let mut ops = OpMap::new();
    ops.insert("SUM".to_owned(), Operator::Sum);
    ops.insert("MULTIPLY".to_owned(), Operator::Multiply);
    ops.insert("DIVIDE".to_owned(), Operator::Divide);
    ops.insert("GT".to_owned(), Operator::Greater);
    ops.insert("EQ".to_owned(), Operator::Equal);
    ops.insert("NOT".to_owned(), Operator::Not);
    ops.insert("AND".to_owned(), Operator::And);
    ops.insert("OR".to_owned(), Operator::Or);
    ops.insert("IF".to_owned(), Operator::If);
    ops.insert("CONCAT".to_owned(), Operator::Concat);
    ops
}

} // verus!

use vstd::prelude::*;

use crate::arena::{Arena, Node};
use crate::types::{DataType, Field, FunctionRef, Operator, ScalarValue};

verus! {

/// Aggregation applied to a boxed sub-expression. The fraction of
/// `Quantile` is given in millionths.
#[derive(Debug, PartialEq)]
pub enum AggExpr {
    Min(Box<Expr>),
    Max(Box<Expr>),
    Median(Box<Expr>),
    NUnique(Box<Expr>),
    First(Box<Expr>),
    Last(Box<Expr>),
    Mean(Box<Expr>),
    List(Box<Expr>),
    Count(Box<Expr>),
    Quantile { expr: Box<Expr>, quantile: u32 },
    Sum(Box<Expr>),
    Std(Box<Expr>),
    Var(Box<Expr>),
    AggGroups(Box<Expr>),
}

/// Scalar or column expression, owning its children.
#[derive(Debug, PartialEq)]
pub enum Expr {
    IsUnique(Box<Expr>),
    Duplicated(Box<Expr>),
    Reverse(Box<Expr>),
    Explode(Box<Expr>),
    Alias(Box<Expr>, String),
    Literal(ScalarValue),
    Column(String),
    BinaryExpr { left: Box<Expr>, op: Operator, right: Box<Expr> },
    Not(Box<Expr>),
    IsNotNull(Box<Expr>),
    IsNull(Box<Expr>),
    Cast { expr: Box<Expr>, data_type: DataType },
    Sort { expr: Box<Expr>, reverse: bool },
    SortBy { expr: Box<Expr>, by: Box<Expr>, reverse: bool },
    Filter { input: Box<Expr>, by: Box<Expr> },
    Agg(AggExpr),
    Ternary { predicate: Box<Expr>, truthy: Box<Expr>, falsy: Box<Expr> },
    Udf { input: Box<Expr>, function: FunctionRef, output_type: Option<DataType> },
    BinaryFunction {
        input_a: Box<Expr>,
        input_b: Box<Expr>,
        function: FunctionRef,
        output_field: Field,
    },
    Shift { input: Box<Expr>, periods: i32 },
    Window { function: Box<Expr>, partition_by: Box<Expr>, order_by: Option<Box<Expr>> },
    Slice { input: Box<Expr>, offset: i64, length: usize },
    Wildcard,
    Except(Box<Expr>),
}

/// Arena form of `AggExpr`: the sub-expression is a `Node` of the expression arena.
#[derive(Clone, Debug, PartialEq)]
pub enum AAggExpr {
    Min(Node),
    Max(Node),
    Median(Node),
    NUnique(Node),
    First(Node),
    Last(Node),
    Mean(Node),
    List(Node),
    Count(Node),
    Quantile { expr: Node, quantile: u32 },
    Sum(Node),
    Std(Node),
    Var(Node),
    AggGroups(Node),
}

/// Arena form of `Expr`: every child is a `Node` of the expression arena.
#[derive(Clone, Debug, PartialEq)]
pub enum AExpr {
    IsUnique(Node),
    Duplicated(Node),
    Reverse(Node),
    Explode(Node),
    Alias(Node, String),
    Literal(ScalarValue),
    Column(String),
    BinaryExpr { left: Node, op: Operator, right: Node },
    Not(Node),
    IsNotNull(Node),
    IsNull(Node),
    Cast { expr: Node, data_type: DataType },
    Sort { expr: Node, reverse: bool },
    SortBy { expr: Node, by: Node, reverse: bool },
    Filter { input: Node, by: Node },
    Agg(AAggExpr),
    Ternary { predicate: Node, truthy: Node, falsy: Node },
    Udf { input: Node, function: FunctionRef, output_type: Option<DataType> },
    BinaryFunction { input_a: Node, input_b: Node, function: FunctionRef, output_field: Field },
    Shift { input: Node, periods: i32 },
    Window { function: Node, partition_by: Node, order_by: Option<Node> },
    Slice { input: Node, offset: i64, length: usize },
    Wildcard,
    Except(Node),
}

/// An optional child lies in `[lo, hi)`.
pub open spec fn opt_node_within(o: Option<Node>, lo: int, hi: int) -> bool {
    match o {
        Some(c) => lo <= c.0 < hi,
        None => true,
    }
}

/// Every child of `g` lies in `[lo, hi)`.
pub open spec fn aagg_children_within(g: AAggExpr, lo: int, hi: int) -> bool {
    match g {
        AAggExpr::Min(x0) => lo <= x0.0 < hi,
        AAggExpr::Max(x0) => lo <= x0.0 < hi,
        AAggExpr::Median(x0) => lo <= x0.0 < hi,
        AAggExpr::NUnique(x0) => lo <= x0.0 < hi,
        AAggExpr::First(x0) => lo <= x0.0 < hi,
        AAggExpr::Last(x0) => lo <= x0.0 < hi,
        AAggExpr::Mean(x0) => lo <= x0.0 < hi,
        AAggExpr::List(x0) => lo <= x0.0 < hi,
        AAggExpr::Count(x0) => lo <= x0.0 < hi,
        AAggExpr::Quantile { expr, .. } => lo <= expr.0 < hi,
        AAggExpr::Sum(x0) => lo <= x0.0 < hi,
        AAggExpr::Std(x0) => lo <= x0.0 < hi,
        AAggExpr::Var(x0) => lo <= x0.0 < hi,
        AAggExpr::AggGroups(x0) => lo <= x0.0 < hi,
    }
}

/// Every child of `e` lies in `[lo, hi)`.
pub open spec fn aexpr_children_within(e: AExpr, lo: int, hi: int) -> bool {
    match e {
        AExpr::IsUnique(x0) => lo <= x0.0 < hi,
        AExpr::Duplicated(x0) => lo <= x0.0 < hi,
        AExpr::Reverse(x0) => lo <= x0.0 < hi,
        AExpr::Explode(x0) => lo <= x0.0 < hi,
        AExpr::Alias(x0, _) => lo <= x0.0 < hi,
        AExpr::Literal(_) => true,
        AExpr::Column(_) => true,
        AExpr::BinaryExpr { left, right, .. } => lo <= left.0 < hi && lo <= right.0 < hi,
        AExpr::Not(x0) => lo <= x0.0 < hi,
        AExpr::IsNotNull(x0) => lo <= x0.0 < hi,
        AExpr::IsNull(x0) => lo <= x0.0 < hi,
        AExpr::Cast { expr, .. } => lo <= expr.0 < hi,
        AExpr::Sort { expr, .. } => lo <= expr.0 < hi,
        AExpr::SortBy { expr, by, .. } => lo <= expr.0 < hi && lo <= by.0 < hi,
        AExpr::Filter { input, by } => lo <= input.0 < hi && lo <= by.0 < hi,
        AExpr::Agg(x0) => aagg_children_within(x0, lo, hi),
        AExpr::Ternary { predicate, truthy, falsy } => lo <= predicate.0 < hi && lo <= truthy.0 < hi && lo <= falsy.0 < hi,
        AExpr::Udf { input, .. } => lo <= input.0 < hi,
        AExpr::BinaryFunction { input_a, input_b, .. } => lo <= input_a.0 < hi && lo <= input_b.0 < hi,
        AExpr::Shift { input, .. } => lo <= input.0 < hi,
        AExpr::Window { function, partition_by, order_by } => lo <= function.0 < hi && lo <= partition_by.0 < hi && opt_node_within(order_by, lo, hi),
        AExpr::Slice { input, .. } => lo <= input.0 < hi,
        AExpr::Wildcard => true,
        AExpr::Except(x0) => lo <= x0.0 < hi,
    }
}

/// The expression that slot `n` of `a` stands for, read children first.
/// A child handle that does not point below its parent reads as `Wildcard`;
/// in a well-formed arena that never happens.
pub open spec fn expr_at(a: Seq<AExpr>, n: int) -> Expr
    decreases n,
{
    if 0 <= n < a.len() {
        match a[n] {
            AExpr::IsUnique(x0) => Expr::IsUnique(Box::new(if x0.0 < n { expr_at(a, x0.0 as int) } else { Expr::Wildcard })),
            AExpr::Duplicated(x0) => Expr::Duplicated(Box::new(if x0.0 < n { expr_at(a, x0.0 as int) } else { Expr::Wildcard })),
            AExpr::Reverse(x0) => Expr::Reverse(Box::new(if x0.0 < n { expr_at(a, x0.0 as int) } else { Expr::Wildcard })),
            AExpr::Explode(x0) => Expr::Explode(Box::new(if x0.0 < n { expr_at(a, x0.0 as int) } else { Expr::Wildcard })),
            AExpr::Alias(x0, x1) => Expr::Alias(Box::new(if x0.0 < n { expr_at(a, x0.0 as int) } else { Expr::Wildcard }), x1),
            AExpr::Literal(x0) => Expr::Literal(x0),
            AExpr::Column(x0) => Expr::Column(x0),
            AExpr::BinaryExpr { left, op, right } => Expr::BinaryExpr { left: Box::new(if left.0 < n { expr_at(a, left.0 as int) } else { Expr::Wildcard }), op, right: Box::new(if right.0 < n { expr_at(a, right.0 as int) } else { Expr::Wildcard }) },
            AExpr::Not(x0) => Expr::Not(Box::new(if x0.0 < n { expr_at(a, x0.0 as int) } else { Expr::Wildcard })),
            AExpr::IsNotNull(x0) => Expr::IsNotNull(Box::new(if x0.0 < n { expr_at(a, x0.0 as int) } else { Expr::Wildcard })),
            AExpr::IsNull(x0) => Expr::IsNull(Box::new(if x0.0 < n { expr_at(a, x0.0 as int) } else { Expr::Wildcard })),
            AExpr::Cast { expr, data_type } => Expr::Cast { expr: Box::new(if expr.0 < n { expr_at(a, expr.0 as int) } else { Expr::Wildcard }), data_type },
            AExpr::Sort { expr, reverse } => Expr::Sort { expr: Box::new(if expr.0 < n { expr_at(a, expr.0 as int) } else { Expr::Wildcard }), reverse },
            AExpr::SortBy { expr, by, reverse } => Expr::SortBy { expr: Box::new(if expr.0 < n { expr_at(a, expr.0 as int) } else { Expr::Wildcard }), by: Box::new(if by.0 < n { expr_at(a, by.0 as int) } else { Expr::Wildcard }), reverse },
            AExpr::Filter { input, by } => Expr::Filter { input: Box::new(if input.0 < n { expr_at(a, input.0 as int) } else { Expr::Wildcard }), by: Box::new(if by.0 < n { expr_at(a, by.0 as int) } else { Expr::Wildcard }) },
            AExpr::Agg(g) => Expr::Agg(match g {
                AAggExpr::Min(x0) => AggExpr::Min(Box::new(if x0.0 < n { expr_at(a, x0.0 as int) } else { Expr::Wildcard })),
                AAggExpr::Max(x0) => AggExpr::Max(Box::new(if x0.0 < n { expr_at(a, x0.0 as int) } else { Expr::Wildcard })),
                AAggExpr::Median(x0) => AggExpr::Median(Box::new(if x0.0 < n { expr_at(a, x0.0 as int) } else { Expr::Wildcard })),
                AAggExpr::NUnique(x0) => AggExpr::NUnique(Box::new(if x0.0 < n { expr_at(a, x0.0 as int) } else { Expr::Wildcard })),
                AAggExpr::First(x0) => AggExpr::First(Box::new(if x0.0 < n { expr_at(a, x0.0 as int) } else { Expr::Wildcard })),
                AAggExpr::Last(x0) => AggExpr::Last(Box::new(if x0.0 < n { expr_at(a, x0.0 as int) } else { Expr::Wildcard })),
                AAggExpr::Mean(x0) => AggExpr::Mean(Box::new(if x0.0 < n { expr_at(a, x0.0 as int) } else { Expr::Wildcard })),
                AAggExpr::List(x0) => AggExpr::List(Box::new(if x0.0 < n { expr_at(a, x0.0 as int) } else { Expr::Wildcard })),
                AAggExpr::Count(x0) => AggExpr::Count(Box::new(if x0.0 < n { expr_at(a, x0.0 as int) } else { Expr::Wildcard })),
                AAggExpr::Quantile { expr, quantile } => AggExpr::Quantile { expr: Box::new(if expr.0 < n { expr_at(a, expr.0 as int) } else { Expr::Wildcard }), quantile },
                AAggExpr::Sum(x0) => AggExpr::Sum(Box::new(if x0.0 < n { expr_at(a, x0.0 as int) } else { Expr::Wildcard })),
                AAggExpr::Std(x0) => AggExpr::Std(Box::new(if x0.0 < n { expr_at(a, x0.0 as int) } else { Expr::Wildcard })),
                AAggExpr::Var(x0) => AggExpr::Var(Box::new(if x0.0 < n { expr_at(a, x0.0 as int) } else { Expr::Wildcard })),
                AAggExpr::AggGroups(x0) => AggExpr::AggGroups(Box::new(if x0.0 < n { expr_at(a, x0.0 as int) } else { Expr::Wildcard })),
            }),
            AExpr::Ternary { predicate, truthy, falsy } => Expr::Ternary { predicate: Box::new(if predicate.0 < n { expr_at(a, predicate.0 as int) } else { Expr::Wildcard }), truthy: Box::new(if truthy.0 < n { expr_at(a, truthy.0 as int) } else { Expr::Wildcard }), falsy: Box::new(if falsy.0 < n { expr_at(a, falsy.0 as int) } else { Expr::Wildcard }) },
            AExpr::Udf { input, function, output_type } => Expr::Udf { input: Box::new(if input.0 < n { expr_at(a, input.0 as int) } else { Expr::Wildcard }), function, output_type },
            AExpr::BinaryFunction { input_a, input_b, function, output_field } => Expr::BinaryFunction { input_a: Box::new(if input_a.0 < n { expr_at(a, input_a.0 as int) } else { Expr::Wildcard }), input_b: Box::new(if input_b.0 < n { expr_at(a, input_b.0 as int) } else { Expr::Wildcard }), function, output_field },
            AExpr::Shift { input, periods } => Expr::Shift { input: Box::new(if input.0 < n { expr_at(a, input.0 as int) } else { Expr::Wildcard }), periods },
            AExpr::Window { function, partition_by, order_by } => Expr::Window { function: Box::new(if function.0 < n { expr_at(a, function.0 as int) } else { Expr::Wildcard }), partition_by: Box::new(if partition_by.0 < n { expr_at(a, partition_by.0 as int) } else { Expr::Wildcard }), order_by: match order_by { Some(c) => Some(Box::new(if c.0 < n { expr_at(a, c.0 as int) } else { Expr::Wildcard })), None => None } },
            AExpr::Slice { input, offset, length } => Expr::Slice { input: Box::new(if input.0 < n { expr_at(a, input.0 as int) } else { Expr::Wildcard }), offset, length },
            AExpr::Wildcard => Expr::Wildcard,
            AExpr::Except(x0) => Expr::Except(Box::new(if x0.0 < n { expr_at(a, x0.0 as int) } else { Expr::Wildcard })),
        }
    } else {
        Expr::Wildcard
    }
}

/// Number of nodes of the tree `e`: the number of slots lowering it takes.
pub open spec fn expr_size(e: Expr) -> nat
    decreases e,
{
    match e {
        Expr::IsUnique(x0) => 1 + expr_size(*x0),
        Expr::Duplicated(x0) => 1 + expr_size(*x0),
        Expr::Reverse(x0) => 1 + expr_size(*x0),
        Expr::Explode(x0) => 1 + expr_size(*x0),
        Expr::Alias(x0, _) => 1 + expr_size(*x0),
        Expr::Literal(_) => 1,
        Expr::Column(_) => 1,
        Expr::BinaryExpr { left, right, .. } => 1 + expr_size(*left) + expr_size(*right),
        Expr::Not(x0) => 1 + expr_size(*x0),
        Expr::IsNotNull(x0) => 1 + expr_size(*x0),
        Expr::IsNull(x0) => 1 + expr_size(*x0),
        Expr::Cast { expr, .. } => 1 + expr_size(*expr),
        Expr::Sort { expr, .. } => 1 + expr_size(*expr),
        Expr::SortBy { expr, by, .. } => 1 + expr_size(*expr) + expr_size(*by),
        Expr::Filter { input, by } => 1 + expr_size(*input) + expr_size(*by),
        Expr::Agg(g) => match g {
            AggExpr::Min(x0) => 1 + expr_size(*x0),
            AggExpr::Max(x0) => 1 + expr_size(*x0),
            AggExpr::Median(x0) => 1 + expr_size(*x0),
            AggExpr::NUnique(x0) => 1 + expr_size(*x0),
            AggExpr::First(x0) => 1 + expr_size(*x0),
            AggExpr::Last(x0) => 1 + expr_size(*x0),
            AggExpr::Mean(x0) => 1 + expr_size(*x0),
            AggExpr::List(x0) => 1 + expr_size(*x0),
            AggExpr::Count(x0) => 1 + expr_size(*x0),
            AggExpr::Quantile { expr, .. } => 1 + expr_size(*expr),
            AggExpr::Sum(x0) => 1 + expr_size(*x0),
            AggExpr::Std(x0) => 1 + expr_size(*x0),
            AggExpr::Var(x0) => 1 + expr_size(*x0),
            AggExpr::AggGroups(x0) => 1 + expr_size(*x0),
        },
        Expr::Ternary { predicate, truthy, falsy } => 1 + expr_size(*predicate) + expr_size(*truthy) + expr_size(*falsy),
        Expr::Udf { input, .. } => 1 + expr_size(*input),
        Expr::BinaryFunction { input_a, input_b, .. } => 1 + expr_size(*input_a) + expr_size(*input_b),
        Expr::Shift { input, .. } => 1 + expr_size(*input),
        Expr::Window { function, partition_by, order_by } => 1 + expr_size(*function) + expr_size(*partition_by) + match order_by { Some(o) => expr_size(*o), None => 0 },
        Expr::Slice { input, .. } => 1 + expr_size(*input),
        Expr::Wildcard => 1,
        Expr::Except(x0) => 1 + expr_size(*x0),
    }
}

/// The tree rooted at `n` occupies exactly the slots `[lo, n]`: each child's
/// subtree is a contiguous block, the blocks follow one another in field order,
/// and the last one ends right below `n`. This is the layout lowering a tree
/// produces; in particular no slot is shared.
pub open spec fn expr_laid_out(a: Seq<AExpr>, lo: int, n: int) -> bool
    decreases n - lo,
{
    0 <= lo <= n < a.len() && match a[n] {
        AExpr::IsUnique(x0) => {
                &&& x0.0 == n - 1
                &&& lo <= x0.0
                &&& expr_laid_out(a, lo, x0.0 as int)
            },
        AExpr::Duplicated(x0) => {
                &&& x0.0 == n - 1
                &&& lo <= x0.0
                &&& expr_laid_out(a, lo, x0.0 as int)
            },
        AExpr::Reverse(x0) => {
                &&& x0.0 == n - 1
                &&& lo <= x0.0
                &&& expr_laid_out(a, lo, x0.0 as int)
            },
        AExpr::Explode(x0) => {
                &&& x0.0 == n - 1
                &&& lo <= x0.0
                &&& expr_laid_out(a, lo, x0.0 as int)
            },
        AExpr::Alias(x0, _) => {
                &&& x0.0 == n - 1
                &&& lo <= x0.0
                &&& expr_laid_out(a, lo, x0.0 as int)
            },
        AExpr::Literal(_) => lo == n,
        AExpr::Column(_) => lo == n,
        AExpr::BinaryExpr { left, right, .. } => {
                &&& right.0 == n - 1
                &&& lo <= left.0
                &&& left.0 < right.0
                &&& expr_laid_out(a, lo, left.0 as int)
                &&& expr_laid_out(a, left.0 + 1, right.0 as int)
            },
        AExpr::Not(x0) => {
                &&& x0.0 == n - 1
                &&& lo <= x0.0
                &&& expr_laid_out(a, lo, x0.0 as int)
            },
        AExpr::IsNotNull(x0) => {
                &&& x0.0 == n - 1
                &&& lo <= x0.0
                &&& expr_laid_out(a, lo, x0.0 as int)
            },
        AExpr::IsNull(x0) => {
                &&& x0.0 == n - 1
                &&& lo <= x0.0
                &&& expr_laid_out(a, lo, x0.0 as int)
            },
        AExpr::Cast { expr, .. } => {
                &&& expr.0 == n - 1
                &&& lo <= expr.0
                &&& expr_laid_out(a, lo, expr.0 as int)
            },
        AExpr::Sort { expr, .. } => {
                &&& expr.0 == n - 1
                &&& lo <= expr.0
                &&& expr_laid_out(a, lo, expr.0 as int)
            },
        AExpr::SortBy { expr, by, .. } => {
                &&& by.0 == n - 1
                &&& lo <= expr.0
                &&& expr.0 < by.0
                &&& expr_laid_out(a, lo, expr.0 as int)
                &&& expr_laid_out(a, expr.0 + 1, by.0 as int)
            },
        AExpr::Filter { input, by } => {
                &&& by.0 == n - 1
                &&& lo <= input.0
                &&& input.0 < by.0
                &&& expr_laid_out(a, lo, input.0 as int)
                &&& expr_laid_out(a, input.0 + 1, by.0 as int)
            },
        AExpr::Agg(g) => match g {
            AAggExpr::Min(x0) => {
                &&& x0.0 == n - 1
                &&& lo <= x0.0
                &&& expr_laid_out(a, lo, x0.0 as int)
            },
            AAggExpr::Max(x0) => {
                &&& x0.0 == n - 1
                &&& lo <= x0.0
                &&& expr_laid_out(a, lo, x0.0 as int)
            },
            AAggExpr::Median(x0) => {
                &&& x0.0 == n - 1
                &&& lo <= x0.0
                &&& expr_laid_out(a, lo, x0.0 as int)
            },
            AAggExpr::NUnique(x0) => {
                &&& x0.0 == n - 1
                &&& lo <= x0.0
                &&& expr_laid_out(a, lo, x0.0 as int)
            },
            AAggExpr::First(x0) => {
                &&& x0.0 == n - 1
                &&& lo <= x0.0
                &&& expr_laid_out(a, lo, x0.0 as int)
            },
            AAggExpr::Last(x0) => {
                &&& x0.0 == n - 1
                &&& lo <= x0.0
                &&& expr_laid_out(a, lo, x0.0 as int)
            },
            AAggExpr::Mean(x0) => {
                &&& x0.0 == n - 1
                &&& lo <= x0.0
                &&& expr_laid_out(a, lo, x0.0 as int)
            },
            AAggExpr::List(x0) => {
                &&& x0.0 == n - 1
                &&& lo <= x0.0
                &&& expr_laid_out(a, lo, x0.0 as int)
            },
            AAggExpr::Count(x0) => {
                &&& x0.0 == n - 1
                &&& lo <= x0.0
                &&& expr_laid_out(a, lo, x0.0 as int)
            },
            AAggExpr::Quantile { expr, .. } => {
                &&& expr.0 == n - 1
                &&& lo <= expr.0
                &&& expr_laid_out(a, lo, expr.0 as int)
            },
            AAggExpr::Sum(x0) => {
                &&& x0.0 == n - 1
                &&& lo <= x0.0
                &&& expr_laid_out(a, lo, x0.0 as int)
            },
            AAggExpr::Std(x0) => {
                &&& x0.0 == n - 1
                &&& lo <= x0.0
                &&& expr_laid_out(a, lo, x0.0 as int)
            },
            AAggExpr::Var(x0) => {
                &&& x0.0 == n - 1
                &&& lo <= x0.0
                &&& expr_laid_out(a, lo, x0.0 as int)
            },
            AAggExpr::AggGroups(x0) => {
                &&& x0.0 == n - 1
                &&& lo <= x0.0
                &&& expr_laid_out(a, lo, x0.0 as int)
            },
        },
        AExpr::Ternary { predicate, truthy, falsy } => {
                &&& falsy.0 == n - 1
                &&& lo <= predicate.0
                &&& predicate.0 < truthy.0
                &&& truthy.0 < falsy.0
                &&& expr_laid_out(a, lo, predicate.0 as int)
                &&& expr_laid_out(a, predicate.0 + 1, truthy.0 as int)
                &&& expr_laid_out(a, truthy.0 + 1, falsy.0 as int)
            },
        AExpr::Udf { input, .. } => {
                &&& input.0 == n - 1
                &&& lo <= input.0
                &&& expr_laid_out(a, lo, input.0 as int)
            },
        AExpr::BinaryFunction { input_a, input_b, .. } => {
                &&& input_b.0 == n - 1
                &&& lo <= input_a.0
                &&& input_a.0 < input_b.0
                &&& expr_laid_out(a, lo, input_a.0 as int)
                &&& expr_laid_out(a, input_a.0 + 1, input_b.0 as int)
            },
        AExpr::Shift { input, .. } => {
                &&& input.0 == n - 1
                &&& lo <= input.0
                &&& expr_laid_out(a, lo, input.0 as int)
            },
        AExpr::Window { function, partition_by, order_by } => match order_by { Some(c) => {
                &&& c.0 == n - 1
                &&& lo <= function.0
                &&& function.0 < partition_by.0
                &&& partition_by.0 < c.0
                &&& expr_laid_out(a, lo, function.0 as int)
                &&& expr_laid_out(a, function.0 + 1, partition_by.0 as int)
                &&& expr_laid_out(a, partition_by.0 + 1, c.0 as int)
            }, None => {
                &&& partition_by.0 == n - 1
                &&& lo <= function.0
                &&& function.0 < partition_by.0
                &&& expr_laid_out(a, lo, function.0 as int)
                &&& expr_laid_out(a, function.0 + 1, partition_by.0 as int)
            } },
        AExpr::Slice { input, .. } => {
                &&& input.0 == n - 1
                &&& lo <= input.0
                &&& expr_laid_out(a, lo, input.0 as int)
            },
        AExpr::Wildcard => lo == n,
        AExpr::Except(x0) => {
                &&& x0.0 == n - 1
                &&& lo <= x0.0
                &&& expr_laid_out(a, lo, x0.0 as int)
            },
    }
}

/// The layout of a subtree depends only on the slots it occupies.
pub proof fn lemma_expr_laid_out_agree(a1: Seq<AExpr>, a2: Seq<AExpr>, lo: int, n: int)
    requires
        expr_laid_out(a1, lo, n),
        n < a2.len(),
        forall|i: int| lo <= i <= n ==> a2[i] == a1[i],
    ensures
        expr_laid_out(a2, lo, n),
    decreases n - lo,
{
    assert(a2[n] == a1[n]);
    match a1[n] {
        AExpr::IsUnique(x0) => {
            lemma_expr_laid_out_agree(a1, a2, lo, x0.0 as int);
        },
        AExpr::Duplicated(x0) => {
            lemma_expr_laid_out_agree(a1, a2, lo, x0.0 as int);
        },
        AExpr::Reverse(x0) => {
            lemma_expr_laid_out_agree(a1, a2, lo, x0.0 as int);
        },
        AExpr::Explode(x0) => {
            lemma_expr_laid_out_agree(a1, a2, lo, x0.0 as int);
        },
        AExpr::Alias(x0, _) => {
            lemma_expr_laid_out_agree(a1, a2, lo, x0.0 as int);
        },
        AExpr::Literal(_) => {
        },
        AExpr::Column(_) => {
        },
        AExpr::BinaryExpr { left, right, .. } => {
            lemma_expr_laid_out_agree(a1, a2, lo, left.0 as int);
            lemma_expr_laid_out_agree(a1, a2, left.0 + 1, right.0 as int);
        },
        AExpr::Not(x0) => {
            lemma_expr_laid_out_agree(a1, a2, lo, x0.0 as int);
        },
        AExpr::IsNotNull(x0) => {
            lemma_expr_laid_out_agree(a1, a2, lo, x0.0 as int);
        },
        AExpr::IsNull(x0) => {
            lemma_expr_laid_out_agree(a1, a2, lo, x0.0 as int);
        },
        AExpr::Cast { expr, .. } => {
            lemma_expr_laid_out_agree(a1, a2, lo, expr.0 as int);
        },
        AExpr::Sort { expr, .. } => {
            lemma_expr_laid_out_agree(a1, a2, lo, expr.0 as int);
        },
        AExpr::SortBy { expr, by, .. } => {
            lemma_expr_laid_out_agree(a1, a2, lo, expr.0 as int);
            lemma_expr_laid_out_agree(a1, a2, expr.0 + 1, by.0 as int);
        },
        AExpr::Filter { input, by } => {
            lemma_expr_laid_out_agree(a1, a2, lo, input.0 as int);
            lemma_expr_laid_out_agree(a1, a2, input.0 + 1, by.0 as int);
        },
        AExpr::Agg(g) => match g {
            AAggExpr::Min(x0) => {
                lemma_expr_laid_out_agree(a1, a2, lo, x0.0 as int);
            },
            AAggExpr::Max(x0) => {
                lemma_expr_laid_out_agree(a1, a2, lo, x0.0 as int);
            },
            AAggExpr::Median(x0) => {
                lemma_expr_laid_out_agree(a1, a2, lo, x0.0 as int);
            },
            AAggExpr::NUnique(x0) => {
                lemma_expr_laid_out_agree(a1, a2, lo, x0.0 as int);
            },
            AAggExpr::First(x0) => {
                lemma_expr_laid_out_agree(a1, a2, lo, x0.0 as int);
            },
            AAggExpr::Last(x0) => {
                lemma_expr_laid_out_agree(a1, a2, lo, x0.0 as int);
            },
            AAggExpr::Mean(x0) => {
                lemma_expr_laid_out_agree(a1, a2, lo, x0.0 as int);
            },
            AAggExpr::List(x0) => {
                lemma_expr_laid_out_agree(a1, a2, lo, x0.0 as int);
            },
            AAggExpr::Count(x0) => {
                lemma_expr_laid_out_agree(a1, a2, lo, x0.0 as int);
            },
            AAggExpr::Quantile { expr, .. } => {
                lemma_expr_laid_out_agree(a1, a2, lo, expr.0 as int);
            },
            AAggExpr::Sum(x0) => {
                lemma_expr_laid_out_agree(a1, a2, lo, x0.0 as int);
            },
            AAggExpr::Std(x0) => {
                lemma_expr_laid_out_agree(a1, a2, lo, x0.0 as int);
            },
            AAggExpr::Var(x0) => {
                lemma_expr_laid_out_agree(a1, a2, lo, x0.0 as int);
            },
            AAggExpr::AggGroups(x0) => {
                lemma_expr_laid_out_agree(a1, a2, lo, x0.0 as int);
            },
        },
        AExpr::Ternary { predicate, truthy, falsy } => {
            lemma_expr_laid_out_agree(a1, a2, lo, predicate.0 as int);
            lemma_expr_laid_out_agree(a1, a2, predicate.0 + 1, truthy.0 as int);
            lemma_expr_laid_out_agree(a1, a2, truthy.0 + 1, falsy.0 as int);
        },
        AExpr::Udf { input, .. } => {
            lemma_expr_laid_out_agree(a1, a2, lo, input.0 as int);
        },
        AExpr::BinaryFunction { input_a, input_b, .. } => {
            lemma_expr_laid_out_agree(a1, a2, lo, input_a.0 as int);
            lemma_expr_laid_out_agree(a1, a2, input_a.0 + 1, input_b.0 as int);
        },
        AExpr::Shift { input, .. } => {
            lemma_expr_laid_out_agree(a1, a2, lo, input.0 as int);
        },
        AExpr::Window { function, partition_by, order_by } => {
            match order_by {
                Some(c) => {
                    lemma_expr_laid_out_agree(a1, a2, lo, function.0 as int);
                    lemma_expr_laid_out_agree(a1, a2, function.0 + 1, partition_by.0 as int);
                    lemma_expr_laid_out_agree(a1, a2, partition_by.0 + 1, c.0 as int);
                },
                None => {
                    lemma_expr_laid_out_agree(a1, a2, lo, function.0 as int);
                    lemma_expr_laid_out_agree(a1, a2, function.0 + 1, partition_by.0 as int);
                },
            }
        },
        AExpr::Slice { input, .. } => {
            lemma_expr_laid_out_agree(a1, a2, lo, input.0 as int);
        },
        AExpr::Wildcard => {
        },
        AExpr::Except(x0) => {
            lemma_expr_laid_out_agree(a1, a2, lo, x0.0 as int);
        },
    }
}

/// Post-order layout: every slot's children lie strictly below the slot.
pub open spec fn expr_arena_wf(a: Seq<AExpr>) -> bool {
    forall|i: int| 0 <= i < a.len() ==> #[trigger] aexpr_children_within(a[i], 0, i)
}

/// Every slot from `lo` on has its children in `[lo, slot)`: the slots were
/// filled by lowering fresh trees, children first.
pub open spec fn expr_slots_fresh(a: Seq<AExpr>, lo: int) -> bool {
    forall|i: int| lo <= i < a.len() ==> #[trigger] aexpr_children_within(a[i], lo, i)
}

/// `a2` holds `a1` unchanged as its first slots.
pub open spec fn extends<T>(a2: Seq<T>, a1: Seq<T>) -> bool {
    a1.len() <= a2.len() && forall|i: int| 0 <= i < a1.len() ==> a2[i] == a1[i]
}

/// Slots appended to an arena leave what the existing slots stand for unchanged.
pub proof fn lemma_expr_at_extends(a1: Seq<AExpr>, a2: Seq<AExpr>, m: int)
    requires
        extends(a2, a1),
        0 <= m < a1.len(),
    ensures
        expr_at(a2, m) == expr_at(a1, m),
    decreases m,
{
    assert(a2[m] == a1[m]);
    match a1[m] {
        AExpr::IsUnique(x0) => {
            if x0.0 < m { lemma_expr_at_extends(a1, a2, x0.0 as int); }
        },
        AExpr::Duplicated(x0) => {
            if x0.0 < m { lemma_expr_at_extends(a1, a2, x0.0 as int); }
        },
        AExpr::Reverse(x0) => {
            if x0.0 < m { lemma_expr_at_extends(a1, a2, x0.0 as int); }
        },
        AExpr::Explode(x0) => {
            if x0.0 < m { lemma_expr_at_extends(a1, a2, x0.0 as int); }
        },
        AExpr::Alias(x0, _) => {
            if x0.0 < m { lemma_expr_at_extends(a1, a2, x0.0 as int); }
        },
        AExpr::Literal(_) => {
        },
        AExpr::Column(_) => {
        },
        AExpr::BinaryExpr { left, right, .. } => {
            if left.0 < m { lemma_expr_at_extends(a1, a2, left.0 as int); }
            if right.0 < m { lemma_expr_at_extends(a1, a2, right.0 as int); }
        },
        AExpr::Not(x0) => {
            if x0.0 < m { lemma_expr_at_extends(a1, a2, x0.0 as int); }
        },
        AExpr::IsNotNull(x0) => {
            if x0.0 < m { lemma_expr_at_extends(a1, a2, x0.0 as int); }
        },
        AExpr::IsNull(x0) => {
            if x0.0 < m { lemma_expr_at_extends(a1, a2, x0.0 as int); }
        },
        AExpr::Cast { expr, .. } => {
            if expr.0 < m { lemma_expr_at_extends(a1, a2, expr.0 as int); }
        },
        AExpr::Sort { expr, .. } => {
            if expr.0 < m { lemma_expr_at_extends(a1, a2, expr.0 as int); }
        },
        AExpr::SortBy { expr, by, .. } => {
            if expr.0 < m { lemma_expr_at_extends(a1, a2, expr.0 as int); }
            if by.0 < m { lemma_expr_at_extends(a1, a2, by.0 as int); }
        },
        AExpr::Filter { input, by } => {
            if input.0 < m { lemma_expr_at_extends(a1, a2, input.0 as int); }
            if by.0 < m { lemma_expr_at_extends(a1, a2, by.0 as int); }
        },
        AExpr::Agg(g) => {
            match g {
                AAggExpr::Min(x0) => {
                    if x0.0 < m { lemma_expr_at_extends(a1, a2, x0.0 as int); }
                },
                AAggExpr::Max(x0) => {
                    if x0.0 < m { lemma_expr_at_extends(a1, a2, x0.0 as int); }
                },
                AAggExpr::Median(x0) => {
                    if x0.0 < m { lemma_expr_at_extends(a1, a2, x0.0 as int); }
                },
                AAggExpr::NUnique(x0) => {
                    if x0.0 < m { lemma_expr_at_extends(a1, a2, x0.0 as int); }
                },
                AAggExpr::First(x0) => {
                    if x0.0 < m { lemma_expr_at_extends(a1, a2, x0.0 as int); }
                },
                AAggExpr::Last(x0) => {
                    if x0.0 < m { lemma_expr_at_extends(a1, a2, x0.0 as int); }
                },
                AAggExpr::Mean(x0) => {
                    if x0.0 < m { lemma_expr_at_extends(a1, a2, x0.0 as int); }
                },
                AAggExpr::List(x0) => {
                    if x0.0 < m { lemma_expr_at_extends(a1, a2, x0.0 as int); }
                },
                AAggExpr::Count(x0) => {
                    if x0.0 < m { lemma_expr_at_extends(a1, a2, x0.0 as int); }
                },
                AAggExpr::Quantile { expr, .. } => {
                    if expr.0 < m { lemma_expr_at_extends(a1, a2, expr.0 as int); }
                },
                AAggExpr::Sum(x0) => {
                    if x0.0 < m { lemma_expr_at_extends(a1, a2, x0.0 as int); }
                },
                AAggExpr::Std(x0) => {
                    if x0.0 < m { lemma_expr_at_extends(a1, a2, x0.0 as int); }
                },
                AAggExpr::Var(x0) => {
                    if x0.0 < m { lemma_expr_at_extends(a1, a2, x0.0 as int); }
                },
                AAggExpr::AggGroups(x0) => {
                    if x0.0 < m { lemma_expr_at_extends(a1, a2, x0.0 as int); }
                },
            }
        },
        AExpr::Ternary { predicate, truthy, falsy } => {
            if predicate.0 < m { lemma_expr_at_extends(a1, a2, predicate.0 as int); }
            if truthy.0 < m { lemma_expr_at_extends(a1, a2, truthy.0 as int); }
            if falsy.0 < m { lemma_expr_at_extends(a1, a2, falsy.0 as int); }
        },
        AExpr::Udf { input, .. } => {
            if input.0 < m { lemma_expr_at_extends(a1, a2, input.0 as int); }
        },
        AExpr::BinaryFunction { input_a, input_b, .. } => {
            if input_a.0 < m { lemma_expr_at_extends(a1, a2, input_a.0 as int); }
            if input_b.0 < m { lemma_expr_at_extends(a1, a2, input_b.0 as int); }
        },
        AExpr::Shift { input, .. } => {
            if input.0 < m { lemma_expr_at_extends(a1, a2, input.0 as int); }
        },
        AExpr::Window { function, partition_by, order_by } => {
            if function.0 < m { lemma_expr_at_extends(a1, a2, function.0 as int); }
            if partition_by.0 < m { lemma_expr_at_extends(a1, a2, partition_by.0 as int); }
            match order_by { Some(c) => { if c.0 < m { lemma_expr_at_extends(a1, a2, c.0 as int); } }, None => {} }
        },
        AExpr::Slice { input, .. } => {
            if input.0 < m { lemma_expr_at_extends(a1, a2, input.0 as int); }
        },
        AExpr::Wildcard => {
        },
        AExpr::Except(x0) => {
            if x0.0 < m { lemma_expr_at_extends(a1, a2, x0.0 as int); }
        },
    }
}

/// All slots of `a1` keep their meaning in an extension `a2`.
pub proof fn lemma_expr_at_extends_all(a1: Seq<AExpr>, a2: Seq<AExpr>)
    requires
        extends(a2, a1),
    ensures
        forall|m: int| 0 <= m < a1.len() ==> #[trigger] expr_at(a2, m) == expr_at(a1, m),
{
    assert forall|m: int| 0 <= m < a1.len() implies #[trigger] expr_at(a2, m) == expr_at(a1, m) by {
        lemma_expr_at_extends(a1, a2, m);
    }
}

/// Facts that hold of `a` after lowering fresh trees into an arena that was `before`.
pub open spec fn lowered_from(a: Seq<AExpr>, before: Seq<AExpr>) -> bool {
    &&& extends(a, before)
    &&& expr_slots_fresh(a, before.len() as int)
    &&& expr_arena_wf(before) ==> expr_arena_wf(a)
    &&& forall|m: int| 0 <= m < before.len() ==> #[trigger] expr_at(a, m) == expr_at(before, m)
}

pub proof fn lemma_lowered_refl(a: Seq<AExpr>)
    ensures
        lowered_from(a, a),
{
}

pub proof fn lemma_lowered_trans(a0: Seq<AExpr>, a1: Seq<AExpr>, a2: Seq<AExpr>)
    requires
        lowered_from(a1, a0),
        lowered_from(a2, a1),
    ensures
        lowered_from(a2, a0),
{
    assert forall|i: int| a0.len() <= i < a2.len() implies #[trigger] aexpr_children_within(a2[i], a0.len() as int, i) by {
        if i < a1.len() {
            assert(a2[i] == a1[i]);
            assert(aexpr_children_within(a1[i], a0.len() as int, i));
        } else {
            assert(aexpr_children_within(a2[i], a1.len() as int, i));
            lemma_within_weaken(a2[i], a1.len() as int, a0.len() as int, i);
        }
    }
    if expr_arena_wf(a0) {
        assert forall|i: int| 0 <= i < a2.len() implies #[trigger] aexpr_children_within(a2[i], 0, i) by {
            assert(aexpr_children_within(a2[i], a1.len() as int, i) || i < a1.len());
            if i < a1.len() {
                assert(a2[i] == a1[i]);
            } else {
                lemma_within_weaken(a2[i], a1.len() as int, 0, i);
            }
        }
    }
}

pub proof fn lemma_within_weaken(e: AExpr, lo: int, lo2: int, hi: int)
    requires
        aexpr_children_within(e, lo, hi),
        lo2 <= lo,
    ensures
        aexpr_children_within(e, lo2, hi),
{
}

/// Appending one slot whose children lie in the freshly lowered range.
proof fn lemma_append_slot(before: Seq<AExpr>, mid: Seq<AExpr>, v: AExpr)
    requires
        lowered_from(mid, before),
        aexpr_children_within(v, before.len() as int, mid.len() as int),
    ensures
        forall|m: int| 0 <= m < mid.len() ==> #[trigger] expr_at(mid.push(v), m) == expr_at(mid, m),
        lowered_from(mid.push(v), before),
{
    let a = mid.push(v);
    assert(a[mid.len() as int] == v);
    lemma_expr_at_extends_all(mid, a);
    assert forall|i: int| before.len() <= i < a.len() implies #[trigger] aexpr_children_within(a[i], before.len() as int, i) by {
        if i < mid.len() {
            assert(a[i] == mid[i]);
        }
    }
    if expr_arena_wf(before) {
        assert forall|i: int| 0 <= i < a.len() implies #[trigger] aexpr_children_within(a[i], 0, i) by {
            if i < mid.len() {
                assert(a[i] == mid[i]);
            } else {
                lemma_within_weaken(a[i], before.len() as int, 0, i);
            }
        }
    }
}

/// Lowers `expr` into `arena`, children first, and returns the handle of its
/// root, which is the last slot appended.
#[verifier::rlimit(100)]
pub fn to_aexpr(expr: Expr, arena: &mut Arena<AExpr>) -> (r: Node)
    ensures
        old(arena)@.len() <= r.0,
        r.0 + 1 == final(arena)@.len(),
        final(arena)@.len() == old(arena)@.len() + expr_size(expr),
        expr_laid_out(final(arena)@, old(arena)@.len() as int, r.0 as int),
        lowered_from(final(arena)@, old(arena)@),
        expr_at(final(arena)@, r.0 as int) == expr,
    decreases expr, 1int,
{
    let ghost before = arena@;
    match expr {
        Expr::IsUnique(x0) => {
            let x0_n = to_aexpr(*x0, arena);
            let ghost s0 = arena@;
            let v = AExpr::IsUnique(x0_n);
            proof {
                assert(expr_at(s0, x0_n.0 as int) == *x0);
                lemma_append_slot(before, s0, v);
                let a = s0.push(v);
                lemma_expr_laid_out_agree(s0, a, before.len() as int, x0_n.0 as int);
                assert(expr_at(a, x0_n.0 as int) == *x0);
                assert(a[s0.len() as int] == v);
                assert(expr_at(a, s0.len() as int) == Expr::IsUnique(x0));
            }
            arena.add(v)
        },
        Expr::Duplicated(x0) => {
            let x0_n = to_aexpr(*x0, arena);
            let ghost s0 = arena@;
            let v = AExpr::Duplicated(x0_n);
            proof {
                assert(expr_at(s0, x0_n.0 as int) == *x0);
                lemma_append_slot(before, s0, v);
                let a = s0.push(v);
                lemma_expr_laid_out_agree(s0, a, before.len() as int, x0_n.0 as int);
                assert(expr_at(a, x0_n.0 as int) == *x0);
                assert(a[s0.len() as int] == v);
                assert(expr_at(a, s0.len() as int) == Expr::Duplicated(x0));
            }
            arena.add(v)
        },
        Expr::Reverse(x0) => {
            let x0_n = to_aexpr(*x0, arena);
            let ghost s0 = arena@;
            let v = AExpr::Reverse(x0_n);
            proof {
                assert(expr_at(s0, x0_n.0 as int) == *x0);
                lemma_append_slot(before, s0, v);
                let a = s0.push(v);
                lemma_expr_laid_out_agree(s0, a, before.len() as int, x0_n.0 as int);
                assert(expr_at(a, x0_n.0 as int) == *x0);
                assert(a[s0.len() as int] == v);
                assert(expr_at(a, s0.len() as int) == Expr::Reverse(x0));
            }
            arena.add(v)
        },
        Expr::Explode(x0) => {
            let x0_n = to_aexpr(*x0, arena);
            let ghost s0 = arena@;
            let v = AExpr::Explode(x0_n);
            proof {
                assert(expr_at(s0, x0_n.0 as int) == *x0);
                lemma_append_slot(before, s0, v);
                let a = s0.push(v);
                lemma_expr_laid_out_agree(s0, a, before.len() as int, x0_n.0 as int);
                assert(expr_at(a, x0_n.0 as int) == *x0);
                assert(a[s0.len() as int] == v);
                assert(expr_at(a, s0.len() as int) == Expr::Explode(x0));
            }
            arena.add(v)
        },
        Expr::Alias(x0, x1) => {
            let x0_n = to_aexpr(*x0, arena);
            let ghost s0 = arena@;
            let v = AExpr::Alias(x0_n, x1);
            proof {
                assert(expr_at(s0, x0_n.0 as int) == *x0);
                lemma_append_slot(before, s0, v);
                let a = s0.push(v);
                lemma_expr_laid_out_agree(s0, a, before.len() as int, x0_n.0 as int);
                assert(expr_at(a, x0_n.0 as int) == *x0);
                assert(a[s0.len() as int] == v);
                assert(expr_at(a, s0.len() as int) == Expr::Alias(x0, x1));
            }
            arena.add(v)
        },
        Expr::Literal(x0) => {
            let v = AExpr::Literal(x0);
            proof {
                lemma_lowered_refl(before);
                lemma_append_slot(before, before, v);
                let a = before.push(v);
                assert(a[before.len() as int] == v);
                assert(expr_at(a, before.len() as int) == Expr::Literal(x0));
            }
            arena.add(v)
        },
        Expr::Column(x0) => {
            let v = AExpr::Column(x0);
            proof {
                lemma_lowered_refl(before);
                lemma_append_slot(before, before, v);
                let a = before.push(v);
                assert(a[before.len() as int] == v);
                assert(expr_at(a, before.len() as int) == Expr::Column(x0));
            }
            arena.add(v)
        },
        Expr::BinaryExpr { left, op, right } => {
            let left_n = to_aexpr(*left, arena);
            let ghost s0 = arena@;
            let right_n = to_aexpr(*right, arena);
            let ghost s1 = arena@;
            let v = AExpr::BinaryExpr { left: left_n, op, right: right_n };
            proof {
                lemma_lowered_trans(before, s0, s1);
                assert(expr_at(s1, left_n.0 as int) == *left);
                assert(expr_at(s1, right_n.0 as int) == *right);
                lemma_append_slot(before, s1, v);
                let a = s1.push(v);
                lemma_expr_laid_out_agree(s0, a, before.len() as int, left_n.0 as int);
                lemma_expr_laid_out_agree(s1, a, s0.len() as int, right_n.0 as int);
                assert(expr_at(a, left_n.0 as int) == *left);
                assert(expr_at(a, right_n.0 as int) == *right);
                assert(a[s1.len() as int] == v);
                assert(expr_at(a, s1.len() as int) == Expr::BinaryExpr { left, op, right });
            }
            arena.add(v)
        },
        Expr::Not(x0) => {
            let x0_n = to_aexpr(*x0, arena);
            let ghost s0 = arena@;
            let v = AExpr::Not(x0_n);
            proof {
                assert(expr_at(s0, x0_n.0 as int) == *x0);
                lemma_append_slot(before, s0, v);
                let a = s0.push(v);
                lemma_expr_laid_out_agree(s0, a, before.len() as int, x0_n.0 as int);
                assert(expr_at(a, x0_n.0 as int) == *x0);
                assert(a[s0.len() as int] == v);
                assert(expr_at(a, s0.len() as int) == Expr::Not(x0));
            }
            arena.add(v)
        },
        Expr::IsNotNull(x0) => {
            let x0_n = to_aexpr(*x0, arena);
            let ghost s0 = arena@;
            let v = AExpr::IsNotNull(x0_n);
            proof {
                assert(expr_at(s0, x0_n.0 as int) == *x0);
                lemma_append_slot(before, s0, v);
                let a = s0.push(v);
                lemma_expr_laid_out_agree(s0, a, before.len() as int, x0_n.0 as int);
                assert(expr_at(a, x0_n.0 as int) == *x0);
                assert(a[s0.len() as int] == v);
                assert(expr_at(a, s0.len() as int) == Expr::IsNotNull(x0));
            }
            arena.add(v)
        },
        Expr::IsNull(x0) => {
            let x0_n = to_aexpr(*x0, arena);
            let ghost s0 = arena@;
            let v = AExpr::IsNull(x0_n);
            proof {
                assert(expr_at(s0, x0_n.0 as int) == *x0);
                lemma_append_slot(before, s0, v);
                let a = s0.push(v);
                lemma_expr_laid_out_agree(s0, a, before.len() as int, x0_n.0 as int);
                assert(expr_at(a, x0_n.0 as int) == *x0);
                assert(a[s0.len() as int] == v);
                assert(expr_at(a, s0.len() as int) == Expr::IsNull(x0));
            }
            arena.add(v)
        },
        Expr::Cast { expr, data_type } => {
            let expr_n = to_aexpr(*expr, arena);
            let ghost s0 = arena@;
            let v = AExpr::Cast { expr: expr_n, data_type };
            proof {
                assert(expr_at(s0, expr_n.0 as int) == *expr);
                lemma_append_slot(before, s0, v);
                let a = s0.push(v);
                lemma_expr_laid_out_agree(s0, a, before.len() as int, expr_n.0 as int);
                assert(expr_at(a, expr_n.0 as int) == *expr);
                assert(a[s0.len() as int] == v);
                assert(expr_at(a, s0.len() as int) == Expr::Cast { expr, data_type });
            }
            arena.add(v)
        },
        Expr::Sort { expr, reverse } => {
            let expr_n = to_aexpr(*expr, arena);
            let ghost s0 = arena@;
            let v = AExpr::Sort { expr: expr_n, reverse };
            proof {
                assert(expr_at(s0, expr_n.0 as int) == *expr);
                lemma_append_slot(before, s0, v);
                let a = s0.push(v);
                lemma_expr_laid_out_agree(s0, a, before.len() as int, expr_n.0 as int);
                assert(expr_at(a, expr_n.0 as int) == *expr);
                assert(a[s0.len() as int] == v);
                assert(expr_at(a, s0.len() as int) == Expr::Sort { expr, reverse });
            }
            arena.add(v)
        },
        Expr::SortBy { expr, by, reverse } => {
            let expr_n = to_aexpr(*expr, arena);
            let ghost s0 = arena@;
            let by_n = to_aexpr(*by, arena);
            let ghost s1 = arena@;
            let v = AExpr::SortBy { expr: expr_n, by: by_n, reverse };
            proof {
                lemma_lowered_trans(before, s0, s1);
                assert(expr_at(s1, expr_n.0 as int) == *expr);
                assert(expr_at(s1, by_n.0 as int) == *by);
                lemma_append_slot(before, s1, v);
                let a = s1.push(v);
                lemma_expr_laid_out_agree(s0, a, before.len() as int, expr_n.0 as int);
                lemma_expr_laid_out_agree(s1, a, s0.len() as int, by_n.0 as int);
                assert(expr_at(a, expr_n.0 as int) == *expr);
                assert(expr_at(a, by_n.0 as int) == *by);
                assert(a[s1.len() as int] == v);
                assert(expr_at(a, s1.len() as int) == Expr::SortBy { expr, by, reverse });
            }
            arena.add(v)
        },
        Expr::Filter { input, by } => {
            let input_n = to_aexpr(*input, arena);
            let ghost s0 = arena@;
            let by_n = to_aexpr(*by, arena);
            let ghost s1 = arena@;
            let v = AExpr::Filter { input: input_n, by: by_n };
            proof {
                lemma_lowered_trans(before, s0, s1);
                assert(expr_at(s1, input_n.0 as int) == *input);
                assert(expr_at(s1, by_n.0 as int) == *by);
                lemma_append_slot(before, s1, v);
                let a = s1.push(v);
                lemma_expr_laid_out_agree(s0, a, before.len() as int, input_n.0 as int);
                lemma_expr_laid_out_agree(s1, a, s0.len() as int, by_n.0 as int);
                assert(expr_at(a, input_n.0 as int) == *input);
                assert(expr_at(a, by_n.0 as int) == *by);
                assert(a[s1.len() as int] == v);
                assert(expr_at(a, s1.len() as int) == Expr::Filter { input, by });
            }
            arena.add(v)
        },
        Expr::Agg(agg) => agg_to_aexpr(agg, arena),
        Expr::Ternary { predicate, truthy, falsy } => {
            let predicate_n = to_aexpr(*predicate, arena);
            let ghost s0 = arena@;
            let truthy_n = to_aexpr(*truthy, arena);
            let ghost s1 = arena@;
            let falsy_n = to_aexpr(*falsy, arena);
            let ghost s2 = arena@;
            let v = AExpr::Ternary { predicate: predicate_n, truthy: truthy_n, falsy: falsy_n };
            proof {
                lemma_lowered_trans(before, s0, s1);
                lemma_lowered_trans(before, s1, s2);
                assert(expr_at(s2, predicate_n.0 as int) == *predicate);
                assert(expr_at(s2, truthy_n.0 as int) == *truthy);
                assert(expr_at(s2, falsy_n.0 as int) == *falsy);
                lemma_append_slot(before, s2, v);
                let a = s2.push(v);
                lemma_expr_laid_out_agree(s0, a, before.len() as int, predicate_n.0 as int);
                lemma_expr_laid_out_agree(s1, a, s0.len() as int, truthy_n.0 as int);
                lemma_expr_laid_out_agree(s2, a, s1.len() as int, falsy_n.0 as int);
                assert(expr_at(a, predicate_n.0 as int) == *predicate);
                assert(expr_at(a, truthy_n.0 as int) == *truthy);
                assert(expr_at(a, falsy_n.0 as int) == *falsy);
                assert(a[s2.len() as int] == v);
                assert(expr_at(a, s2.len() as int) == Expr::Ternary { predicate, truthy, falsy });
            }
            arena.add(v)
        },
        Expr::Udf { input, function, output_type } => {
            let input_n = to_aexpr(*input, arena);
            let ghost s0 = arena@;
            let v = AExpr::Udf { input: input_n, function, output_type };
            proof {
                assert(expr_at(s0, input_n.0 as int) == *input);
                lemma_append_slot(before, s0, v);
                let a = s0.push(v);
                lemma_expr_laid_out_agree(s0, a, before.len() as int, input_n.0 as int);
                assert(expr_at(a, input_n.0 as int) == *input);
                assert(a[s0.len() as int] == v);
                assert(expr_at(a, s0.len() as int) == Expr::Udf { input, function, output_type });
            }
            arena.add(v)
        },
        Expr::BinaryFunction { input_a, input_b, function, output_field } => {
            let input_a_n = to_aexpr(*input_a, arena);
            let ghost s0 = arena@;
            let input_b_n = to_aexpr(*input_b, arena);
            let ghost s1 = arena@;
            let v = AExpr::BinaryFunction { input_a: input_a_n, input_b: input_b_n, function, output_field };
            proof {
                lemma_lowered_trans(before, s0, s1);
                assert(expr_at(s1, input_a_n.0 as int) == *input_a);
                assert(expr_at(s1, input_b_n.0 as int) == *input_b);
                lemma_append_slot(before, s1, v);
                let a = s1.push(v);
                lemma_expr_laid_out_agree(s0, a, before.len() as int, input_a_n.0 as int);
                lemma_expr_laid_out_agree(s1, a, s0.len() as int, input_b_n.0 as int);
                assert(expr_at(a, input_a_n.0 as int) == *input_a);
                assert(expr_at(a, input_b_n.0 as int) == *input_b);
                assert(a[s1.len() as int] == v);
                assert(expr_at(a, s1.len() as int) == Expr::BinaryFunction { input_a, input_b, function, output_field });
            }
            arena.add(v)
        },
        Expr::Shift { input, periods } => {
            let input_n = to_aexpr(*input, arena);
            let ghost s0 = arena@;
            let v = AExpr::Shift { input: input_n, periods };
            proof {
                assert(expr_at(s0, input_n.0 as int) == *input);
                lemma_append_slot(before, s0, v);
                let a = s0.push(v);
                lemma_expr_laid_out_agree(s0, a, before.len() as int, input_n.0 as int);
                assert(expr_at(a, input_n.0 as int) == *input);
                assert(a[s0.len() as int] == v);
                assert(expr_at(a, s0.len() as int) == Expr::Shift { input, periods });
            }
            arena.add(v)
        },
        Expr::Window { function, partition_by, order_by } => {
            let function_n = to_aexpr(*function, arena);
            let ghost s0 = arena@;
            let partition_by_n = to_aexpr(*partition_by, arena);
            let ghost s1 = arena@;
            let order_by_n = match order_by { Some(c) => Some(to_aexpr(*c, arena)), None => None };
            let ghost s2 = arena@;
            let v = AExpr::Window { function: function_n, partition_by: partition_by_n, order_by: order_by_n };
            proof {
                lemma_lowered_trans(before, s0, s1);
                lemma_lowered_trans(before, s1, s2);
                assert(expr_at(s2, function_n.0 as int) == *function);
                assert(expr_at(s2, partition_by_n.0 as int) == *partition_by);
                match order_by_n { Some(c) => { assert(expr_at(s2, c.0 as int) == expr_at(s2, c.0 as int)); }, None => {} }
                lemma_append_slot(before, s2, v);
                let a = s2.push(v);
                lemma_expr_laid_out_agree(s0, a, before.len() as int, function_n.0 as int);
                lemma_expr_laid_out_agree(s1, a, s0.len() as int, partition_by_n.0 as int);
                match order_by_n { Some(c) => { lemma_expr_laid_out_agree(s2, a, s1.len() as int, c.0 as int); }, None => {} }
                assert(expr_at(a, function_n.0 as int) == *function);
                assert(expr_at(a, partition_by_n.0 as int) == *partition_by);
                match order_by_n { Some(c) => { assert(expr_at(a, c.0 as int) == expr_at(s2, c.0 as int)); }, None => {} }
                assert(a[s2.len() as int] == v);
                assert(expr_at(a, s2.len() as int) == Expr::Window { function, partition_by, order_by });
            }
            arena.add(v)
        },
        Expr::Slice { input, offset, length } => {
            let input_n = to_aexpr(*input, arena);
            let ghost s0 = arena@;
            let v = AExpr::Slice { input: input_n, offset, length };
            proof {
                assert(expr_at(s0, input_n.0 as int) == *input);
                lemma_append_slot(before, s0, v);
                let a = s0.push(v);
                lemma_expr_laid_out_agree(s0, a, before.len() as int, input_n.0 as int);
                assert(expr_at(a, input_n.0 as int) == *input);
                assert(a[s0.len() as int] == v);
                assert(expr_at(a, s0.len() as int) == Expr::Slice { input, offset, length });
            }
            arena.add(v)
        },
        Expr::Wildcard => {
            let v = AExpr::Wildcard;
            proof {
                lemma_lowered_refl(before);
                lemma_append_slot(before, before, v);
                let a = before.push(v);
                assert(a[before.len() as int] == v);
                assert(expr_at(a, before.len() as int) == Expr::Wildcard);
            }
            arena.add(v)
        },
        Expr::Except(x0) => {
            let x0_n = to_aexpr(*x0, arena);
            let ghost s0 = arena@;
            let v = AExpr::Except(x0_n);
            proof {
                assert(expr_at(s0, x0_n.0 as int) == *x0);
                lemma_append_slot(before, s0, v);
                let a = s0.push(v);
                lemma_expr_laid_out_agree(s0, a, before.len() as int, x0_n.0 as int);
                assert(expr_at(a, x0_n.0 as int) == *x0);
                assert(a[s0.len() as int] == v);
                assert(expr_at(a, s0.len() as int) == Expr::Except(x0));
            }
            arena.add(v)
        },
    }
}

/// Lowers an aggregation into `arena`, children first; its own slot comes last.
#[verifier::rlimit(100)]
pub fn agg_to_aexpr(agg: AggExpr, arena: &mut Arena<AExpr>) -> (r: Node)
    ensures
        old(arena)@.len() <= r.0,
        r.0 + 1 == final(arena)@.len(),
        final(arena)@.len() == old(arena)@.len() + expr_size(Expr::Agg(agg)),
        expr_laid_out(final(arena)@, old(arena)@.len() as int, r.0 as int),
        lowered_from(final(arena)@, old(arena)@),
        expr_at(final(arena)@, r.0 as int) == Expr::Agg(agg),
    decreases agg, 0int,
{
    let ghost before = arena@;
    match agg {
        AggExpr::Min(x0) => {
            let x0_n = to_aexpr(*x0, arena);
            let ghost s0 = arena@;
            let v = AExpr::Agg(AAggExpr::Min(x0_n));
            proof {
                assert(expr_at(s0, x0_n.0 as int) == *x0);
                lemma_append_slot(before, s0, v);
                let a = s0.push(v);
                lemma_expr_laid_out_agree(s0, a, before.len() as int, x0_n.0 as int);
                assert(expr_at(a, x0_n.0 as int) == *x0);
                assert(a[s0.len() as int] == v);
                assert(expr_at(a, s0.len() as int) == Expr::Agg(AggExpr::Min(x0)));
            }
            arena.add(v)
        },
        AggExpr::Max(x0) => {
            let x0_n = to_aexpr(*x0, arena);
            let ghost s0 = arena@;
            let v = AExpr::Agg(AAggExpr::Max(x0_n));
            proof {
                assert(expr_at(s0, x0_n.0 as int) == *x0);
                lemma_append_slot(before, s0, v);
                let a = s0.push(v);
                lemma_expr_laid_out_agree(s0, a, before.len() as int, x0_n.0 as int);
                assert(expr_at(a, x0_n.0 as int) == *x0);
                assert(a[s0.len() as int] == v);
                assert(expr_at(a, s0.len() as int) == Expr::Agg(AggExpr::Max(x0)));
            }
            arena.add(v)
        },
        AggExpr::Median(x0) => {
            let x0_n = to_aexpr(*x0, arena);
            let ghost s0 = arena@;
            let v = AExpr::Agg(AAggExpr::Median(x0_n));
            proof {
                assert(expr_at(s0, x0_n.0 as int) == *x0);
                lemma_append_slot(before, s0, v);
                let a = s0.push(v);
                lemma_expr_laid_out_agree(s0, a, before.len() as int, x0_n.0 as int);
                assert(expr_at(a, x0_n.0 as int) == *x0);
                assert(a[s0.len() as int] == v);
                assert(expr_at(a, s0.len() as int) == Expr::Agg(AggExpr::Median(x0)));
            }
            arena.add(v)
        },
        AggExpr::NUnique(x0) => {
            let x0_n = to_aexpr(*x0, arena);
            let ghost s0 = arena@;
            let v = AExpr::Agg(AAggExpr::NUnique(x0_n));
            proof {
                assert(expr_at(s0, x0_n.0 as int) == *x0);
                lemma_append_slot(before, s0, v);
                let a = s0.push(v);
                lemma_expr_laid_out_agree(s0, a, before.len() as int, x0_n.0 as int);
                assert(expr_at(a, x0_n.0 as int) == *x0);
                assert(a[s0.len() as int] == v);
                assert(expr_at(a, s0.len() as int) == Expr::Agg(AggExpr::NUnique(x0)));
            }
            arena.add(v)
        },
        AggExpr::First(x0) => {
            let x0_n = to_aexpr(*x0, arena);
            let ghost s0 = arena@;
            let v = AExpr::Agg(AAggExpr::First(x0_n));
            proof {
                assert(expr_at(s0, x0_n.0 as int) == *x0);
                lemma_append_slot(before, s0, v);
                let a = s0.push(v);
                lemma_expr_laid_out_agree(s0, a, before.len() as int, x0_n.0 as int);
                assert(expr_at(a, x0_n.0 as int) == *x0);
                assert(a[s0.len() as int] == v);
                assert(expr_at(a, s0.len() as int) == Expr::Agg(AggExpr::First(x0)));
            }
            arena.add(v)
        },
        AggExpr::Last(x0) => {
            let x0_n = to_aexpr(*x0, arena);
            let ghost s0 = arena@;
            let v = AExpr::Agg(AAggExpr::Last(x0_n));
            proof {
                assert(expr_at(s0, x0_n.0 as int) == *x0);
                lemma_append_slot(before, s0, v);
                let a = s0.push(v);
                lemma_expr_laid_out_agree(s0, a, before.len() as int, x0_n.0 as int);
                assert(expr_at(a, x0_n.0 as int) == *x0);
                assert(a[s0.len() as int] == v);
                assert(expr_at(a, s0.len() as int) == Expr::Agg(AggExpr::Last(x0)));
            }
            arena.add(v)
        },
        AggExpr::Mean(x0) => {
            let x0_n = to_aexpr(*x0, arena);
            let ghost s0 = arena@;
            let v = AExpr::Agg(AAggExpr::Mean(x0_n));
            proof {
                assert(expr_at(s0, x0_n.0 as int) == *x0);
                lemma_append_slot(before, s0, v);
                let a = s0.push(v);
                lemma_expr_laid_out_agree(s0, a, before.len() as int, x0_n.0 as int);
                assert(expr_at(a, x0_n.0 as int) == *x0);
                assert(a[s0.len() as int] == v);
                assert(expr_at(a, s0.len() as int) == Expr::Agg(AggExpr::Mean(x0)));
            }
            arena.add(v)
        },
        AggExpr::List(x0) => {
            let x0_n = to_aexpr(*x0, arena);
            let ghost s0 = arena@;
            let v = AExpr::Agg(AAggExpr::List(x0_n));
            proof {
                assert(expr_at(s0, x0_n.0 as int) == *x0);
                lemma_append_slot(before, s0, v);
                let a = s0.push(v);
                lemma_expr_laid_out_agree(s0, a, before.len() as int, x0_n.0 as int);
                assert(expr_at(a, x0_n.0 as int) == *x0);
                assert(a[s0.len() as int] == v);
                assert(expr_at(a, s0.len() as int) == Expr::Agg(AggExpr::List(x0)));
            }
            arena.add(v)
        },
        AggExpr::Count(x0) => {
            let x0_n = to_aexpr(*x0, arena);
            let ghost s0 = arena@;
            let v = AExpr::Agg(AAggExpr::Count(x0_n));
            proof {
                assert(expr_at(s0, x0_n.0 as int) == *x0);
                lemma_append_slot(before, s0, v);
                let a = s0.push(v);
                lemma_expr_laid_out_agree(s0, a, before.len() as int, x0_n.0 as int);
                assert(expr_at(a, x0_n.0 as int) == *x0);
                assert(a[s0.len() as int] == v);
                assert(expr_at(a, s0.len() as int) == Expr::Agg(AggExpr::Count(x0)));
            }
            arena.add(v)
        },
        AggExpr::Quantile { expr, quantile } => {
            let expr_n = to_aexpr(*expr, arena);
            let ghost s0 = arena@;
            let v = AExpr::Agg(AAggExpr::Quantile { expr: expr_n, quantile });
            proof {
                assert(expr_at(s0, expr_n.0 as int) == *expr);
                lemma_append_slot(before, s0, v);
                let a = s0.push(v);
                lemma_expr_laid_out_agree(s0, a, before.len() as int, expr_n.0 as int);
                assert(expr_at(a, expr_n.0 as int) == *expr);
                assert(a[s0.len() as int] == v);
                assert(expr_at(a, s0.len() as int) == Expr::Agg(AggExpr::Quantile { expr, quantile }));
            }
            arena.add(v)
        },
        AggExpr::Sum(x0) => {
            let x0_n = to_aexpr(*x0, arena);
            let ghost s0 = arena@;
            let v = AExpr::Agg(AAggExpr::Sum(x0_n));
            proof {
                assert(expr_at(s0, x0_n.0 as int) == *x0);
                lemma_append_slot(before, s0, v);
                let a = s0.push(v);
                lemma_expr_laid_out_agree(s0, a, before.len() as int, x0_n.0 as int);
                assert(expr_at(a, x0_n.0 as int) == *x0);
                assert(a[s0.len() as int] == v);
                assert(expr_at(a, s0.len() as int) == Expr::Agg(AggExpr::Sum(x0)));
            }
            arena.add(v)
        },
        AggExpr::Std(x0) => {
            let x0_n = to_aexpr(*x0, arena);
            let ghost s0 = arena@;
            let v = AExpr::Agg(AAggExpr::Std(x0_n));
            proof {
                assert(expr_at(s0, x0_n.0 as int) == *x0);
                lemma_append_slot(before, s0, v);
                let a = s0.push(v);
                lemma_expr_laid_out_agree(s0, a, before.len() as int, x0_n.0 as int);
                assert(expr_at(a, x0_n.0 as int) == *x0);
                assert(a[s0.len() as int] == v);
                assert(expr_at(a, s0.len() as int) == Expr::Agg(AggExpr::Std(x0)));
            }
            arena.add(v)
        },
        AggExpr::Var(x0) => {
            let x0_n = to_aexpr(*x0, arena);
            let ghost s0 = arena@;
            let v = AExpr::Agg(AAggExpr::Var(x0_n));
            proof {
                assert(expr_at(s0, x0_n.0 as int) == *x0);
                lemma_append_slot(before, s0, v);
                let a = s0.push(v);
                lemma_expr_laid_out_agree(s0, a, before.len() as int, x0_n.0 as int);
                assert(expr_at(a, x0_n.0 as int) == *x0);
                assert(a[s0.len() as int] == v);
                assert(expr_at(a, s0.len() as int) == Expr::Agg(AggExpr::Var(x0)));
            }
            arena.add(v)
        },
        AggExpr::AggGroups(x0) => {
            let x0_n = to_aexpr(*x0, arena);
            let ghost s0 = arena@;
            let v = AExpr::Agg(AAggExpr::AggGroups(x0_n));
            proof {
                assert(expr_at(s0, x0_n.0 as int) == *x0);
                lemma_append_slot(before, s0, v);
                let a = s0.push(v);
                lemma_expr_laid_out_agree(s0, a, before.len() as int, x0_n.0 as int);
                assert(expr_at(a, x0_n.0 as int) == *x0);
                assert(a[s0.len() as int] == v);
                assert(expr_at(a, s0.len() as int) == Expr::Agg(AggExpr::AggGroups(x0)));
            }
            arena.add(v)
        },
    }
}

/// Reads the expression at `node` back as a tree. The arena is left as it is,
/// so reading the same node again gives the same tree.
#[verifier::rlimit(100)]
pub fn node_to_exp(node: Node, expr_arena: &Arena<AExpr>) -> (r: Expr)
    requires
        node.0 < expr_arena@.len(),
        expr_arena_wf(expr_arena@),
    ensures
        r == expr_at(expr_arena@, node.0 as int),
    decreases node.0, 1int,
{
    proof {
        assert(aexpr_children_within(expr_arena@[node.0 as int], 0, node.0 as int));
    }
    match expr_arena.get(node) {
        AExpr::IsUnique(x0) => Expr::IsUnique(Box::new(node_to_exp(*x0, expr_arena))),
        AExpr::Duplicated(x0) => Expr::Duplicated(Box::new(node_to_exp(*x0, expr_arena))),
        AExpr::Reverse(x0) => Expr::Reverse(Box::new(node_to_exp(*x0, expr_arena))),
        AExpr::Explode(x0) => Expr::Explode(Box::new(node_to_exp(*x0, expr_arena))),
        AExpr::Alias(x0, x1) => Expr::Alias(Box::new(node_to_exp(*x0, expr_arena)), x1.clone()),
        AExpr::Literal(x0) => Expr::Literal(x0.duplicate()),
        AExpr::Column(x0) => Expr::Column(x0.clone()),
        AExpr::BinaryExpr { left, op, right } => Expr::BinaryExpr { left: Box::new(node_to_exp(*left, expr_arena)), op: *op, right: Box::new(node_to_exp(*right, expr_arena)) },
        AExpr::Not(x0) => Expr::Not(Box::new(node_to_exp(*x0, expr_arena))),
        AExpr::IsNotNull(x0) => Expr::IsNotNull(Box::new(node_to_exp(*x0, expr_arena))),
        AExpr::IsNull(x0) => Expr::IsNull(Box::new(node_to_exp(*x0, expr_arena))),
        AExpr::Cast { expr, data_type } => Expr::Cast { expr: Box::new(node_to_exp(*expr, expr_arena)), data_type: *data_type },
        AExpr::Sort { expr, reverse } => Expr::Sort { expr: Box::new(node_to_exp(*expr, expr_arena)), reverse: *reverse },
        AExpr::SortBy { expr, by, reverse } => Expr::SortBy { expr: Box::new(node_to_exp(*expr, expr_arena)), by: Box::new(node_to_exp(*by, expr_arena)), reverse: *reverse },
        AExpr::Filter { input, by } => Expr::Filter { input: Box::new(node_to_exp(*input, expr_arena)), by: Box::new(node_to_exp(*by, expr_arena)) },
        AExpr::Agg(g) => Expr::Agg(node_to_agg(node, g, expr_arena)),
        AExpr::Ternary { predicate, truthy, falsy } => Expr::Ternary { predicate: Box::new(node_to_exp(*predicate, expr_arena)), truthy: Box::new(node_to_exp(*truthy, expr_arena)), falsy: Box::new(node_to_exp(*falsy, expr_arena)) },
        AExpr::Udf { input, function, output_type } => Expr::Udf { input: Box::new(node_to_exp(*input, expr_arena)), function: *function, output_type: *output_type },
        AExpr::BinaryFunction { input_a, input_b, function, output_field } => Expr::BinaryFunction { input_a: Box::new(node_to_exp(*input_a, expr_arena)), input_b: Box::new(node_to_exp(*input_b, expr_arena)), function: *function, output_field: output_field.duplicate() },
        AExpr::Shift { input, periods } => Expr::Shift { input: Box::new(node_to_exp(*input, expr_arena)), periods: *periods },
        AExpr::Window { function, partition_by, order_by } => Expr::Window { function: Box::new(node_to_exp(*function, expr_arena)), partition_by: Box::new(node_to_exp(*partition_by, expr_arena)), order_by: match order_by { Some(c) => Some(Box::new(node_to_exp(*c, expr_arena))), None => None } },
        AExpr::Slice { input, offset, length } => Expr::Slice { input: Box::new(node_to_exp(*input, expr_arena)), offset: *offset, length: *length },
        AExpr::Wildcard => Expr::Wildcard,
        AExpr::Except(x0) => Expr::Except(Box::new(node_to_exp(*x0, expr_arena))),
    }
}

/// Reads back the aggregation `g` held by the slot at `node`.
#[verifier::rlimit(100)]
pub fn node_to_agg(node: Node, g: &AAggExpr, expr_arena: &Arena<AExpr>) -> (r: AggExpr)
    requires
        node.0 < expr_arena@.len(),
        expr_arena_wf(expr_arena@),
        expr_arena@[node.0 as int] == AExpr::Agg(*g),
    ensures
        Expr::Agg(r) == expr_at(expr_arena@, node.0 as int),
    decreases node.0, 0int,
{
    proof {
        assert(aexpr_children_within(expr_arena@[node.0 as int], 0, node.0 as int));
    }
    match g {
        AAggExpr::Min(x0) => AggExpr::Min(Box::new(node_to_exp(*x0, expr_arena))),
        AAggExpr::Max(x0) => AggExpr::Max(Box::new(node_to_exp(*x0, expr_arena))),
        AAggExpr::Median(x0) => AggExpr::Median(Box::new(node_to_exp(*x0, expr_arena))),
        AAggExpr::NUnique(x0) => AggExpr::NUnique(Box::new(node_to_exp(*x0, expr_arena))),
        AAggExpr::First(x0) => AggExpr::First(Box::new(node_to_exp(*x0, expr_arena))),
        AAggExpr::Last(x0) => AggExpr::Last(Box::new(node_to_exp(*x0, expr_arena))),
        AAggExpr::Mean(x0) => AggExpr::Mean(Box::new(node_to_exp(*x0, expr_arena))),
        AAggExpr::List(x0) => AggExpr::List(Box::new(node_to_exp(*x0, expr_arena))),
        AAggExpr::Count(x0) => AggExpr::Count(Box::new(node_to_exp(*x0, expr_arena))),
        AAggExpr::Quantile { expr, quantile } => AggExpr::Quantile { expr: Box::new(node_to_exp(*expr, expr_arena)), quantile: *quantile },
        AAggExpr::Sum(x0) => AggExpr::Sum(Box::new(node_to_exp(*x0, expr_arena))),
        AAggExpr::Std(x0) => AggExpr::Std(Box::new(node_to_exp(*x0, expr_arena))),
        AAggExpr::Var(x0) => AggExpr::Var(Box::new(node_to_exp(*x0, expr_arena))),
        AAggExpr::AggGroups(x0) => AggExpr::AggGroups(Box::new(node_to_exp(*x0, expr_arena))),
    }
}

} // verus!

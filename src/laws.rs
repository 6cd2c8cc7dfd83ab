use vstd::prelude::*;

use crate::arena::Node;
use crate::expr::{aexpr_children_within, expr_arena_wf, expr_at, AExpr, Expr};
use crate::plan::{
    alp_inputs_within, is_alp_placeholder, is_plan_placeholder, lemma_plan_matches_unique,
    plan_arena_wf, plan_matches, plan_tree, same_plan, ALogicalPlan, LogicalPlan,
};

verus! {

/// Reading back the root that lowering `e` returned gives `e` again:
/// `to_aexpr` leaves `expr_at(after, root) == e` and `node_to_exp` returns
/// `expr_at(after, root)`.
pub proof fn lemma_expr_round_trip(after: Seq<AExpr>, root: Node, e: Expr, read: Expr)
    requires
        root.0 < after.len(),
        expr_at(after, root.0 as int) == e,
        read == expr_at(after, root.0 as int),
    ensures
        read == e,
{
}

/// Reading back the root that lowering `p` returned gives a plan structurally
/// equal to `p`: `to_alp` leaves a tree at the root that stands for `p`, and on
/// a tree `node_to_lp` returns a plan that the root stands for.
pub proof fn lemma_plan_round_trip(
    pa: Seq<ALogicalPlan>,
    ea: Seq<AExpr>,
    root: Node,
    p: LogicalPlan,
    read: LogicalPlan,
)
    requires
        plan_tree(pa, root.0 as int),
        plan_matches(pa, ea, root.0 as int, p),
        plan_matches(pa, ea, root.0 as int, read),
    ensures
        same_plan(read, p),
{
    lemma_plan_matches_unique(pa, ea, root.0 as int, read, p);
}

/// In a well-formed expression arena every child handle of a slot is smaller
/// than the slot's own handle.
pub proof fn lemma_expr_children_precede(ea: Seq<AExpr>, n: int)
    requires
        expr_arena_wf(ea),
        0 <= n < ea.len(),
    ensures
        aexpr_children_within(ea[n], 0, n),
{
}

/// In a well-formed plan arena every input handle of a slot is smaller than the
/// slot's own handle.
pub proof fn lemma_plan_inputs_precede(pa: Seq<ALogicalPlan>, ea_len: int, n: int)
    requires
        plan_arena_wf(pa, ea_len),
        0 <= n < pa.len(),
    ensures
        alp_inputs_within(pa[n], 0, n),
{
}

/// Reading a plan slot twice: the first read took the slot's real plan and
/// left a placeholder, so the second read gives the placeholder plan, which
/// differs from what the first read gave.
pub proof fn lemma_plan_read_twice(
    before: Seq<ALogicalPlan>,
    between: Seq<ALogicalPlan>,
    ea: Seq<AExpr>,
    n: int,
    first: LogicalPlan,
    second: LogicalPlan,
)
    requires
        !is_alp_placeholder(before[n]),
        plan_matches(before, ea, n, first),
        is_alp_placeholder(between[n]),
        is_alp_placeholder(between[n]) ==> is_plan_placeholder(second),
    ensures
        is_plan_placeholder(second),
        !is_plan_placeholder(first),
        !same_plan(first, second),
{
}

/// Reading an expression slot twice, with no change to the arena in between,
/// gives equal trees: `node_to_exp` returns `expr_at(ea, n)` and leaves the
/// arena as it is.
pub proof fn lemma_expr_read_twice(ea: Seq<AExpr>, n: int, first: Expr, second: Expr)
    requires
        first == expr_at(ea, n),
        second == expr_at(ea, n),
    ensures
        first == second,
{
}

} // verus!

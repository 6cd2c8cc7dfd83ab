use vstd::prelude::*;

use crate::arena::{Arena, Node};
use crate::expr::{
    expr_arena_wf, expr_at, expr_laid_out, expr_size, extends, lemma_expr_laid_out_agree, opt_node_within, lemma_lowered_refl, lemma_lowered_trans, lowered_from,
    node_to_exp, to_aexpr, AExpr, Expr,
};
use crate::types::{DataFrame, FunctionRef, JoinType, Schema};

verus! {

/// Query plan, owning its inputs and the expressions embedded in it.
#[derive(Debug, PartialEq)]
pub enum LogicalPlan {
    /// Keeps the rows for which `predicate` holds.
    Selection { input: Box<LogicalPlan>, predicate: Expr },
    /// Keeps `len` rows starting at row `offset`.
    Slice { input: Box<LogicalPlan>, offset: usize, len: usize },
    /// Unpivots `value_vars` into rows, keeping `id_vars`.
    Melt { input: Box<LogicalPlan>, id_vars: Vec<String>, value_vars: Vec<String>, schema: Schema },
    /// Scan of a delimited text file.
    CsvScan {
        path: String,
        schema: Schema,
        has_header: bool,
        delimiter: u8,
        ignore_errors: bool,
        skip_rows: usize,
        stop_after_n_rows: Option<usize>,
        with_columns: Option<Vec<String>>,
        predicate: Option<Expr>,
        aggregate: Vec<Expr>,
        cache: bool,
    },
    /// Scan of a columnar file.
    ParquetScan {
        path: String,
        schema: Schema,
        with_columns: Option<Vec<String>>,
        predicate: Option<Expr>,
        aggregate: Vec<Expr>,
        stop_after_n_rows: Option<usize>,
        cache: bool,
    },
    /// Scan of an in-memory frame.
    DataFrameScan {
        df: DataFrame,
        schema: Schema,
        projection: Option<Vec<Expr>>,
        selection: Option<Expr>,
    },
    /// Selects or computes columns; open to pushdown.
    Projection { expr: Vec<Expr>, input: Box<LogicalPlan>, schema: Schema },
    /// Selects or computes columns; kept where it stands.
    LocalProjection { expr: Vec<Expr>, input: Box<LogicalPlan>, schema: Schema },
    /// Sorts by one column.
    Sort { input: Box<LogicalPlan>, by_column: String, reverse: bool },
    /// Turns list elements of `columns` into rows.
    Explode { input: Box<LogicalPlan>, columns: Vec<String> },
    /// Marks its input to be evaluated once and reused.
    Cache { input: Box<LogicalPlan> },
    /// Grouped aggregation by `keys`.
    Aggregate {
        input: Box<LogicalPlan>,
        keys: Vec<Expr>,
        aggs: Vec<Expr>,
        schema: Schema,
        apply: Option<FunctionRef>,
    },
    /// Equality join of two inputs.
    Join {
        input_left: Box<LogicalPlan>,
        input_right: Box<LogicalPlan>,
        schema: Schema,
        how: JoinType,
        left_on: Vec<Expr>,
        right_on: Vec<Expr>,
        allow_par: bool,
        force_par: bool,
    },
    /// Adds computed columns.
    HStack { input: Box<LogicalPlan>, exprs: Vec<Expr>, schema: Schema },
    /// Removes duplicate rows, optionally over `subset` only.
    Distinct { input: Box<LogicalPlan>, maintain_order: bool, subset: Option<Vec<String>> },
    /// Plan transformation supplied by the user.
    Udf {
        input: Box<LogicalPlan>,
        function: FunctionRef,
        projection_pd: bool,
        predicate_pd: bool,
        schema: Schema,
    },
}

/// Arena form of `LogicalPlan`: inputs are `Node`s of the plan arena, embedded
/// expressions are `Node`s of the expression arena.
#[derive(Debug, PartialEq)]
pub enum ALogicalPlan {
    Selection { input: Node, predicate: Node },
    Slice { input: Node, offset: usize, len: usize },
    Melt { input: Node, id_vars: Vec<String>, value_vars: Vec<String>, schema: Schema },
    CsvScan {
        path: String,
        schema: Schema,
        has_header: bool,
        delimiter: u8,
        ignore_errors: bool,
        skip_rows: usize,
        stop_after_n_rows: Option<usize>,
        with_columns: Option<Vec<String>>,
        predicate: Option<Node>,
        aggregate: Vec<Node>,
        cache: bool,
    },
    ParquetScan {
        path: String,
        schema: Schema,
        with_columns: Option<Vec<String>>,
        predicate: Option<Node>,
        aggregate: Vec<Node>,
        stop_after_n_rows: Option<usize>,
        cache: bool,
    },
    DataFrameScan {
        df: DataFrame,
        schema: Schema,
        projection: Option<Vec<Node>>,
        selection: Option<Node>,
    },
    Projection { expr: Vec<Node>, input: Node, schema: Schema },
    LocalProjection { expr: Vec<Node>, input: Node, schema: Schema },
    Sort { input: Node, by_column: String, reverse: bool },
    Explode { input: Node, columns: Vec<String> },
    Cache { input: Node },
    Aggregate {
        input: Node,
        keys: Vec<Node>,
        aggs: Vec<Node>,
        schema: Schema,
        apply: Option<FunctionRef>,
    },
    Join {
        input_left: Node,
        input_right: Node,
        schema: Schema,
        how: JoinType,
        left_on: Vec<Node>,
        right_on: Vec<Node>,
        allow_par: bool,
        force_par: bool,
    },
    HStack { input: Node, exprs: Vec<Node>, schema: Schema },
    Distinct { input: Node, maintain_order: bool, subset: Option<Vec<String>> },
    Udf {
        input: Node,
        function: FunctionRef,
        projection_pd: bool,
        predicate_pd: bool,
        schema: Schema,
    },
}

/// Every node of `v` lies in `[lo, hi)`.
pub open spec fn nodes_within(v: Seq<Node>, lo: int, hi: int) -> bool {
    forall|k: int| 0 <= k < v.len() ==> lo <= #[trigger] v[k].0 < hi
}

pub open spec fn opt_nodes_within(o: Option<Vec<Node>>, lo: int, hi: int) -> bool {
    match o {
        Some(v) => nodes_within(v@, lo, hi),
        None => true,
    }
}

/// Slot `n` of `ea` stands for `e`.
pub open spec fn expr_is(ea: Seq<AExpr>, n: Node, e: Expr) -> bool {
    n.0 < ea.len() && expr_at(ea, n.0 as int) == e
}

pub open spec fn opt_expr_is(ea: Seq<AExpr>, o: Option<Node>, e: Option<Expr>) -> bool {
    match (o, e) {
        (Some(n), Some(x)) => expr_is(ea, n, x),
        (None, None) => true,
        _ => false,
    }
}

/// The slots listed in `v` stand for the expressions of `es`, in order.
pub open spec fn exprs_are(ea: Seq<AExpr>, v: Seq<Node>, es: Seq<Expr>) -> bool {
    v.len() == es.len() && forall|k: int| 0 <= k < v.len() ==> expr_is(ea, #[trigger] v[k], es[k])
}

pub open spec fn opt_exprs_are(ea: Seq<AExpr>, o: Option<Vec<Node>>, e: Option<Vec<Expr>>) -> bool {
    match (o, e) {
        (Some(v), Some(es)) => exprs_are(ea, v@, es@),
        (None, None) => true,
        _ => false,
    }
}

pub open spec fn opt_exprs_same(a: Option<Vec<Expr>>, b: Option<Vec<Expr>>) -> bool {
    match (a, b) {
        (Some(x), Some(y)) => x@ == y@,
        (None, None) => true,
        _ => false,
    }
}

/// Every input of `p` lies in `[lo, hi)` of the plan arena.
pub open spec fn alp_inputs_within(p: ALogicalPlan, lo: int, hi: int) -> bool {
    match p {
        ALogicalPlan::Selection { input, .. } => lo <= input.0 < hi,
        ALogicalPlan::Slice { input, .. } => lo <= input.0 < hi,
        ALogicalPlan::Melt { input, .. } => lo <= input.0 < hi,
        ALogicalPlan::CsvScan { .. } => true,
        ALogicalPlan::ParquetScan { .. } => true,
        ALogicalPlan::DataFrameScan { .. } => true,
        ALogicalPlan::Projection { input, .. } => lo <= input.0 < hi,
        ALogicalPlan::LocalProjection { input, .. } => lo <= input.0 < hi,
        ALogicalPlan::Sort { input, .. } => lo <= input.0 < hi,
        ALogicalPlan::Explode { input, .. } => lo <= input.0 < hi,
        ALogicalPlan::Cache { input } => lo <= input.0 < hi,
        ALogicalPlan::Aggregate { input, .. } => lo <= input.0 < hi,
        ALogicalPlan::Join { input_left, input_right, .. } => lo <= input_left.0 < hi && lo <= input_right.0 < hi,
        ALogicalPlan::HStack { input, .. } => lo <= input.0 < hi,
        ALogicalPlan::Distinct { input, .. } => lo <= input.0 < hi,
        ALogicalPlan::Udf { input, .. } => lo <= input.0 < hi,
    }
}

/// Every expression of `p` lies in `[lo, hi)` of the expression arena.
pub open spec fn alp_exprs_within(p: ALogicalPlan, lo: int, hi: int) -> bool {
    match p {
        ALogicalPlan::Selection { predicate, .. } => lo <= predicate.0 < hi,
        ALogicalPlan::Slice { .. } => true,
        ALogicalPlan::Melt { .. } => true,
        ALogicalPlan::CsvScan { predicate, aggregate, .. } => opt_node_within(predicate, lo, hi) && nodes_within(aggregate@, lo, hi),
        ALogicalPlan::ParquetScan { predicate, aggregate, .. } => opt_node_within(predicate, lo, hi) && nodes_within(aggregate@, lo, hi),
        ALogicalPlan::DataFrameScan { projection, selection, .. } => {
            &&& opt_nodes_within(projection, lo, hi)
            &&& opt_node_within(selection, lo, hi)
        },
        ALogicalPlan::Projection { expr, .. } => nodes_within(expr@, lo, hi),
        ALogicalPlan::LocalProjection { expr, .. } => nodes_within(expr@, lo, hi),
        ALogicalPlan::Sort { .. } => true,
        ALogicalPlan::Explode { .. } => true,
        ALogicalPlan::Cache { .. } => true,
        ALogicalPlan::Aggregate { keys, aggs, .. } => nodes_within(keys@, lo, hi) && nodes_within(aggs@, lo, hi),
        ALogicalPlan::Join { left_on, right_on, .. } => nodes_within(left_on@, lo, hi) && nodes_within(right_on@, lo, hi),
        ALogicalPlan::HStack { exprs, .. } => nodes_within(exprs@, lo, hi),
        ALogicalPlan::Distinct { .. } => true,
        ALogicalPlan::Udf { .. } => true,
    }
}

/// Post-order layout of a plan arena whose expressions live in an arena of
/// `ea_len` slots: inputs lie strictly below each slot.
pub open spec fn plan_arena_wf(pa: Seq<ALogicalPlan>, ea_len: int) -> bool {
    forall|i: int| 0 <= i < pa.len() ==> {
        &&& #[trigger] alp_inputs_within(pa[i], 0, i)
        &&& alp_exprs_within(pa[i], 0, ea_len)
    }
}

/// `pa` is `before` with fresh plans appended, children first, whose
/// expressions were appended to the expression arena in `[elo, ehi)`.
pub open spec fn plan_lowered_from(pa: Seq<ALogicalPlan>, before: Seq<ALogicalPlan>, elo: int, ehi: int) -> bool {
    &&& extends(pa, before)
    &&& forall|i: int| before.len() <= i < pa.len() ==> {
        &&& #[trigger] alp_inputs_within(pa[i], before.len() as int, i)
        &&& alp_exprs_within(pa[i], elo, ehi)
    }
}

/// The plan rooted at `n` occupies exactly the slots `[lo, n]`, each input's
/// subtree a contiguous block right below its parent, left input first: the
/// layout that lowering a tree produces, with no slot shared.
pub open spec fn plan_laid_out(pa: Seq<ALogicalPlan>, lo: int, n: int) -> bool
    decreases n - lo,
{
    0 <= lo <= n < pa.len() && match pa[n] {
        ALogicalPlan::Selection { input, .. } => {
            &&& input.0 == n - 1
            &&& lo <= input.0
            &&& plan_laid_out(pa, lo, input.0 as int)
        },
        ALogicalPlan::Slice { input, .. } => {
            &&& input.0 == n - 1
            &&& lo <= input.0
            &&& plan_laid_out(pa, lo, input.0 as int)
        },
        ALogicalPlan::Melt { input, .. } => {
            &&& input.0 == n - 1
            &&& lo <= input.0
            &&& plan_laid_out(pa, lo, input.0 as int)
        },
        ALogicalPlan::CsvScan { .. } => lo == n,
        ALogicalPlan::ParquetScan { .. } => lo == n,
        ALogicalPlan::DataFrameScan { .. } => lo == n,
        ALogicalPlan::Projection { input, .. } => {
            &&& input.0 == n - 1
            &&& lo <= input.0
            &&& plan_laid_out(pa, lo, input.0 as int)
        },
        ALogicalPlan::LocalProjection { input, .. } => {
            &&& input.0 == n - 1
            &&& lo <= input.0
            &&& plan_laid_out(pa, lo, input.0 as int)
        },
        ALogicalPlan::Sort { input, .. } => {
            &&& input.0 == n - 1
            &&& lo <= input.0
            &&& plan_laid_out(pa, lo, input.0 as int)
        },
        ALogicalPlan::Explode { input, .. } => {
            &&& input.0 == n - 1
            &&& lo <= input.0
            &&& plan_laid_out(pa, lo, input.0 as int)
        },
        ALogicalPlan::Cache { input } => {
            &&& input.0 == n - 1
            &&& lo <= input.0
            &&& plan_laid_out(pa, lo, input.0 as int)
        },
        ALogicalPlan::Aggregate { input, .. } => {
            &&& input.0 == n - 1
            &&& lo <= input.0
            &&& plan_laid_out(pa, lo, input.0 as int)
        },
        ALogicalPlan::Join { input_left, input_right, .. } => {
            &&& input_right.0 == n - 1
            &&& lo <= input_left.0 < input_right.0
            &&& plan_laid_out(pa, lo, input_left.0 as int)
            &&& plan_laid_out(pa, input_left.0 + 1, input_right.0 as int)
        },
        ALogicalPlan::HStack { input, .. } => {
            &&& input.0 == n - 1
            &&& lo <= input.0
            &&& plan_laid_out(pa, lo, input.0 as int)
        },
        ALogicalPlan::Distinct { input, .. } => {
            &&& input.0 == n - 1
            &&& lo <= input.0
            &&& plan_laid_out(pa, lo, input.0 as int)
        },
        ALogicalPlan::Udf { input, .. } => {
            &&& input.0 == n - 1
            &&& lo <= input.0
            &&& plan_laid_out(pa, lo, input.0 as int)
        },
    }
}

/// Slot `n` of `pa`, with the expressions it names in `ea`, stands for the plan `p`.
pub open spec fn plan_matches(pa: Seq<ALogicalPlan>, ea: Seq<AExpr>, n: int, p: LogicalPlan) -> bool
    decreases p,
{
    0 <= n < pa.len() && match p {
        LogicalPlan::Selection { input, predicate } => match pa[n] {
            ALogicalPlan::Selection { input: a_input, predicate: a_predicate } => {
                &&& plan_matches(pa, ea, a_input.0 as int, *input)
                &&& expr_is(ea, a_predicate, predicate)
            },
            _ => false,
        },
        LogicalPlan::Slice { input, offset, len } => match pa[n] {
            ALogicalPlan::Slice { input: a_input, offset: a_offset, len: a_len } => {
                &&& plan_matches(pa, ea, a_input.0 as int, *input)
                &&& a_offset == offset
                &&& a_len == len
            },
            _ => false,
        },
        LogicalPlan::Melt { input, id_vars, value_vars, schema } => match pa[n] {
            ALogicalPlan::Melt { input: a_input, id_vars: a_id_vars, value_vars: a_value_vars, schema: a_schema } => {
                &&& plan_matches(pa, ea, a_input.0 as int, *input)
                &&& a_id_vars == id_vars
                &&& a_value_vars == value_vars
                &&& a_schema == schema
            },
            _ => false,
        },
        LogicalPlan::CsvScan { path, schema, has_header, delimiter, ignore_errors, skip_rows, stop_after_n_rows, with_columns, predicate, aggregate, cache } => match pa[n] {
            ALogicalPlan::CsvScan { path: a_path, schema: a_schema, has_header: a_has_header, delimiter: a_delimiter, ignore_errors: a_ignore_errors, skip_rows: a_skip_rows, stop_after_n_rows: a_stop_after_n_rows, with_columns: a_with_columns, predicate: a_predicate, aggregate: a_aggregate, cache: a_cache } => {
                &&& a_path == path
                &&& a_schema == schema
                &&& a_has_header == has_header
                &&& a_delimiter == delimiter
                &&& a_ignore_errors == ignore_errors
                &&& a_skip_rows == skip_rows
                &&& a_stop_after_n_rows == stop_after_n_rows
                &&& a_with_columns == with_columns
                &&& opt_expr_is(ea, a_predicate, predicate)
                &&& exprs_are(ea, a_aggregate@, aggregate@)
                &&& a_cache == cache
            },
            _ => false,
        },
        LogicalPlan::ParquetScan { path, schema, with_columns, predicate, aggregate, stop_after_n_rows, cache } => match pa[n] {
            ALogicalPlan::ParquetScan { path: a_path, schema: a_schema, with_columns: a_with_columns, predicate: a_predicate, aggregate: a_aggregate, stop_after_n_rows: a_stop_after_n_rows, cache: a_cache } => {
                &&& a_path == path
                &&& a_schema == schema
                &&& a_with_columns == with_columns
                &&& opt_expr_is(ea, a_predicate, predicate)
                &&& exprs_are(ea, a_aggregate@, aggregate@)
                &&& a_stop_after_n_rows == stop_after_n_rows
                &&& a_cache == cache
            },
            _ => false,
        },
        LogicalPlan::DataFrameScan { df, schema, projection, selection } => match pa[n] {
            ALogicalPlan::DataFrameScan { df: a_df, schema: a_schema, projection: a_projection, selection: a_selection } => {
                &&& a_df == df
                &&& a_schema == schema
                &&& opt_exprs_are(ea, a_projection, projection)
                &&& opt_expr_is(ea, a_selection, selection)
            },
            _ => false,
        },
        LogicalPlan::Projection { expr, input, schema } => match pa[n] {
            ALogicalPlan::Projection { expr: a_expr, input: a_input, schema: a_schema } => {
                &&& exprs_are(ea, a_expr@, expr@)
                &&& plan_matches(pa, ea, a_input.0 as int, *input)
                &&& a_schema == schema
            },
            _ => false,
        },
        LogicalPlan::LocalProjection { expr, input, schema } => match pa[n] {
            ALogicalPlan::LocalProjection { expr: a_expr, input: a_input, schema: a_schema } => {
                &&& exprs_are(ea, a_expr@, expr@)
                &&& plan_matches(pa, ea, a_input.0 as int, *input)
                &&& a_schema == schema
            },
            _ => false,
        },
        LogicalPlan::Sort { input, by_column, reverse } => match pa[n] {
            ALogicalPlan::Sort { input: a_input, by_column: a_by_column, reverse: a_reverse } => {
                &&& plan_matches(pa, ea, a_input.0 as int, *input)
                &&& a_by_column == by_column
                &&& a_reverse == reverse
            },
            _ => false,
        },
        LogicalPlan::Explode { input, columns } => match pa[n] {
            ALogicalPlan::Explode { input: a_input, columns: a_columns } => plan_matches(pa, ea, a_input.0 as int, *input) && a_columns == columns,
            _ => false,
        },
        LogicalPlan::Cache { input } => match pa[n] {
            ALogicalPlan::Cache { input: a_input } => plan_matches(pa, ea, a_input.0 as int, *input),
            _ => false,
        },
        LogicalPlan::Aggregate { input, keys, aggs, schema, apply } => match pa[n] {
            ALogicalPlan::Aggregate { input: a_input, keys: a_keys, aggs: a_aggs, schema: a_schema, apply: a_apply } => {
                &&& plan_matches(pa, ea, a_input.0 as int, *input)
                &&& exprs_are(ea, a_keys@, keys@)
                &&& exprs_are(ea, a_aggs@, aggs@)
                &&& a_schema == schema
                &&& a_apply == apply
            },
            _ => false,
        },
        LogicalPlan::Join { input_left, input_right, schema, how, left_on, right_on, allow_par, force_par } => match pa[n] {
            ALogicalPlan::Join { input_left: a_input_left, input_right: a_input_right, schema: a_schema, how: a_how, left_on: a_left_on, right_on: a_right_on, allow_par: a_allow_par, force_par: a_force_par } => {
                &&& plan_matches(pa, ea, a_input_left.0 as int, *input_left)
                &&& plan_matches(pa, ea, a_input_right.0 as int, *input_right)
                &&& a_schema == schema
                &&& a_how == how
                &&& exprs_are(ea, a_left_on@, left_on@)
                &&& exprs_are(ea, a_right_on@, right_on@)
                &&& a_allow_par == allow_par
                &&& a_force_par == force_par
            },
            _ => false,
        },
        LogicalPlan::HStack { input, exprs, schema } => match pa[n] {
            ALogicalPlan::HStack { input: a_input, exprs: a_exprs, schema: a_schema } => {
                &&& plan_matches(pa, ea, a_input.0 as int, *input)
                &&& exprs_are(ea, a_exprs@, exprs@)
                &&& a_schema == schema
            },
            _ => false,
        },
        LogicalPlan::Distinct { input, maintain_order, subset } => match pa[n] {
            ALogicalPlan::Distinct { input: a_input, maintain_order: a_maintain_order, subset: a_subset } => {
                &&& plan_matches(pa, ea, a_input.0 as int, *input)
                &&& a_maintain_order == maintain_order
                &&& a_subset == subset
            },
            _ => false,
        },
        LogicalPlan::Udf { input, function, projection_pd, predicate_pd, schema } => match pa[n] {
            ALogicalPlan::Udf { input: a_input, function: a_function, projection_pd: a_projection_pd, predicate_pd: a_predicate_pd, schema: a_schema } => {
                &&& plan_matches(pa, ea, a_input.0 as int, *input)
                &&& a_function == function
                &&& a_projection_pd == projection_pd
                &&& a_predicate_pd == predicate_pd
                &&& a_schema == schema
            },
            _ => false,
        },
    }
}

/// Structural equality of plans; lists of expressions compare by their contents.
pub open spec fn same_plan(p: LogicalPlan, q: LogicalPlan) -> bool
    decreases p,
{
    match p {
        LogicalPlan::Selection { input, predicate } => match q {
            LogicalPlan::Selection { input: q_input, predicate: q_predicate } => same_plan(*input, *q_input) && predicate == q_predicate,
            _ => false,
        },
        LogicalPlan::Slice { input, offset, len } => match q {
            LogicalPlan::Slice { input: q_input, offset: q_offset, len: q_len } => {
                &&& same_plan(*input, *q_input)
                &&& offset == q_offset
                &&& len == q_len
            },
            _ => false,
        },
        LogicalPlan::Melt { input, id_vars, value_vars, schema } => match q {
            LogicalPlan::Melt { input: q_input, id_vars: q_id_vars, value_vars: q_value_vars, schema: q_schema } => {
                &&& same_plan(*input, *q_input)
                &&& id_vars == q_id_vars
                &&& value_vars == q_value_vars
                &&& schema == q_schema
            },
            _ => false,
        },
        LogicalPlan::CsvScan { path, schema, has_header, delimiter, ignore_errors, skip_rows, stop_after_n_rows, with_columns, predicate, aggregate, cache } => match q {
            LogicalPlan::CsvScan { path: q_path, schema: q_schema, has_header: q_has_header, delimiter: q_delimiter, ignore_errors: q_ignore_errors, skip_rows: q_skip_rows, stop_after_n_rows: q_stop_after_n_rows, with_columns: q_with_columns, predicate: q_predicate, aggregate: q_aggregate, cache: q_cache } => {
                &&& path == q_path
                &&& schema == q_schema
                &&& has_header == q_has_header
                &&& delimiter == q_delimiter
                &&& ignore_errors == q_ignore_errors
                &&& skip_rows == q_skip_rows
                &&& stop_after_n_rows == q_stop_after_n_rows
                &&& with_columns == q_with_columns
                &&& predicate == q_predicate
                &&& aggregate@ == q_aggregate@
                &&& cache == q_cache
            },
            _ => false,
        },
        LogicalPlan::ParquetScan { path, schema, with_columns, predicate, aggregate, stop_after_n_rows, cache } => match q {
            LogicalPlan::ParquetScan { path: q_path, schema: q_schema, with_columns: q_with_columns, predicate: q_predicate, aggregate: q_aggregate, stop_after_n_rows: q_stop_after_n_rows, cache: q_cache } => {
                &&& path == q_path
                &&& schema == q_schema
                &&& with_columns == q_with_columns
                &&& predicate == q_predicate
                &&& aggregate@ == q_aggregate@
                &&& stop_after_n_rows == q_stop_after_n_rows
                &&& cache == q_cache
            },
            _ => false,
        },
        LogicalPlan::DataFrameScan { df, schema, projection, selection } => match q {
            LogicalPlan::DataFrameScan { df: q_df, schema: q_schema, projection: q_projection, selection: q_selection } => {
                &&& df == q_df
                &&& schema == q_schema
                &&& opt_exprs_same(projection, q_projection)
                &&& selection == q_selection
            },
            _ => false,
        },
        LogicalPlan::Projection { expr, input, schema } => match q {
            LogicalPlan::Projection { expr: q_expr, input: q_input, schema: q_schema } => {
                &&& expr@ == q_expr@
                &&& same_plan(*input, *q_input)
                &&& schema == q_schema
            },
            _ => false,
        },
        LogicalPlan::LocalProjection { expr, input, schema } => match q {
            LogicalPlan::LocalProjection { expr: q_expr, input: q_input, schema: q_schema } => {
                &&& expr@ == q_expr@
                &&& same_plan(*input, *q_input)
                &&& schema == q_schema
            },
            _ => false,
        },
        LogicalPlan::Sort { input, by_column, reverse } => match q {
            LogicalPlan::Sort { input: q_input, by_column: q_by_column, reverse: q_reverse } => {
                &&& same_plan(*input, *q_input)
                &&& by_column == q_by_column
                &&& reverse == q_reverse
            },
            _ => false,
        },
        LogicalPlan::Explode { input, columns } => match q {
            LogicalPlan::Explode { input: q_input, columns: q_columns } => same_plan(*input, *q_input) && columns == q_columns,
            _ => false,
        },
        LogicalPlan::Cache { input } => match q {
            LogicalPlan::Cache { input: q_input } => same_plan(*input, *q_input),
            _ => false,
        },
        LogicalPlan::Aggregate { input, keys, aggs, schema, apply } => match q {
            LogicalPlan::Aggregate { input: q_input, keys: q_keys, aggs: q_aggs, schema: q_schema, apply: q_apply } => {
                &&& same_plan(*input, *q_input)
                &&& keys@ == q_keys@
                &&& aggs@ == q_aggs@
                &&& schema == q_schema
                &&& apply == q_apply
            },
            _ => false,
        },
        LogicalPlan::Join { input_left, input_right, schema, how, left_on, right_on, allow_par, force_par } => match q {
            LogicalPlan::Join { input_left: q_input_left, input_right: q_input_right, schema: q_schema, how: q_how, left_on: q_left_on, right_on: q_right_on, allow_par: q_allow_par, force_par: q_force_par } => {
                &&& same_plan(*input_left, *q_input_left)
                &&& same_plan(*input_right, *q_input_right)
                &&& schema == q_schema
                &&& how == q_how
                &&& left_on@ == q_left_on@
                &&& right_on@ == q_right_on@
                &&& allow_par == q_allow_par
                &&& force_par == q_force_par
            },
            _ => false,
        },
        LogicalPlan::HStack { input, exprs, schema } => match q {
            LogicalPlan::HStack { input: q_input, exprs: q_exprs, schema: q_schema } => {
                &&& same_plan(*input, *q_input)
                &&& exprs@ == q_exprs@
                &&& schema == q_schema
            },
            _ => false,
        },
        LogicalPlan::Distinct { input, maintain_order, subset } => match q {
            LogicalPlan::Distinct { input: q_input, maintain_order: q_maintain_order, subset: q_subset } => {
                &&& same_plan(*input, *q_input)
                &&& maintain_order == q_maintain_order
                &&& subset == q_subset
            },
            _ => false,
        },
        LogicalPlan::Udf { input, function, projection_pd, predicate_pd, schema } => match q {
            LogicalPlan::Udf { input: q_input, function: q_function, projection_pd: q_projection_pd, predicate_pd: q_predicate_pd, schema: q_schema } => {
                &&& same_plan(*input, *q_input)
                &&& function == q_function
                &&& projection_pd == q_projection_pd
                &&& predicate_pd == q_predicate_pd
                &&& schema == q_schema
            },
            _ => false,
        },
    }
}

/// The inert value a slot holds once its plan has been taken out: a scan of
/// an empty frame. One leaf value serves for every kind of plan because a
/// placeholder of the taken plan's own kind would keep input handles into
/// slots that may be taken too; a leaf keeps the slot indexable and reads back
/// as a well-defined plan without following any handle.
pub open spec fn is_alp_placeholder(p: ALogicalPlan) -> bool {
    match p {
        ALogicalPlan::DataFrameScan { df, schema, projection, selection } => {
            &&& df.columns@.len() == 0
            &&& schema.fields@.len() == 0
            &&& projection is None
            &&& selection is None
        },
        _ => false,
    }
}

/// The tree that a placeholder slot reads back as.
pub open spec fn is_plan_placeholder(p: LogicalPlan) -> bool {
    match p {
        LogicalPlan::DataFrameScan { df, schema, projection, selection } => {
            &&& df.columns@.len() == 0
            &&& schema.fields@.len() == 0
            &&& projection is None
            &&& selection is None
        },
        _ => false,
    }
}

impl ALogicalPlan {
    /// A scan of an empty frame with no projection or selection.
    pub fn placeholder() -> (r: Self)
        ensures
            is_alp_placeholder(r),
    {
        ALogicalPlan::DataFrameScan {
            df: DataFrame::empty(),
            schema: Schema::empty(),
            projection: None,
            selection: None,
        }
    }
}

/// Total number of nodes of the expressions in `es`.
pub open spec fn exprs_size(es: Seq<Expr>) -> nat
    decreases es.len(),
{
    if es.len() == 0 {
        0
    } else {
        exprs_size(es.drop_last()) + expr_size(es.last())
    }
}

pub open spec fn opt_expr_size(e: Option<Expr>) -> nat {
    match e {
        Some(x) => expr_size(x),
        None => 0,
    }
}

pub open spec fn opt_exprs_size(e: Option<Vec<Expr>>) -> nat {
    match e {
        Some(v) => exprs_size(v@),
        None => 0,
    }
}

/// The tree `e`, rooted at `n`, occupies exactly the block of slots that starts at `lo`.
pub open spec fn expr_block(ea: Seq<AExpr>, lo: int, n: Node, e: Expr) -> bool {
    expr_laid_out(ea, lo, n.0 as int) && n.0 + 1 == lo + expr_size(e)
}

pub open spec fn opt_expr_block(ea: Seq<AExpr>, lo: int, o: Option<Node>, e: Option<Expr>) -> bool {
    match (o, e) {
        (Some(n), Some(x)) => expr_block(ea, lo, n, x),
        (None, None) => true,
        _ => false,
    }
}

/// The trees of `es` occupy consecutive blocks from `lo` on, in order, rooted at `v`.
pub open spec fn exprs_blocks(ea: Seq<AExpr>, lo: int, v: Seq<Node>, es: Seq<Expr>) -> bool
    decreases v.len(),
{
    v.len() == es.len() && (v.len() == 0 || {
        &&& exprs_blocks(ea, lo, v.drop_last(), es.drop_last())
        &&& expr_block(ea, lo + exprs_size(es.drop_last()), v.last(), es.last())
    })
}

pub open spec fn opt_exprs_blocks(ea: Seq<AExpr>, lo: int, o: Option<Vec<Node>>, e: Option<Vec<Expr>>) -> bool {
    match (o, e) {
        (Some(v), Some(es)) => exprs_blocks(ea, lo, v@, es@),
        (None, None) => true,
        _ => false,
    }
}

pub proof fn lemma_expr_block_extends(ea1: Seq<AExpr>, ea2: Seq<AExpr>, lo: int, n: Node, e: Expr)
    requires
        expr_block(ea1, lo, n, e),
        extends(ea2, ea1),
    ensures
        expr_block(ea2, lo, n, e),
{
    lemma_expr_laid_out_agree(ea1, ea2, lo, n.0 as int);
}

pub proof fn lemma_exprs_blocks_extends(ea1: Seq<AExpr>, ea2: Seq<AExpr>, lo: int, v: Seq<Node>, es: Seq<Expr>)
    requires
        exprs_blocks(ea1, lo, v, es),
        extends(ea2, ea1),
    ensures
        exprs_blocks(ea2, lo, v, es),
    decreases v.len(),
{
    if v.len() > 0 {
        lemma_exprs_blocks_extends(ea1, ea2, lo, v.drop_last(), es.drop_last());
        lemma_expr_block_extends(ea1, ea2, lo + exprs_size(es.drop_last()), v.last(), es.last());
    }
}

pub proof fn lemma_opt_blocks_extends(
    ea1: Seq<AExpr>,
    ea2: Seq<AExpr>,
    lo: int,
    o: Option<Node>,
    e: Option<Expr>,
    ov: Option<Vec<Node>>,
    ev: Option<Vec<Expr>>,
)
    requires
        opt_expr_block(ea1, lo, o, e),
        opt_exprs_blocks(ea1, lo, ov, ev),
        extends(ea2, ea1),
    ensures
        opt_expr_block(ea2, lo, o, e),
        opt_exprs_blocks(ea2, lo, ov, ev),
{
    match (o, e) {
        (Some(n), Some(x)) => lemma_expr_block_extends(ea1, ea2, lo, n, x),
        _ => {},
    }
    match (ov, ev) {
        (Some(v), Some(es)) => lemma_exprs_blocks_extends(ea1, ea2, lo, v@, es@),
        _ => {},
    }
}

/// Total number of nodes of the expressions embedded anywhere in `p`.
pub open spec fn plan_expr_size(p: LogicalPlan) -> nat
    decreases p,
{
    match p {
        LogicalPlan::Selection { input, predicate } => plan_expr_size(*input) + expr_size(predicate),
        LogicalPlan::Slice { input, .. } => plan_expr_size(*input),
        LogicalPlan::Melt { input, .. } => plan_expr_size(*input),
        LogicalPlan::CsvScan { predicate, aggregate, .. } => opt_expr_size(predicate) + exprs_size(aggregate@),
        LogicalPlan::ParquetScan { predicate, aggregate, .. } => opt_expr_size(predicate) + exprs_size(aggregate@),
        LogicalPlan::DataFrameScan { projection, selection, .. } => opt_exprs_size(projection) + opt_expr_size(selection),
        LogicalPlan::Projection { expr, input, .. } => exprs_size(expr@) + plan_expr_size(*input),
        LogicalPlan::LocalProjection { expr, input, .. } => exprs_size(expr@) + plan_expr_size(*input),
        LogicalPlan::Sort { input, .. } => plan_expr_size(*input),
        LogicalPlan::Explode { input, .. } => plan_expr_size(*input),
        LogicalPlan::Cache { input } => plan_expr_size(*input),
        LogicalPlan::Aggregate { input, keys, aggs, .. } => plan_expr_size(*input) + exprs_size(keys@) + exprs_size(aggs@),
        LogicalPlan::Join { input_left, input_right, left_on, right_on, .. } => plan_expr_size(*input_left) + plan_expr_size(*input_right) + exprs_size(left_on@) + exprs_size(right_on@),
        LogicalPlan::HStack { input, exprs, .. } => plan_expr_size(*input) + exprs_size(exprs@),
        LogicalPlan::Distinct { input, .. } => plan_expr_size(*input),
        LogicalPlan::Udf { input, .. } => plan_expr_size(*input),
    }
}

/// The expressions embedded in the plan `p`, held by slot `n` of `pa`, occupy
/// consecutive blocks of `ea` from `elo` on, each expression one laid-out block,
/// in the order in which lowering visits them: fields in order, and within an
/// input the input's own expressions.
pub open spec fn plan_exprs_laid_out(pa: Seq<ALogicalPlan>, ea: Seq<AExpr>, n: int, p: LogicalPlan, elo: int) -> bool
    decreases p,
{
    0 <= n < pa.len() && match p {
        LogicalPlan::Selection { input, predicate } => match pa[n] {
            ALogicalPlan::Selection { input: a_input, predicate: a_predicate } => {
                &&& plan_exprs_laid_out(pa, ea, a_input.0 as int, *input, elo)
                &&& expr_block(ea, elo + plan_expr_size(*input), a_predicate, predicate)
            },
            _ => false,
        },
        LogicalPlan::Slice { input, .. } => match pa[n] {
            ALogicalPlan::Slice { input: a_input, .. } => plan_exprs_laid_out(pa, ea, a_input.0 as int, *input, elo),
            _ => false,
        },
        LogicalPlan::Melt { input, .. } => match pa[n] {
            ALogicalPlan::Melt { input: a_input, .. } => plan_exprs_laid_out(pa, ea, a_input.0 as int, *input, elo),
            _ => false,
        },
        LogicalPlan::CsvScan { predicate, aggregate, .. } => match pa[n] {
            ALogicalPlan::CsvScan { predicate: a_predicate, aggregate: a_aggregate, .. } => {
                &&& opt_expr_block(ea, elo, a_predicate, predicate)
                &&& exprs_blocks(ea, elo + opt_expr_size(predicate), a_aggregate@, aggregate@)
            },
            _ => false,
        },
        LogicalPlan::ParquetScan { predicate, aggregate, .. } => match pa[n] {
            ALogicalPlan::ParquetScan { predicate: a_predicate, aggregate: a_aggregate, .. } => {
                &&& opt_expr_block(ea, elo, a_predicate, predicate)
                &&& exprs_blocks(ea, elo + opt_expr_size(predicate), a_aggregate@, aggregate@)
            },
            _ => false,
        },
        LogicalPlan::DataFrameScan { projection, selection, .. } => match pa[n] {
            ALogicalPlan::DataFrameScan { projection: a_projection, selection: a_selection, .. } => {
                &&& opt_exprs_blocks(ea, elo, a_projection, projection)
                &&& opt_expr_block(ea, elo + opt_exprs_size(projection), a_selection, selection)
            },
            _ => false,
        },
        LogicalPlan::Projection { expr, input, .. } => match pa[n] {
            ALogicalPlan::Projection { expr: a_expr, input: a_input, .. } => {
                &&& exprs_blocks(ea, elo, a_expr@, expr@)
                &&& plan_exprs_laid_out(pa, ea, a_input.0 as int, *input, elo + exprs_size(expr@))
            },
            _ => false,
        },
        LogicalPlan::LocalProjection { expr, input, .. } => match pa[n] {
            ALogicalPlan::LocalProjection { expr: a_expr, input: a_input, .. } => {
                &&& exprs_blocks(ea, elo, a_expr@, expr@)
                &&& plan_exprs_laid_out(pa, ea, a_input.0 as int, *input, elo + exprs_size(expr@))
            },
            _ => false,
        },
        LogicalPlan::Sort { input, .. } => match pa[n] {
            ALogicalPlan::Sort { input: a_input, .. } => plan_exprs_laid_out(pa, ea, a_input.0 as int, *input, elo),
            _ => false,
        },
        LogicalPlan::Explode { input, .. } => match pa[n] {
            ALogicalPlan::Explode { input: a_input, .. } => plan_exprs_laid_out(pa, ea, a_input.0 as int, *input, elo),
            _ => false,
        },
        LogicalPlan::Cache { input } => match pa[n] {
            ALogicalPlan::Cache { input: a_input } => plan_exprs_laid_out(pa, ea, a_input.0 as int, *input, elo),
            _ => false,
        },
        LogicalPlan::Aggregate { input, keys, aggs, .. } => match pa[n] {
            ALogicalPlan::Aggregate { input: a_input, keys: a_keys, aggs: a_aggs, .. } => {
                &&& plan_exprs_laid_out(pa, ea, a_input.0 as int, *input, elo)
                &&& exprs_blocks(ea, elo + plan_expr_size(*input), a_keys@, keys@)
                &&& exprs_blocks(ea, elo + plan_expr_size(*input) + exprs_size(keys@), a_aggs@, aggs@)
            },
            _ => false,
        },
        LogicalPlan::Join { input_left, input_right, left_on, right_on, .. } => match pa[n] {
            ALogicalPlan::Join { input_left: a_input_left, input_right: a_input_right, left_on: a_left_on, right_on: a_right_on, .. } => {
                &&& plan_exprs_laid_out(pa, ea, a_input_left.0 as int, *input_left, elo)
                &&& plan_exprs_laid_out(pa, ea, a_input_right.0 as int, *input_right, elo + plan_expr_size(*input_left))
                &&& exprs_blocks(ea, elo + plan_expr_size(*input_left) + plan_expr_size(*input_right), a_left_on@, left_on@)
                &&& exprs_blocks(ea, elo + plan_expr_size(*input_left) + plan_expr_size(*input_right) + exprs_size(left_on@), a_right_on@, right_on@)
            },
            _ => false,
        },
        LogicalPlan::HStack { input, exprs, .. } => match pa[n] {
            ALogicalPlan::HStack { input: a_input, exprs: a_exprs, .. } => {
                &&& plan_exprs_laid_out(pa, ea, a_input.0 as int, *input, elo)
                &&& exprs_blocks(ea, elo + plan_expr_size(*input), a_exprs@, exprs@)
            },
            _ => false,
        },
        LogicalPlan::Distinct { input, .. } => match pa[n] {
            ALogicalPlan::Distinct { input: a_input, .. } => plan_exprs_laid_out(pa, ea, a_input.0 as int, *input, elo),
            _ => false,
        },
        LogicalPlan::Udf { input, .. } => match pa[n] {
            ALogicalPlan::Udf { input: a_input, .. } => plan_exprs_laid_out(pa, ea, a_input.0 as int, *input, elo),
            _ => false,
        },
    }
}

/// The expression layout of a laid-out plan depends only on the plan slots it
/// occupies and on expression slots that stay as they are.
pub proof fn lemma_plan_exprs_laid_out_agree(
    pa1: Seq<ALogicalPlan>,
    pa2: Seq<ALogicalPlan>,
    ea1: Seq<AExpr>,
    ea2: Seq<AExpr>,
    lo: int,
    n: int,
    p: LogicalPlan,
    elo: int,
)
    requires
        plan_laid_out(pa1, lo, n),
        n < pa2.len(),
        forall|i: int| lo <= i <= n ==> pa2[i] == pa1[i],
        extends(ea2, ea1),
        plan_exprs_laid_out(pa1, ea1, n, p, elo),
    ensures
        plan_exprs_laid_out(pa2, ea2, n, p, elo),
    decreases p,
{
    assert(pa2[n] == pa1[n]);
    match p {
        LogicalPlan::Selection { input, predicate } => match pa1[n] {
            ALogicalPlan::Selection { input: a_input, predicate: a_predicate } => {
                lemma_plan_exprs_laid_out_agree(pa1, pa2, ea1, ea2, lo, a_input.0 as int, *input, elo);
                lemma_expr_block_extends(ea1, ea2, elo + plan_expr_size(*input), a_predicate, predicate);
            },
            _ => {},
        },
        LogicalPlan::Slice { input, .. } => match pa1[n] {
            ALogicalPlan::Slice { input: a_input, .. } => {
                lemma_plan_exprs_laid_out_agree(pa1, pa2, ea1, ea2, lo, a_input.0 as int, *input, elo);
            },
            _ => {},
        },
        LogicalPlan::Melt { input, .. } => match pa1[n] {
            ALogicalPlan::Melt { input: a_input, .. } => {
                lemma_plan_exprs_laid_out_agree(pa1, pa2, ea1, ea2, lo, a_input.0 as int, *input, elo);
            },
            _ => {},
        },
        LogicalPlan::CsvScan { predicate, aggregate, .. } => match pa1[n] {
            ALogicalPlan::CsvScan { predicate: a_predicate, aggregate: a_aggregate, .. } => {
                lemma_opt_blocks_extends(ea1, ea2, elo, a_predicate, predicate, None, None);
                lemma_exprs_blocks_extends(ea1, ea2, elo + opt_expr_size(predicate), a_aggregate@, aggregate@);
            },
            _ => {},
        },
        LogicalPlan::ParquetScan { predicate, aggregate, .. } => match pa1[n] {
            ALogicalPlan::ParquetScan { predicate: a_predicate, aggregate: a_aggregate, .. } => {
                lemma_opt_blocks_extends(ea1, ea2, elo, a_predicate, predicate, None, None);
                lemma_exprs_blocks_extends(ea1, ea2, elo + opt_expr_size(predicate), a_aggregate@, aggregate@);
            },
            _ => {},
        },
        LogicalPlan::DataFrameScan { projection, selection, .. } => match pa1[n] {
            ALogicalPlan::DataFrameScan { projection: a_projection, selection: a_selection, .. } => {
                lemma_opt_blocks_extends(ea1, ea2, elo, None, None, a_projection, projection);
                lemma_opt_blocks_extends(ea1, ea2, elo + opt_exprs_size(projection), a_selection, selection, None, None);
            },
            _ => {},
        },
        LogicalPlan::Projection { expr, input, .. } => match pa1[n] {
            ALogicalPlan::Projection { expr: a_expr, input: a_input, .. } => {
                lemma_exprs_blocks_extends(ea1, ea2, elo, a_expr@, expr@);
                lemma_plan_exprs_laid_out_agree(pa1, pa2, ea1, ea2, lo, a_input.0 as int, *input, elo + exprs_size(expr@));
            },
            _ => {},
        },
        LogicalPlan::LocalProjection { expr, input, .. } => match pa1[n] {
            ALogicalPlan::LocalProjection { expr: a_expr, input: a_input, .. } => {
                lemma_exprs_blocks_extends(ea1, ea2, elo, a_expr@, expr@);
                lemma_plan_exprs_laid_out_agree(pa1, pa2, ea1, ea2, lo, a_input.0 as int, *input, elo + exprs_size(expr@));
            },
            _ => {},
        },
        LogicalPlan::Sort { input, .. } => match pa1[n] {
            ALogicalPlan::Sort { input: a_input, .. } => {
                lemma_plan_exprs_laid_out_agree(pa1, pa2, ea1, ea2, lo, a_input.0 as int, *input, elo);
            },
            _ => {},
        },
        LogicalPlan::Explode { input, .. } => match pa1[n] {
            ALogicalPlan::Explode { input: a_input, .. } => {
                lemma_plan_exprs_laid_out_agree(pa1, pa2, ea1, ea2, lo, a_input.0 as int, *input, elo);
            },
            _ => {},
        },
        LogicalPlan::Cache { input } => match pa1[n] {
            ALogicalPlan::Cache { input: a_input } => {
                lemma_plan_exprs_laid_out_agree(pa1, pa2, ea1, ea2, lo, a_input.0 as int, *input, elo);
            },
            _ => {},
        },
        LogicalPlan::Aggregate { input, keys, aggs, .. } => match pa1[n] {
            ALogicalPlan::Aggregate { input: a_input, keys: a_keys, aggs: a_aggs, .. } => {
                lemma_plan_exprs_laid_out_agree(pa1, pa2, ea1, ea2, lo, a_input.0 as int, *input, elo);
                lemma_exprs_blocks_extends(ea1, ea2, elo + plan_expr_size(*input), a_keys@, keys@);
                lemma_exprs_blocks_extends(ea1, ea2, elo + plan_expr_size(*input) + exprs_size(keys@), a_aggs@, aggs@);
            },
            _ => {},
        },
        LogicalPlan::Join { input_left, input_right, left_on, right_on, .. } => match pa1[n] {
            ALogicalPlan::Join { input_left: a_input_left, input_right: a_input_right, left_on: a_left_on, right_on: a_right_on, .. } => {
                lemma_plan_exprs_laid_out_agree(pa1, pa2, ea1, ea2, lo, a_input_left.0 as int, *input_left, elo);
                lemma_plan_exprs_laid_out_agree(pa1, pa2, ea1, ea2, a_input_left.0 + 1, a_input_right.0 as int, *input_right, elo + plan_expr_size(*input_left));
                lemma_exprs_blocks_extends(ea1, ea2, elo + plan_expr_size(*input_left) + plan_expr_size(*input_right), a_left_on@, left_on@);
                lemma_exprs_blocks_extends(ea1, ea2, elo + plan_expr_size(*input_left) + plan_expr_size(*input_right) + exprs_size(left_on@), a_right_on@, right_on@);
            },
            _ => {},
        },
        LogicalPlan::HStack { input, exprs, .. } => match pa1[n] {
            ALogicalPlan::HStack { input: a_input, exprs: a_exprs, .. } => {
                lemma_plan_exprs_laid_out_agree(pa1, pa2, ea1, ea2, lo, a_input.0 as int, *input, elo);
                lemma_exprs_blocks_extends(ea1, ea2, elo + plan_expr_size(*input), a_exprs@, exprs@);
            },
            _ => {},
        },
        LogicalPlan::Distinct { input, .. } => match pa1[n] {
            ALogicalPlan::Distinct { input: a_input, .. } => {
                lemma_plan_exprs_laid_out_agree(pa1, pa2, ea1, ea2, lo, a_input.0 as int, *input, elo);
            },
            _ => {},
        },
        LogicalPlan::Udf { input, .. } => match pa1[n] {
            ALogicalPlan::Udf { input: a_input, .. } => {
                lemma_plan_exprs_laid_out_agree(pa1, pa2, ea1, ea2, lo, a_input.0 as int, *input, elo);
            },
            _ => {},
        },
    }
}

/// Lowers each expression of `exprs`, in order.
pub fn exprs_to_nodes(exprs: Vec<Expr>, expr_arena: &mut Arena<AExpr>) -> (r: Vec<Node>)
    ensures
        lowered_from(final(expr_arena)@, old(expr_arena)@),
        nodes_within(r@, old(expr_arena)@.len() as int, final(expr_arena)@.len() as int),
        exprs_are(final(expr_arena)@, r@, exprs@),
        final(expr_arena)@.len() == old(expr_arena)@.len() + exprs_size(exprs@),
        exprs_blocks(final(expr_arena)@, old(expr_arena)@.len() as int, r@, exprs@),
{
    let ghost before = expr_arena@;
    let ghost all = exprs@;
    let mut rest = exprs;
    let mut out: Vec<Node> = Vec::new();
    proof {
        lemma_lowered_refl(before);
    }
    while rest.len() > 0
        invariant
            out@.len() + rest@.len() == all.len(),
            rest@ == all.subrange(out@.len() as int, all.len() as int),
            lowered_from(expr_arena@, before),
            nodes_within(out@, before.len() as int, expr_arena@.len() as int),
            exprs_are(expr_arena@, out@, all.subrange(0, out@.len() as int)),
            expr_arena@.len() == before.len() + exprs_size(all.subrange(0, out@.len() as int)),
            exprs_blocks(expr_arena@, before.len() as int, out@, all.subrange(0, out@.len() as int)),
        decreases rest@.len(),
    {
        let ghost s0 = expr_arena@;
        let ghost out0 = out@;
        let e = rest.remove(0);
        let n = to_aexpr(e, expr_arena);
        proof {
            lemma_lowered_trans(before, s0, expr_arena@);
        }
        out.push(n);
        proof {
            let done = all.subrange(0, out@.len() as int);
            assert forall|k: int| 0 <= k < out@.len() implies expr_is(expr_arena@, #[trigger] out@[k], done[k]) by {
                if k < out0.len() {
                    assert(expr_is(s0, out0[k], all.subrange(0, out0.len() as int)[k]));
                }
            }
            let prev = all.subrange(0, out0.len() as int);
            assert(done.drop_last() =~= prev);
            assert(out@.drop_last() =~= out0);
            assert(done.last() == all[out0.len() as int]);
            lemma_exprs_blocks_extends(s0, expr_arena@, before.len() as int, out0, prev);
        }
    }
    proof {
        assert(all.subrange(0, all.len() as int) =~= all);
    }
    out
}

/// Reads back each expression named in `nodes`, in order.
pub fn nodes_to_exprs(nodes: &Vec<Node>, expr_arena: &Arena<AExpr>) -> (r: Vec<Expr>)
    requires
        expr_arena_wf(expr_arena@),
        nodes_within(nodes@, 0, expr_arena@.len() as int),
    ensures
        exprs_are(expr_arena@, nodes@, r@),
{
    let mut out: Vec<Expr> = Vec::new();
    let mut i: usize = 0;
    while i < nodes.len()
        invariant
            i <= nodes@.len(),
            out@.len() == i,
            expr_arena_wf(expr_arena@),
            nodes_within(nodes@, 0, expr_arena@.len() as int),
            forall|k: int| 0 <= k < i ==> expr_is(expr_arena@, #[trigger] nodes@[k], out@[k]),
        decreases nodes@.len() - i,
    {
        let e = node_to_exp(nodes[i], expr_arena);
        out.push(e);
        i = i + 1;
    }
    out
}

/// Lowers an optional expression.
pub fn opt_expr_to_node(e: Option<Expr>, expr_arena: &mut Arena<AExpr>) -> (r: Option<Node>)
    ensures
        lowered_from(final(expr_arena)@, old(expr_arena)@),
        opt_node_within(r, old(expr_arena)@.len() as int, final(expr_arena)@.len() as int),
        opt_expr_is(final(expr_arena)@, r, e),
        final(expr_arena)@.len() == old(expr_arena)@.len() + opt_expr_size(e),
        opt_expr_block(final(expr_arena)@, old(expr_arena)@.len() as int, r, e),
{
    match e {
        Some(x) => Some(to_aexpr(x, expr_arena)),
        None => {
            proof {
                lemma_lowered_refl(expr_arena@);
            }
            None
        },
    }
}

/// Lowers an optional list of expressions.
pub fn opt_exprs_to_nodes(e: Option<Vec<Expr>>, expr_arena: &mut Arena<AExpr>) -> (r: Option<Vec<Node>>)
    ensures
        lowered_from(final(expr_arena)@, old(expr_arena)@),
        opt_nodes_within(r, old(expr_arena)@.len() as int, final(expr_arena)@.len() as int),
        opt_exprs_are(final(expr_arena)@, r, e),
        final(expr_arena)@.len() == old(expr_arena)@.len() + opt_exprs_size(e),
        opt_exprs_blocks(final(expr_arena)@, old(expr_arena)@.len() as int, r, e),
{
    match e {
        Some(x) => Some(exprs_to_nodes(x, expr_arena)),
        None => {
            proof {
                lemma_lowered_refl(expr_arena@);
            }
            None
        },
    }
}

/// Reads back an optional expression.
pub fn opt_node_to_expr(o: &Option<Node>, expr_arena: &Arena<AExpr>) -> (r: Option<Expr>)
    requires
        expr_arena_wf(expr_arena@),
        opt_node_within(*o, 0, expr_arena@.len() as int),
    ensures
        opt_expr_is(expr_arena@, *o, r),
{
    match o {
        Some(n) => Some(node_to_exp(*n, expr_arena)),
        None => None,
    }
}

/// Reads back an optional list of expressions.
pub fn opt_nodes_to_exprs(o: &Option<Vec<Node>>, expr_arena: &Arena<AExpr>) -> (r: Option<Vec<Expr>>)
    requires
        expr_arena_wf(expr_arena@),
        opt_nodes_within(*o, 0, expr_arena@.len() as int),
    ensures
        opt_exprs_are(expr_arena@, *o, r),
{
    match o {
        Some(v) => Some(nodes_to_exprs(v, expr_arena)),
        None => None,
    }
}

pub proof fn lemma_alp_within_weaken(p: ALogicalPlan, lo: int, hi: int, lo2: int, hi2: int, elo: int, ehi: int, elo2: int, ehi2: int)
    requires
        alp_inputs_within(p, lo, hi),
        alp_exprs_within(p, elo, ehi),
        lo2 <= lo,
        hi <= hi2,
        elo2 <= elo,
        ehi <= ehi2,
    ensures
        alp_inputs_within(p, lo2, hi2),
        alp_exprs_within(p, elo2, ehi2),
{
}

pub proof fn lemma_plan_lowered_refl(pa: Seq<ALogicalPlan>, elo: int, ehi: int)
    ensures
        plan_lowered_from(pa, pa, elo, ehi),
{
}

pub proof fn lemma_plan_lowered_weaken(pa: Seq<ALogicalPlan>, before: Seq<ALogicalPlan>, elo: int, ehi: int, elo2: int, ehi2: int)
    requires
        plan_lowered_from(pa, before, elo, ehi),
        elo2 <= elo,
        ehi <= ehi2,
    ensures
        plan_lowered_from(pa, before, elo2, ehi2),
{
    assert forall|i: int| before.len() <= i < pa.len() implies {
        &&& #[trigger] alp_inputs_within(pa[i], before.len() as int, i)
        &&& alp_exprs_within(pa[i], elo2, ehi2)
    } by {
        assert(alp_inputs_within(pa[i], before.len() as int, i));
        lemma_alp_within_weaken(pa[i], before.len() as int, i, before.len() as int, i, elo, ehi, elo2, ehi2);
    }
}

pub proof fn lemma_plan_lowered_trans(pa0: Seq<ALogicalPlan>, pa1: Seq<ALogicalPlan>, pa2: Seq<ALogicalPlan>, elo: int, ehi: int)
    requires
        plan_lowered_from(pa1, pa0, elo, ehi),
        plan_lowered_from(pa2, pa1, elo, ehi),
    ensures
        plan_lowered_from(pa2, pa0, elo, ehi),
{
    assert forall|i: int| pa0.len() <= i < pa2.len() implies {
        &&& #[trigger] alp_inputs_within(pa2[i], pa0.len() as int, i)
        &&& alp_exprs_within(pa2[i], elo, ehi)
    } by {
        if i < pa1.len() {
            assert(pa2[i] == pa1[i]);
        } else {
            assert(alp_inputs_within(pa2[i], pa1.len() as int, i));
            lemma_alp_within_weaken(pa2[i], pa1.len() as int, i, pa0.len() as int, i, elo, ehi, elo, ehi);
        }
    }
}

pub proof fn lemma_plan_append(before: Seq<ALogicalPlan>, mid: Seq<ALogicalPlan>, v: ALogicalPlan, elo: int, ehi: int)
    requires
        plan_lowered_from(mid, before, elo, ehi),
        alp_inputs_within(v, before.len() as int, mid.len() as int),
        alp_exprs_within(v, elo, ehi),
    ensures
        plan_lowered_from(mid.push(v), before, elo, ehi),
{
    let a = mid.push(v);
    assert forall|i: int| before.len() <= i < a.len() implies {
        &&& #[trigger] alp_inputs_within(a[i], before.len() as int, i)
        &&& alp_exprs_within(a[i], elo, ehi)
    } by {
        if i < mid.len() {
            assert(a[i] == mid[i]);
        } else {
            assert(a[i] == v);
        }
    }
}

/// Lowering onto a well-formed plan arena keeps it well formed.
pub proof fn lemma_plan_wf_lowered(before: Seq<ALogicalPlan>, pa: Seq<ALogicalPlan>, elo: int, ehi: int)
    requires
        plan_arena_wf(before, elo),
        plan_lowered_from(pa, before, elo, ehi),
        0 <= elo <= ehi,
    ensures
        plan_arena_wf(pa, ehi),
{
    assert forall|i: int| 0 <= i < pa.len() implies {
        &&& #[trigger] alp_inputs_within(pa[i], 0, i)
        &&& alp_exprs_within(pa[i], 0, ehi)
    } by {
        if i < before.len() {
            assert(pa[i] == before[i]);
            assert(alp_inputs_within(before[i], 0, i));
            lemma_alp_within_weaken(pa[i], 0, i, 0, i, 0, elo, 0, ehi);
        } else {
            assert(alp_inputs_within(pa[i], before.len() as int, i));
            lemma_alp_within_weaken(pa[i], before.len() as int, i, 0, i, elo, ehi, 0, ehi);
        }
    }
}

/// The layout of a subtree depends only on the slots it occupies.
pub proof fn lemma_laid_out_agree(pa1: Seq<ALogicalPlan>, pa2: Seq<ALogicalPlan>, lo: int, n: int)
    requires
        plan_laid_out(pa1, lo, n),
        n < pa2.len(),
        forall|i: int| lo <= i <= n ==> pa2[i] == pa1[i],
    ensures
        plan_laid_out(pa2, lo, n),
    decreases n - lo,
{
    assert(pa2[n] == pa1[n]);
    match pa1[n] {
        ALogicalPlan::Selection { input, .. } => {
            lemma_laid_out_agree(pa1, pa2, lo, input.0 as int);
        },
        ALogicalPlan::Slice { input, .. } => {
            lemma_laid_out_agree(pa1, pa2, lo, input.0 as int);
        },
        ALogicalPlan::Melt { input, .. } => {
            lemma_laid_out_agree(pa1, pa2, lo, input.0 as int);
        },
        ALogicalPlan::CsvScan { .. } => {
        },
        ALogicalPlan::ParquetScan { .. } => {
        },
        ALogicalPlan::DataFrameScan { .. } => {
        },
        ALogicalPlan::Projection { input, .. } => {
            lemma_laid_out_agree(pa1, pa2, lo, input.0 as int);
        },
        ALogicalPlan::LocalProjection { input, .. } => {
            lemma_laid_out_agree(pa1, pa2, lo, input.0 as int);
        },
        ALogicalPlan::Sort { input, .. } => {
            lemma_laid_out_agree(pa1, pa2, lo, input.0 as int);
        },
        ALogicalPlan::Explode { input, .. } => {
            lemma_laid_out_agree(pa1, pa2, lo, input.0 as int);
        },
        ALogicalPlan::Cache { input } => {
            lemma_laid_out_agree(pa1, pa2, lo, input.0 as int);
        },
        ALogicalPlan::Aggregate { input, .. } => {
            lemma_laid_out_agree(pa1, pa2, lo, input.0 as int);
        },
        ALogicalPlan::Join { input_left, input_right, .. } => {
            lemma_laid_out_agree(pa1, pa2, lo, input_left.0 as int);
            lemma_laid_out_agree(pa1, pa2, input_left.0 + 1, input_right.0 as int);
        },
        ALogicalPlan::HStack { input, .. } => {
            lemma_laid_out_agree(pa1, pa2, lo, input.0 as int);
        },
        ALogicalPlan::Distinct { input, .. } => {
            lemma_laid_out_agree(pa1, pa2, lo, input.0 as int);
        },
        ALogicalPlan::Udf { input, .. } => {
            lemma_laid_out_agree(pa1, pa2, lo, input.0 as int);
        },
    }
}

/// What a laid-out subtree stands for depends only on the slots it occupies and
/// on expression slots that keep their meaning.
pub proof fn lemma_plan_matches_agree(
    pa1: Seq<ALogicalPlan>,
    pa2: Seq<ALogicalPlan>,
    ea1: Seq<AExpr>,
    ea2: Seq<AExpr>,
    lo: int,
    n: int,
    p: LogicalPlan,
)
    requires
        plan_laid_out(pa1, lo, n),
        n < pa2.len(),
        forall|i: int| lo <= i <= n ==> pa2[i] == pa1[i],
        ea1.len() <= ea2.len(),
        forall|m: int| 0 <= m < ea1.len() ==> #[trigger] expr_at(ea2, m) == expr_at(ea1, m),
        plan_matches(pa1, ea1, n, p),
    ensures
        plan_laid_out(pa2, lo, n),
        plan_matches(pa2, ea2, n, p),
    decreases p,
{
    lemma_laid_out_agree(pa1, pa2, lo, n);
    assert(pa2[n] == pa1[n]);
    match p {
        LogicalPlan::Selection { input, .. } => match pa1[n] {
            ALogicalPlan::Selection { input: a_input, predicate: a_predicate } => {
                lemma_plan_matches_agree(pa1, pa2, ea1, ea2, lo, a_input.0 as int, *input);
            },
            _ => {},
        },
        LogicalPlan::Slice { input, .. } => match pa1[n] {
            ALogicalPlan::Slice { input: a_input, offset: a_offset, len: a_len } => {
                lemma_plan_matches_agree(pa1, pa2, ea1, ea2, lo, a_input.0 as int, *input);
            },
            _ => {},
        },
        LogicalPlan::Melt { input, .. } => match pa1[n] {
            ALogicalPlan::Melt { input: a_input, id_vars: a_id_vars, value_vars: a_value_vars, schema: a_schema } => {
                lemma_plan_matches_agree(pa1, pa2, ea1, ea2, lo, a_input.0 as int, *input);
            },
            _ => {},
        },
        LogicalPlan::CsvScan { aggregate, .. } => match pa1[n] {
            ALogicalPlan::CsvScan { path: a_path, schema: a_schema, has_header: a_has_header, delimiter: a_delimiter, ignore_errors: a_ignore_errors, skip_rows: a_skip_rows, stop_after_n_rows: a_stop_after_n_rows, with_columns: a_with_columns, predicate: a_predicate, aggregate: a_aggregate, cache: a_cache } => {
                assert forall|k: int| 0 <= k < a_aggregate@.len() implies expr_is(ea2, #[trigger] a_aggregate@[k], aggregate@[k]) by { assert(expr_is(ea1, a_aggregate@[k], aggregate@[k])); }
            },
            _ => {},
        },
        LogicalPlan::ParquetScan { aggregate, .. } => match pa1[n] {
            ALogicalPlan::ParquetScan { path: a_path, schema: a_schema, with_columns: a_with_columns, predicate: a_predicate, aggregate: a_aggregate, stop_after_n_rows: a_stop_after_n_rows, cache: a_cache } => {
                assert forall|k: int| 0 <= k < a_aggregate@.len() implies expr_is(ea2, #[trigger] a_aggregate@[k], aggregate@[k]) by { assert(expr_is(ea1, a_aggregate@[k], aggregate@[k])); }
            },
            _ => {},
        },
        LogicalPlan::DataFrameScan { projection, .. } => match pa1[n] {
            ALogicalPlan::DataFrameScan { df: a_df, schema: a_schema, projection: a_projection, selection: a_selection } => {
                match (a_projection, projection) { (Some(v), Some(es)) => { assert forall|k: int| 0 <= k < v@.len() implies expr_is(ea2, #[trigger] v@[k], es@[k]) by { assert(expr_is(ea1, v@[k], es@[k])); } }, _ => {} }
            },
            _ => {},
        },
        LogicalPlan::Projection { expr, input, .. } => match pa1[n] {
            ALogicalPlan::Projection { expr: a_expr, input: a_input, schema: a_schema } => {
                lemma_plan_matches_agree(pa1, pa2, ea1, ea2, lo, a_input.0 as int, *input);
                assert forall|k: int| 0 <= k < a_expr@.len() implies expr_is(ea2, #[trigger] a_expr@[k], expr@[k]) by { assert(expr_is(ea1, a_expr@[k], expr@[k])); }
            },
            _ => {},
        },
        LogicalPlan::LocalProjection { expr, input, .. } => match pa1[n] {
            ALogicalPlan::LocalProjection { expr: a_expr, input: a_input, schema: a_schema } => {
                lemma_plan_matches_agree(pa1, pa2, ea1, ea2, lo, a_input.0 as int, *input);
                assert forall|k: int| 0 <= k < a_expr@.len() implies expr_is(ea2, #[trigger] a_expr@[k], expr@[k]) by { assert(expr_is(ea1, a_expr@[k], expr@[k])); }
            },
            _ => {},
        },
        LogicalPlan::Sort { input, .. } => match pa1[n] {
            ALogicalPlan::Sort { input: a_input, by_column: a_by_column, reverse: a_reverse } => {
                lemma_plan_matches_agree(pa1, pa2, ea1, ea2, lo, a_input.0 as int, *input);
            },
            _ => {},
        },
        LogicalPlan::Explode { input, .. } => match pa1[n] {
            ALogicalPlan::Explode { input: a_input, columns: a_columns } => {
                lemma_plan_matches_agree(pa1, pa2, ea1, ea2, lo, a_input.0 as int, *input);
            },
            _ => {},
        },
        LogicalPlan::Cache { input } => match pa1[n] {
            ALogicalPlan::Cache { input: a_input } => {
                lemma_plan_matches_agree(pa1, pa2, ea1, ea2, lo, a_input.0 as int, *input);
            },
            _ => {},
        },
        LogicalPlan::Aggregate { input, keys, aggs, .. } => match pa1[n] {
            ALogicalPlan::Aggregate { input: a_input, keys: a_keys, aggs: a_aggs, schema: a_schema, apply: a_apply } => {
                lemma_plan_matches_agree(pa1, pa2, ea1, ea2, lo, a_input.0 as int, *input);
                assert forall|k: int| 0 <= k < a_keys@.len() implies expr_is(ea2, #[trigger] a_keys@[k], keys@[k]) by { assert(expr_is(ea1, a_keys@[k], keys@[k])); }
                assert forall|k: int| 0 <= k < a_aggs@.len() implies expr_is(ea2, #[trigger] a_aggs@[k], aggs@[k]) by { assert(expr_is(ea1, a_aggs@[k], aggs@[k])); }
            },
            _ => {},
        },
        LogicalPlan::Join { input_left, input_right, left_on, right_on, .. } => match pa1[n] {
            ALogicalPlan::Join { input_left: a_input_left, input_right: a_input_right, schema: a_schema, how: a_how, left_on: a_left_on, right_on: a_right_on, allow_par: a_allow_par, force_par: a_force_par } => {
                lemma_plan_matches_agree(pa1, pa2, ea1, ea2, lo, a_input_left.0 as int, *input_left);
                lemma_plan_matches_agree(pa1, pa2, ea1, ea2, a_input_left.0 + 1, a_input_right.0 as int, *input_right);
                assert forall|k: int| 0 <= k < a_left_on@.len() implies expr_is(ea2, #[trigger] a_left_on@[k], left_on@[k]) by { assert(expr_is(ea1, a_left_on@[k], left_on@[k])); }
                assert forall|k: int| 0 <= k < a_right_on@.len() implies expr_is(ea2, #[trigger] a_right_on@[k], right_on@[k]) by { assert(expr_is(ea1, a_right_on@[k], right_on@[k])); }
            },
            _ => {},
        },
        LogicalPlan::HStack { input, exprs, .. } => match pa1[n] {
            ALogicalPlan::HStack { input: a_input, exprs: a_exprs, schema: a_schema } => {
                lemma_plan_matches_agree(pa1, pa2, ea1, ea2, lo, a_input.0 as int, *input);
                assert forall|k: int| 0 <= k < a_exprs@.len() implies expr_is(ea2, #[trigger] a_exprs@[k], exprs@[k]) by { assert(expr_is(ea1, a_exprs@[k], exprs@[k])); }
            },
            _ => {},
        },
        LogicalPlan::Distinct { input, .. } => match pa1[n] {
            ALogicalPlan::Distinct { input: a_input, maintain_order: a_maintain_order, subset: a_subset } => {
                lemma_plan_matches_agree(pa1, pa2, ea1, ea2, lo, a_input.0 as int, *input);
            },
            _ => {},
        },
        LogicalPlan::Udf { input, .. } => match pa1[n] {
            ALogicalPlan::Udf { input: a_input, function: a_function, projection_pd: a_projection_pd, predicate_pd: a_predicate_pd, schema: a_schema } => {
                lemma_plan_matches_agree(pa1, pa2, ea1, ea2, lo, a_input.0 as int, *input);
            },
            _ => {},
        },
    }
}

/// The slots reachable from `n` through plan inputs, `n` included. Inputs
/// that do not point below their parent are not followed.
pub open spec fn plan_reach(pa: Seq<ALogicalPlan>, n: int) -> Set<int>
    decreases n,
{
    if 0 <= n < pa.len() {
        match pa[n] {
            ALogicalPlan::Selection { input, .. } => if input.0 < n { plan_reach(pa, input.0 as int).insert(n) } else { set![n] },
            ALogicalPlan::Slice { input, .. } => if input.0 < n { plan_reach(pa, input.0 as int).insert(n) } else { set![n] },
            ALogicalPlan::Melt { input, .. } => if input.0 < n { plan_reach(pa, input.0 as int).insert(n) } else { set![n] },
            ALogicalPlan::CsvScan { .. } => set![n],
            ALogicalPlan::ParquetScan { .. } => set![n],
            ALogicalPlan::DataFrameScan { .. } => set![n],
            ALogicalPlan::Projection { input, .. } => if input.0 < n { plan_reach(pa, input.0 as int).insert(n) } else { set![n] },
            ALogicalPlan::LocalProjection { input, .. } => if input.0 < n { plan_reach(pa, input.0 as int).insert(n) } else { set![n] },
            ALogicalPlan::Sort { input, .. } => if input.0 < n { plan_reach(pa, input.0 as int).insert(n) } else { set![n] },
            ALogicalPlan::Explode { input, .. } => if input.0 < n { plan_reach(pa, input.0 as int).insert(n) } else { set![n] },
            ALogicalPlan::Cache { input } => if input.0 < n { plan_reach(pa, input.0 as int).insert(n) } else { set![n] },
            ALogicalPlan::Aggregate { input, .. } => if input.0 < n { plan_reach(pa, input.0 as int).insert(n) } else { set![n] },
            ALogicalPlan::Join { input_left, input_right, .. } => if input_left.0 < n && input_right.0 < n { plan_reach(pa, input_left.0 as int).union(plan_reach(pa, input_right.0 as int)).insert(n) } else { set![n] },
            ALogicalPlan::HStack { input, .. } => if input.0 < n { plan_reach(pa, input.0 as int).insert(n) } else { set![n] },
            ALogicalPlan::Distinct { input, .. } => if input.0 < n { plan_reach(pa, input.0 as int).insert(n) } else { set![n] },
            ALogicalPlan::Udf { input, .. } => if input.0 < n { plan_reach(pa, input.0 as int).insert(n) } else { set![n] },
        }
    } else {
        Set::empty()
    }
}

/// The plan rooted at `n` is a tree: inputs point below their parent and the
/// two inputs of a join reach no slot in common.
pub open spec fn plan_tree(pa: Seq<ALogicalPlan>, n: int) -> bool
    decreases n,
{
    0 <= n < pa.len() && match pa[n] {
        ALogicalPlan::Selection { input, .. } => input.0 < n && plan_tree(pa, input.0 as int),
        ALogicalPlan::Slice { input, .. } => input.0 < n && plan_tree(pa, input.0 as int),
        ALogicalPlan::Melt { input, .. } => input.0 < n && plan_tree(pa, input.0 as int),
        ALogicalPlan::CsvScan { .. } => true,
        ALogicalPlan::ParquetScan { .. } => true,
        ALogicalPlan::DataFrameScan { .. } => true,
        ALogicalPlan::Projection { input, .. } => input.0 < n && plan_tree(pa, input.0 as int),
        ALogicalPlan::LocalProjection { input, .. } => input.0 < n && plan_tree(pa, input.0 as int),
        ALogicalPlan::Sort { input, .. } => input.0 < n && plan_tree(pa, input.0 as int),
        ALogicalPlan::Explode { input, .. } => input.0 < n && plan_tree(pa, input.0 as int),
        ALogicalPlan::Cache { input } => input.0 < n && plan_tree(pa, input.0 as int),
        ALogicalPlan::Aggregate { input, .. } => input.0 < n && plan_tree(pa, input.0 as int),
        ALogicalPlan::Join { input_left, input_right, .. } => {
            &&& input_left.0 < n
            &&& input_right.0 < n
            &&& plan_tree(pa, input_left.0 as int)
            &&& plan_tree(pa, input_right.0 as int)
            &&& plan_reach(pa, input_left.0 as int).disjoint(plan_reach(pa, input_right.0 as int))
        },
        ALogicalPlan::HStack { input, .. } => input.0 < n && plan_tree(pa, input.0 as int),
        ALogicalPlan::Distinct { input, .. } => input.0 < n && plan_tree(pa, input.0 as int),
        ALogicalPlan::Udf { input, .. } => input.0 < n && plan_tree(pa, input.0 as int),
    }
}

pub proof fn lemma_reach_bound(pa: Seq<ALogicalPlan>, n: int)
    ensures
        forall|i: int| plan_reach(pa, n).contains(i) ==> 0 <= i <= n,
    decreases n,
{
    if 0 <= n < pa.len() {
        match pa[n] {
            ALogicalPlan::Selection { input, .. } => { if input.0 < n { lemma_reach_bound(pa, input.0 as int); assert(plan_reach(pa, n) =~= plan_reach(pa, input.0 as int).insert(n)); } else { assert(plan_reach(pa, n) =~= set![n]); } },
            ALogicalPlan::Slice { input, .. } => { if input.0 < n { lemma_reach_bound(pa, input.0 as int); assert(plan_reach(pa, n) =~= plan_reach(pa, input.0 as int).insert(n)); } else { assert(plan_reach(pa, n) =~= set![n]); } },
            ALogicalPlan::Melt { input, .. } => { if input.0 < n { lemma_reach_bound(pa, input.0 as int); assert(plan_reach(pa, n) =~= plan_reach(pa, input.0 as int).insert(n)); } else { assert(plan_reach(pa, n) =~= set![n]); } },
            ALogicalPlan::CsvScan { .. } => { assert(plan_reach(pa, n) =~= set![n]); },
            ALogicalPlan::ParquetScan { .. } => { assert(plan_reach(pa, n) =~= set![n]); },
            ALogicalPlan::DataFrameScan { .. } => { assert(plan_reach(pa, n) =~= set![n]); },
            ALogicalPlan::Projection { input, .. } => { if input.0 < n { lemma_reach_bound(pa, input.0 as int); assert(plan_reach(pa, n) =~= plan_reach(pa, input.0 as int).insert(n)); } else { assert(plan_reach(pa, n) =~= set![n]); } },
            ALogicalPlan::LocalProjection { input, .. } => { if input.0 < n { lemma_reach_bound(pa, input.0 as int); assert(plan_reach(pa, n) =~= plan_reach(pa, input.0 as int).insert(n)); } else { assert(plan_reach(pa, n) =~= set![n]); } },
            ALogicalPlan::Sort { input, .. } => { if input.0 < n { lemma_reach_bound(pa, input.0 as int); assert(plan_reach(pa, n) =~= plan_reach(pa, input.0 as int).insert(n)); } else { assert(plan_reach(pa, n) =~= set![n]); } },
            ALogicalPlan::Explode { input, .. } => { if input.0 < n { lemma_reach_bound(pa, input.0 as int); assert(plan_reach(pa, n) =~= plan_reach(pa, input.0 as int).insert(n)); } else { assert(plan_reach(pa, n) =~= set![n]); } },
            ALogicalPlan::Cache { input } => { if input.0 < n { lemma_reach_bound(pa, input.0 as int); assert(plan_reach(pa, n) =~= plan_reach(pa, input.0 as int).insert(n)); } else { assert(plan_reach(pa, n) =~= set![n]); } },
            ALogicalPlan::Aggregate { input, .. } => { if input.0 < n { lemma_reach_bound(pa, input.0 as int); assert(plan_reach(pa, n) =~= plan_reach(pa, input.0 as int).insert(n)); } else { assert(plan_reach(pa, n) =~= set![n]); } },
            ALogicalPlan::Join { input_left, input_right, .. } => { if input_left.0 < n && input_right.0 < n { lemma_reach_bound(pa, input_left.0 as int); lemma_reach_bound(pa, input_right.0 as int); assert(plan_reach(pa, n) =~= plan_reach(pa, input_left.0 as int).union(plan_reach(pa, input_right.0 as int)).insert(n)); } else { assert(plan_reach(pa, n) =~= set![n]); } },
            ALogicalPlan::HStack { input, .. } => { if input.0 < n { lemma_reach_bound(pa, input.0 as int); assert(plan_reach(pa, n) =~= plan_reach(pa, input.0 as int).insert(n)); } else { assert(plan_reach(pa, n) =~= set![n]); } },
            ALogicalPlan::Distinct { input, .. } => { if input.0 < n { lemma_reach_bound(pa, input.0 as int); assert(plan_reach(pa, n) =~= plan_reach(pa, input.0 as int).insert(n)); } else { assert(plan_reach(pa, n) =~= set![n]); } },
            ALogicalPlan::Udf { input, .. } => { if input.0 < n { lemma_reach_bound(pa, input.0 as int); assert(plan_reach(pa, n) =~= plan_reach(pa, input.0 as int).insert(n)); } else { assert(plan_reach(pa, n) =~= set![n]); } },
        }
    }
}

/// Reach and tree shape depend only on the reachable slots.
pub proof fn lemma_tree_agree(pa1: Seq<ALogicalPlan>, pa2: Seq<ALogicalPlan>, n: int)
    requires
        0 <= n < pa1.len(),
        n < pa2.len(),
        forall|i: int| plan_reach(pa1, n).contains(i) ==> pa2[i] == pa1[i],
    ensures
        plan_reach(pa2, n) == plan_reach(pa1, n),
        plan_tree(pa1, n) ==> plan_tree(pa2, n),
    decreases n,
{
    assert(plan_reach(pa1, n).contains(n));
    assert(pa2[n] == pa1[n]);
    match pa1[n] {
        ALogicalPlan::Selection { input, .. } => { if input.0 < n { lemma_reach_bound(pa1, input.0 as int); lemma_tree_agree(pa1, pa2, input.0 as int); } },
        ALogicalPlan::Slice { input, .. } => { if input.0 < n { lemma_reach_bound(pa1, input.0 as int); lemma_tree_agree(pa1, pa2, input.0 as int); } },
        ALogicalPlan::Melt { input, .. } => { if input.0 < n { lemma_reach_bound(pa1, input.0 as int); lemma_tree_agree(pa1, pa2, input.0 as int); } },
        ALogicalPlan::CsvScan { .. } => {},
        ALogicalPlan::ParquetScan { .. } => {},
        ALogicalPlan::DataFrameScan { .. } => {},
        ALogicalPlan::Projection { input, .. } => { if input.0 < n { lemma_reach_bound(pa1, input.0 as int); lemma_tree_agree(pa1, pa2, input.0 as int); } },
        ALogicalPlan::LocalProjection { input, .. } => { if input.0 < n { lemma_reach_bound(pa1, input.0 as int); lemma_tree_agree(pa1, pa2, input.0 as int); } },
        ALogicalPlan::Sort { input, .. } => { if input.0 < n { lemma_reach_bound(pa1, input.0 as int); lemma_tree_agree(pa1, pa2, input.0 as int); } },
        ALogicalPlan::Explode { input, .. } => { if input.0 < n { lemma_reach_bound(pa1, input.0 as int); lemma_tree_agree(pa1, pa2, input.0 as int); } },
        ALogicalPlan::Cache { input } => { if input.0 < n { lemma_reach_bound(pa1, input.0 as int); lemma_tree_agree(pa1, pa2, input.0 as int); } },
        ALogicalPlan::Aggregate { input, .. } => { if input.0 < n { lemma_reach_bound(pa1, input.0 as int); lemma_tree_agree(pa1, pa2, input.0 as int); } },
        ALogicalPlan::Join { input_left, input_right, .. } => { if input_left.0 < n && input_right.0 < n { lemma_tree_agree(pa1, pa2, input_left.0 as int); lemma_tree_agree(pa1, pa2, input_right.0 as int); } },
        ALogicalPlan::HStack { input, .. } => { if input.0 < n { lemma_reach_bound(pa1, input.0 as int); lemma_tree_agree(pa1, pa2, input.0 as int); } },
        ALogicalPlan::Distinct { input, .. } => { if input.0 < n { lemma_reach_bound(pa1, input.0 as int); lemma_tree_agree(pa1, pa2, input.0 as int); } },
        ALogicalPlan::Udf { input, .. } => { if input.0 < n { lemma_reach_bound(pa1, input.0 as int); lemma_tree_agree(pa1, pa2, input.0 as int); } },
    }
}

/// A laid-out subtree is a tree whose reach stays within its block.
pub proof fn lemma_laid_out_tree(pa: Seq<ALogicalPlan>, lo: int, n: int)
    requires
        plan_laid_out(pa, lo, n),
    ensures
        plan_tree(pa, n),
        forall|i: int| plan_reach(pa, n).contains(i) ==> lo <= i <= n,
    decreases n - lo,
{
    match pa[n] {
        ALogicalPlan::Selection { input, .. } => { lemma_laid_out_tree(pa, lo, input.0 as int); assert(plan_reach(pa, n) =~= plan_reach(pa, input.0 as int).insert(n)); },
        ALogicalPlan::Slice { input, .. } => { lemma_laid_out_tree(pa, lo, input.0 as int); assert(plan_reach(pa, n) =~= plan_reach(pa, input.0 as int).insert(n)); },
        ALogicalPlan::Melt { input, .. } => { lemma_laid_out_tree(pa, lo, input.0 as int); assert(plan_reach(pa, n) =~= plan_reach(pa, input.0 as int).insert(n)); },
        ALogicalPlan::CsvScan { .. } => { assert(plan_reach(pa, n) =~= set![n]); },
        ALogicalPlan::ParquetScan { .. } => { assert(plan_reach(pa, n) =~= set![n]); },
        ALogicalPlan::DataFrameScan { .. } => { assert(plan_reach(pa, n) =~= set![n]); },
        ALogicalPlan::Projection { input, .. } => { lemma_laid_out_tree(pa, lo, input.0 as int); assert(plan_reach(pa, n) =~= plan_reach(pa, input.0 as int).insert(n)); },
        ALogicalPlan::LocalProjection { input, .. } => { lemma_laid_out_tree(pa, lo, input.0 as int); assert(plan_reach(pa, n) =~= plan_reach(pa, input.0 as int).insert(n)); },
        ALogicalPlan::Sort { input, .. } => { lemma_laid_out_tree(pa, lo, input.0 as int); assert(plan_reach(pa, n) =~= plan_reach(pa, input.0 as int).insert(n)); },
        ALogicalPlan::Explode { input, .. } => { lemma_laid_out_tree(pa, lo, input.0 as int); assert(plan_reach(pa, n) =~= plan_reach(pa, input.0 as int).insert(n)); },
        ALogicalPlan::Cache { input } => { lemma_laid_out_tree(pa, lo, input.0 as int); assert(plan_reach(pa, n) =~= plan_reach(pa, input.0 as int).insert(n)); },
        ALogicalPlan::Aggregate { input, .. } => { lemma_laid_out_tree(pa, lo, input.0 as int); assert(plan_reach(pa, n) =~= plan_reach(pa, input.0 as int).insert(n)); },
        ALogicalPlan::Join { input_left, input_right, .. } => { lemma_laid_out_tree(pa, lo, input_left.0 as int); lemma_laid_out_tree(pa, input_left.0 + 1, input_right.0 as int); assert(plan_reach(pa, n) =~= plan_reach(pa, input_left.0 as int).union(plan_reach(pa, input_right.0 as int)).insert(n)); },
        ALogicalPlan::HStack { input, .. } => { lemma_laid_out_tree(pa, lo, input.0 as int); assert(plan_reach(pa, n) =~= plan_reach(pa, input.0 as int).insert(n)); },
        ALogicalPlan::Distinct { input, .. } => { lemma_laid_out_tree(pa, lo, input.0 as int); assert(plan_reach(pa, n) =~= plan_reach(pa, input.0 as int).insert(n)); },
        ALogicalPlan::Udf { input, .. } => { lemma_laid_out_tree(pa, lo, input.0 as int); assert(plan_reach(pa, n) =~= plan_reach(pa, input.0 as int).insert(n)); },
    }
}

/// What a tree-shaped plan stands for depends only on its reachable slots and
/// on expression slots that keep their meaning.
pub proof fn lemma_plan_matches_agree_tree(
    pa1: Seq<ALogicalPlan>,
    pa2: Seq<ALogicalPlan>,
    ea: Seq<AExpr>,
    n: int,
    p: LogicalPlan,
)
    requires
        plan_tree(pa1, n),
        n < pa2.len(),
        forall|i: int| plan_reach(pa1, n).contains(i) ==> pa2[i] == pa1[i],
        plan_matches(pa1, ea, n, p),
    ensures
        plan_matches(pa2, ea, n, p),
    decreases p,
{
    lemma_tree_agree(pa1, pa2, n);
    assert(plan_reach(pa1, n).contains(n));
    assert(pa2[n] == pa1[n]);
    match p {
        LogicalPlan::Selection { input, .. } => match pa1[n] {
            ALogicalPlan::Selection { input: a_input, .. } => {
                lemma_plan_matches_agree_tree(pa1, pa2, ea, a_input.0 as int, *input);
            },
            _ => {},
        },
        LogicalPlan::Slice { input, .. } => match pa1[n] {
            ALogicalPlan::Slice { input: a_input, .. } => {
                lemma_plan_matches_agree_tree(pa1, pa2, ea, a_input.0 as int, *input);
            },
            _ => {},
        },
        LogicalPlan::Melt { input, .. } => match pa1[n] {
            ALogicalPlan::Melt { input: a_input, .. } => {
                lemma_plan_matches_agree_tree(pa1, pa2, ea, a_input.0 as int, *input);
            },
            _ => {},
        },
        LogicalPlan::CsvScan { .. } => match pa1[n] {
            ALogicalPlan::CsvScan { .. } => {
            },
            _ => {},
        },
        LogicalPlan::ParquetScan { .. } => match pa1[n] {
            ALogicalPlan::ParquetScan { .. } => {
            },
            _ => {},
        },
        LogicalPlan::DataFrameScan { .. } => match pa1[n] {
            ALogicalPlan::DataFrameScan { .. } => {
            },
            _ => {},
        },
        LogicalPlan::Projection { input, .. } => match pa1[n] {
            ALogicalPlan::Projection { input: a_input, .. } => {
                lemma_plan_matches_agree_tree(pa1, pa2, ea, a_input.0 as int, *input);
            },
            _ => {},
        },
        LogicalPlan::LocalProjection { input, .. } => match pa1[n] {
            ALogicalPlan::LocalProjection { input: a_input, .. } => {
                lemma_plan_matches_agree_tree(pa1, pa2, ea, a_input.0 as int, *input);
            },
            _ => {},
        },
        LogicalPlan::Sort { input, .. } => match pa1[n] {
            ALogicalPlan::Sort { input: a_input, .. } => {
                lemma_plan_matches_agree_tree(pa1, pa2, ea, a_input.0 as int, *input);
            },
            _ => {},
        },
        LogicalPlan::Explode { input, .. } => match pa1[n] {
            ALogicalPlan::Explode { input: a_input, .. } => {
                lemma_plan_matches_agree_tree(pa1, pa2, ea, a_input.0 as int, *input);
            },
            _ => {},
        },
        LogicalPlan::Cache { input } => match pa1[n] {
            ALogicalPlan::Cache { input: a_input } => {
                lemma_plan_matches_agree_tree(pa1, pa2, ea, a_input.0 as int, *input);
            },
            _ => {},
        },
        LogicalPlan::Aggregate { input, .. } => match pa1[n] {
            ALogicalPlan::Aggregate { input: a_input, .. } => {
                lemma_plan_matches_agree_tree(pa1, pa2, ea, a_input.0 as int, *input);
            },
            _ => {},
        },
        LogicalPlan::Join { input_left, input_right, .. } => match pa1[n] {
            ALogicalPlan::Join { input_left: a_input_left, input_right: a_input_right, .. } => {
                lemma_plan_matches_agree_tree(pa1, pa2, ea, a_input_left.0 as int, *input_left);
                lemma_plan_matches_agree_tree(pa1, pa2, ea, a_input_right.0 as int, *input_right);
            },
            _ => {},
        },
        LogicalPlan::HStack { input, .. } => match pa1[n] {
            ALogicalPlan::HStack { input: a_input, .. } => {
                lemma_plan_matches_agree_tree(pa1, pa2, ea, a_input.0 as int, *input);
            },
            _ => {},
        },
        LogicalPlan::Distinct { input, .. } => match pa1[n] {
            ALogicalPlan::Distinct { input: a_input, .. } => {
                lemma_plan_matches_agree_tree(pa1, pa2, ea, a_input.0 as int, *input);
            },
            _ => {},
        },
        LogicalPlan::Udf { input, .. } => match pa1[n] {
            ALogicalPlan::Udf { input: a_input, .. } => {
                lemma_plan_matches_agree_tree(pa1, pa2, ea, a_input.0 as int, *input);
            },
            _ => {},
        },
    }
}

/// Lowers the plan `lp`: each embedded expression into `expr_arena` and each
/// input into `lp_arena`, in field order, then the plan itself into
/// `lp_arena`. Returns the handle of that last slot.
#[verifier::rlimit(100)]
pub fn to_alp(lp: LogicalPlan, expr_arena: &mut Arena<AExpr>, lp_arena: &mut Arena<ALogicalPlan>) -> (r: Node)
    ensures
        old(lp_arena)@.len() <= r.0,
        r.0 + 1 == final(lp_arena)@.len(),
        lowered_from(final(expr_arena)@, old(expr_arena)@),
        plan_lowered_from(
            final(lp_arena)@,
            old(lp_arena)@,
            old(expr_arena)@.len() as int,
            final(expr_arena)@.len() as int,
        ),
        plan_arena_wf(old(lp_arena)@, old(expr_arena)@.len() as int) ==> plan_arena_wf(
            final(lp_arena)@,
            final(expr_arena)@.len() as int,
        ),
        plan_laid_out(final(lp_arena)@, old(lp_arena)@.len() as int, r.0 as int),
        plan_tree(final(lp_arena)@, r.0 as int),
        plan_matches(final(lp_arena)@, final(expr_arena)@, r.0 as int, lp),
        final(expr_arena)@.len() == old(expr_arena)@.len() + plan_expr_size(lp),
        plan_exprs_laid_out(final(lp_arena)@, final(expr_arena)@, r.0 as int, lp, old(expr_arena)@.len() as int),
    decreases lp,
{
    let ghost pa0 = lp_arena@;
    let ghost ea0 = expr_arena@;
    match lp {
        LogicalPlan::Selection { input, predicate } => {
            let input_n = to_alp(*input, expr_arena, lp_arena);
            let ghost pa1 = lp_arena@;
            let ghost ea1 = expr_arena@;
            let predicate_n = to_aexpr(predicate, expr_arena);
            let ghost pa2 = lp_arena@;
            let ghost ea2 = expr_arena@;
            let v = ALogicalPlan::Selection { input: input_n, predicate: predicate_n };
            proof {
                let pf = pa2.push(v);
                let ef = ea2;
                lemma_lowered_refl(ef);
                lemma_lowered_trans(ea1, ea2, ef);
                lemma_lowered_trans(ea0, ea1, ef);
                lemma_plan_lowered_refl(pa0, ea0.len() as int, ef.len() as int);
                lemma_plan_lowered_weaken(pa1, pa0, ea0.len() as int, ea1.len() as int, ea0.len() as int, ef.len() as int);
                lemma_plan_lowered_trans(pa0, pa0, pa1, ea0.len() as int, ef.len() as int);
                lemma_plan_lowered_refl(pa2, ea0.len() as int, ef.len() as int);
                lemma_plan_lowered_trans(pa0, pa1, pa2, ea0.len() as int, ef.len() as int);
                lemma_plan_append(pa0, pa2, v, ea0.len() as int, ef.len() as int);
                assert(pf[pa2.len() as int] == v);
                assert(extends(pf, pa1));
                lemma_plan_matches_agree(pa1, pf, ea1, ef, pa0.len() as int, input_n.0 as int, *input);
                lemma_plan_exprs_laid_out_agree(pa1, pf, ea1, ef, pa0.len() as int, input_n.0 as int, *input, ea0.len() as int);
                lemma_expr_block_extends(ea2, ef, ea1.len() as int, predicate_n, predicate);
                assert(plan_laid_out(pf, pa0.len() as int, pa2.len() as int));
                lemma_laid_out_tree(pf, pa0.len() as int, pa2.len() as int);
                lemma_plan_wf_lowered_if(pa0, pf, ea0.len() as int, ef.len() as int);
            }
            lp_arena.add(v)
        },
        LogicalPlan::Slice { input, offset, len } => {
            let input_n = to_alp(*input, expr_arena, lp_arena);
            let ghost pa1 = lp_arena@;
            let ghost ea1 = expr_arena@;
            let v = ALogicalPlan::Slice { input: input_n, offset, len };
            proof {
                let pf = pa1.push(v);
                let ef = ea1;
                lemma_lowered_refl(ef);
                lemma_lowered_trans(ea0, ea1, ef);
                lemma_plan_lowered_refl(pa0, ea0.len() as int, ef.len() as int);
                lemma_plan_lowered_weaken(pa1, pa0, ea0.len() as int, ea1.len() as int, ea0.len() as int, ef.len() as int);
                lemma_plan_lowered_trans(pa0, pa0, pa1, ea0.len() as int, ef.len() as int);
                lemma_plan_append(pa0, pa1, v, ea0.len() as int, ef.len() as int);
                assert(pf[pa1.len() as int] == v);
                assert(extends(pf, pa1));
                lemma_plan_matches_agree(pa1, pf, ea1, ef, pa0.len() as int, input_n.0 as int, *input);
                lemma_plan_exprs_laid_out_agree(pa1, pf, ea1, ef, pa0.len() as int, input_n.0 as int, *input, ea0.len() as int);
                assert(plan_laid_out(pf, pa0.len() as int, pa1.len() as int));
                lemma_laid_out_tree(pf, pa0.len() as int, pa1.len() as int);
                lemma_plan_wf_lowered_if(pa0, pf, ea0.len() as int, ef.len() as int);
            }
            lp_arena.add(v)
        },
        LogicalPlan::Melt { input, id_vars, value_vars, schema } => {
            let input_n = to_alp(*input, expr_arena, lp_arena);
            let ghost pa1 = lp_arena@;
            let ghost ea1 = expr_arena@;
            let v = ALogicalPlan::Melt { input: input_n, id_vars, value_vars, schema };
            proof {
                let pf = pa1.push(v);
                let ef = ea1;
                lemma_lowered_refl(ef);
                lemma_lowered_trans(ea0, ea1, ef);
                lemma_plan_lowered_refl(pa0, ea0.len() as int, ef.len() as int);
                lemma_plan_lowered_weaken(pa1, pa0, ea0.len() as int, ea1.len() as int, ea0.len() as int, ef.len() as int);
                lemma_plan_lowered_trans(pa0, pa0, pa1, ea0.len() as int, ef.len() as int);
                lemma_plan_append(pa0, pa1, v, ea0.len() as int, ef.len() as int);
                assert(pf[pa1.len() as int] == v);
                assert(extends(pf, pa1));
                lemma_plan_matches_agree(pa1, pf, ea1, ef, pa0.len() as int, input_n.0 as int, *input);
                lemma_plan_exprs_laid_out_agree(pa1, pf, ea1, ef, pa0.len() as int, input_n.0 as int, *input, ea0.len() as int);
                assert(plan_laid_out(pf, pa0.len() as int, pa1.len() as int));
                lemma_laid_out_tree(pf, pa0.len() as int, pa1.len() as int);
                lemma_plan_wf_lowered_if(pa0, pf, ea0.len() as int, ef.len() as int);
            }
            lp_arena.add(v)
        },
        LogicalPlan::CsvScan { path, schema, has_header, delimiter, ignore_errors, skip_rows, stop_after_n_rows, with_columns, predicate, aggregate, cache } => {
            let predicate_n = opt_expr_to_node(predicate, expr_arena);
            let ghost pa1 = lp_arena@;
            let ghost ea1 = expr_arena@;
            let aggregate_n = exprs_to_nodes(aggregate, expr_arena);
            let ghost pa2 = lp_arena@;
            let ghost ea2 = expr_arena@;
            let v = ALogicalPlan::CsvScan {
                path,
                schema,
                has_header,
                delimiter,
                ignore_errors,
                skip_rows,
                stop_after_n_rows,
                with_columns,
                predicate: predicate_n,
                aggregate: aggregate_n,
                cache,
            };
            proof {
                let pf = pa2.push(v);
                let ef = ea2;
                lemma_lowered_refl(ef);
                lemma_lowered_trans(ea1, ea2, ef);
                lemma_lowered_trans(ea0, ea1, ef);
                lemma_plan_lowered_refl(pa0, ea0.len() as int, ef.len() as int);
                lemma_plan_lowered_refl(pa1, ea0.len() as int, ef.len() as int);
                lemma_plan_lowered_trans(pa0, pa0, pa1, ea0.len() as int, ef.len() as int);
                lemma_plan_lowered_refl(pa2, ea0.len() as int, ef.len() as int);
                lemma_plan_lowered_trans(pa0, pa1, pa2, ea0.len() as int, ef.len() as int);
                lemma_plan_append(pa0, pa2, v, ea0.len() as int, ef.len() as int);
                assert(pf[pa2.len() as int] == v);
                lemma_exprs_carry(ea2, ef, aggregate_n@, aggregate@);
                lemma_opt_blocks_extends(ea1, ef, ea0.len() as int, predicate_n, predicate, None, None);
                lemma_exprs_blocks_extends(ea2, ef, ea1.len() as int, aggregate_n@, aggregate@);
                assert(plan_laid_out(pf, pa0.len() as int, pa2.len() as int));
                lemma_laid_out_tree(pf, pa0.len() as int, pa2.len() as int);
                lemma_plan_wf_lowered_if(pa0, pf, ea0.len() as int, ef.len() as int);
            }
            lp_arena.add(v)
        },
        LogicalPlan::ParquetScan { path, schema, with_columns, predicate, aggregate, stop_after_n_rows, cache } => {
            let predicate_n = opt_expr_to_node(predicate, expr_arena);
            let ghost pa1 = lp_arena@;
            let ghost ea1 = expr_arena@;
            let aggregate_n = exprs_to_nodes(aggregate, expr_arena);
            let ghost pa2 = lp_arena@;
            let ghost ea2 = expr_arena@;
            let v = ALogicalPlan::ParquetScan {
                path,
                schema,
                with_columns,
                predicate: predicate_n,
                aggregate: aggregate_n,
                stop_after_n_rows,
                cache,
            };
            proof {
                let pf = pa2.push(v);
                let ef = ea2;
                lemma_lowered_refl(ef);
                lemma_lowered_trans(ea1, ea2, ef);
                lemma_lowered_trans(ea0, ea1, ef);
                lemma_plan_lowered_refl(pa0, ea0.len() as int, ef.len() as int);
                lemma_plan_lowered_refl(pa1, ea0.len() as int, ef.len() as int);
                lemma_plan_lowered_trans(pa0, pa0, pa1, ea0.len() as int, ef.len() as int);
                lemma_plan_lowered_refl(pa2, ea0.len() as int, ef.len() as int);
                lemma_plan_lowered_trans(pa0, pa1, pa2, ea0.len() as int, ef.len() as int);
                lemma_plan_append(pa0, pa2, v, ea0.len() as int, ef.len() as int);
                assert(pf[pa2.len() as int] == v);
                lemma_exprs_carry(ea2, ef, aggregate_n@, aggregate@);
                lemma_opt_blocks_extends(ea1, ef, ea0.len() as int, predicate_n, predicate, None, None);
                lemma_exprs_blocks_extends(ea2, ef, ea1.len() as int, aggregate_n@, aggregate@);
                assert(plan_laid_out(pf, pa0.len() as int, pa2.len() as int));
                lemma_laid_out_tree(pf, pa0.len() as int, pa2.len() as int);
                lemma_plan_wf_lowered_if(pa0, pf, ea0.len() as int, ef.len() as int);
            }
            lp_arena.add(v)
        },
        LogicalPlan::DataFrameScan { df, schema, projection, selection } => {
            let projection_n = opt_exprs_to_nodes(projection, expr_arena);
            let ghost pa1 = lp_arena@;
            let ghost ea1 = expr_arena@;
            let selection_n = opt_expr_to_node(selection, expr_arena);
            let ghost pa2 = lp_arena@;
            let ghost ea2 = expr_arena@;
            let v = ALogicalPlan::DataFrameScan {
                df,
                schema,
                projection: projection_n,
                selection: selection_n,
            };
            proof {
                let pf = pa2.push(v);
                let ef = ea2;
                lemma_lowered_refl(ef);
                lemma_lowered_trans(ea1, ea2, ef);
                lemma_lowered_trans(ea0, ea1, ef);
                lemma_plan_lowered_refl(pa0, ea0.len() as int, ef.len() as int);
                lemma_plan_lowered_refl(pa1, ea0.len() as int, ef.len() as int);
                lemma_plan_lowered_trans(pa0, pa0, pa1, ea0.len() as int, ef.len() as int);
                lemma_plan_lowered_refl(pa2, ea0.len() as int, ef.len() as int);
                lemma_plan_lowered_trans(pa0, pa1, pa2, ea0.len() as int, ef.len() as int);
                lemma_plan_append(pa0, pa2, v, ea0.len() as int, ef.len() as int);
                assert(pf[pa2.len() as int] == v);
                lemma_opt_exprs_carry(ea1, ef, projection_n, projection);
                lemma_opt_blocks_extends(ea1, ef, ea0.len() as int, None, None, projection_n, projection);
                lemma_opt_blocks_extends(ea2, ef, ea1.len() as int, selection_n, selection, None, None);
                assert(plan_laid_out(pf, pa0.len() as int, pa2.len() as int));
                lemma_laid_out_tree(pf, pa0.len() as int, pa2.len() as int);
                lemma_plan_wf_lowered_if(pa0, pf, ea0.len() as int, ef.len() as int);
            }
            lp_arena.add(v)
        },
        LogicalPlan::Projection { expr, input, schema } => {
            let expr_n = exprs_to_nodes(expr, expr_arena);
            let ghost pa1 = lp_arena@;
            let ghost ea1 = expr_arena@;
            let input_n = to_alp(*input, expr_arena, lp_arena);
            let ghost pa2 = lp_arena@;
            let ghost ea2 = expr_arena@;
            let v = ALogicalPlan::Projection { expr: expr_n, input: input_n, schema };
            proof {
                let pf = pa2.push(v);
                let ef = ea2;
                lemma_lowered_refl(ef);
                lemma_lowered_trans(ea1, ea2, ef);
                lemma_lowered_trans(ea0, ea1, ef);
                lemma_plan_lowered_refl(pa0, ea0.len() as int, ef.len() as int);
                lemma_plan_lowered_refl(pa1, ea0.len() as int, ef.len() as int);
                lemma_plan_lowered_trans(pa0, pa0, pa1, ea0.len() as int, ef.len() as int);
                lemma_plan_lowered_weaken(pa2, pa1, ea1.len() as int, ea2.len() as int, ea0.len() as int, ef.len() as int);
                lemma_plan_lowered_trans(pa0, pa1, pa2, ea0.len() as int, ef.len() as int);
                lemma_plan_append(pa0, pa2, v, ea0.len() as int, ef.len() as int);
                assert(pf[pa2.len() as int] == v);
                lemma_exprs_carry(ea1, ef, expr_n@, expr@);
                assert(extends(pf, pa2));
                lemma_plan_matches_agree(pa2, pf, ea2, ef, pa1.len() as int, input_n.0 as int, *input);
                lemma_exprs_blocks_extends(ea1, ef, ea0.len() as int, expr_n@, expr@);
                lemma_plan_exprs_laid_out_agree(pa2, pf, ea2, ef, pa1.len() as int, input_n.0 as int, *input, ea1.len() as int);
                assert(plan_laid_out(pf, pa0.len() as int, pa2.len() as int));
                lemma_laid_out_tree(pf, pa0.len() as int, pa2.len() as int);
                lemma_plan_wf_lowered_if(pa0, pf, ea0.len() as int, ef.len() as int);
            }
            lp_arena.add(v)
        },
        LogicalPlan::LocalProjection { expr, input, schema } => {
            let expr_n = exprs_to_nodes(expr, expr_arena);
            let ghost pa1 = lp_arena@;
            let ghost ea1 = expr_arena@;
            let input_n = to_alp(*input, expr_arena, lp_arena);
            let ghost pa2 = lp_arena@;
            let ghost ea2 = expr_arena@;
            let v = ALogicalPlan::LocalProjection { expr: expr_n, input: input_n, schema };
            proof {
                let pf = pa2.push(v);
                let ef = ea2;
                lemma_lowered_refl(ef);
                lemma_lowered_trans(ea1, ea2, ef);
                lemma_lowered_trans(ea0, ea1, ef);
                lemma_plan_lowered_refl(pa0, ea0.len() as int, ef.len() as int);
                lemma_plan_lowered_refl(pa1, ea0.len() as int, ef.len() as int);
                lemma_plan_lowered_trans(pa0, pa0, pa1, ea0.len() as int, ef.len() as int);
                lemma_plan_lowered_weaken(pa2, pa1, ea1.len() as int, ea2.len() as int, ea0.len() as int, ef.len() as int);
                lemma_plan_lowered_trans(pa0, pa1, pa2, ea0.len() as int, ef.len() as int);
                lemma_plan_append(pa0, pa2, v, ea0.len() as int, ef.len() as int);
                assert(pf[pa2.len() as int] == v);
                lemma_exprs_carry(ea1, ef, expr_n@, expr@);
                assert(extends(pf, pa2));
                lemma_plan_matches_agree(pa2, pf, ea2, ef, pa1.len() as int, input_n.0 as int, *input);
                lemma_exprs_blocks_extends(ea1, ef, ea0.len() as int, expr_n@, expr@);
                lemma_plan_exprs_laid_out_agree(pa2, pf, ea2, ef, pa1.len() as int, input_n.0 as int, *input, ea1.len() as int);
                assert(plan_laid_out(pf, pa0.len() as int, pa2.len() as int));
                lemma_laid_out_tree(pf, pa0.len() as int, pa2.len() as int);
                lemma_plan_wf_lowered_if(pa0, pf, ea0.len() as int, ef.len() as int);
            }
            lp_arena.add(v)
        },
        LogicalPlan::Sort { input, by_column, reverse } => {
            let input_n = to_alp(*input, expr_arena, lp_arena);
            let ghost pa1 = lp_arena@;
            let ghost ea1 = expr_arena@;
            let v = ALogicalPlan::Sort { input: input_n, by_column, reverse };
            proof {
                let pf = pa1.push(v);
                let ef = ea1;
                lemma_lowered_refl(ef);
                lemma_lowered_trans(ea0, ea1, ef);
                lemma_plan_lowered_refl(pa0, ea0.len() as int, ef.len() as int);
                lemma_plan_lowered_weaken(pa1, pa0, ea0.len() as int, ea1.len() as int, ea0.len() as int, ef.len() as int);
                lemma_plan_lowered_trans(pa0, pa0, pa1, ea0.len() as int, ef.len() as int);
                lemma_plan_append(pa0, pa1, v, ea0.len() as int, ef.len() as int);
                assert(pf[pa1.len() as int] == v);
                assert(extends(pf, pa1));
                lemma_plan_matches_agree(pa1, pf, ea1, ef, pa0.len() as int, input_n.0 as int, *input);
                lemma_plan_exprs_laid_out_agree(pa1, pf, ea1, ef, pa0.len() as int, input_n.0 as int, *input, ea0.len() as int);
                assert(plan_laid_out(pf, pa0.len() as int, pa1.len() as int));
                lemma_laid_out_tree(pf, pa0.len() as int, pa1.len() as int);
                lemma_plan_wf_lowered_if(pa0, pf, ea0.len() as int, ef.len() as int);
            }
            lp_arena.add(v)
        },
        LogicalPlan::Explode { input, columns } => {
            let input_n = to_alp(*input, expr_arena, lp_arena);
            let ghost pa1 = lp_arena@;
            let ghost ea1 = expr_arena@;
            let v = ALogicalPlan::Explode { input: input_n, columns };
            proof {
                let pf = pa1.push(v);
                let ef = ea1;
                lemma_lowered_refl(ef);
                lemma_lowered_trans(ea0, ea1, ef);
                lemma_plan_lowered_refl(pa0, ea0.len() as int, ef.len() as int);
                lemma_plan_lowered_weaken(pa1, pa0, ea0.len() as int, ea1.len() as int, ea0.len() as int, ef.len() as int);
                lemma_plan_lowered_trans(pa0, pa0, pa1, ea0.len() as int, ef.len() as int);
                lemma_plan_append(pa0, pa1, v, ea0.len() as int, ef.len() as int);
                assert(pf[pa1.len() as int] == v);
                assert(extends(pf, pa1));
                lemma_plan_matches_agree(pa1, pf, ea1, ef, pa0.len() as int, input_n.0 as int, *input);
                lemma_plan_exprs_laid_out_agree(pa1, pf, ea1, ef, pa0.len() as int, input_n.0 as int, *input, ea0.len() as int);
                assert(plan_laid_out(pf, pa0.len() as int, pa1.len() as int));
                lemma_laid_out_tree(pf, pa0.len() as int, pa1.len() as int);
                lemma_plan_wf_lowered_if(pa0, pf, ea0.len() as int, ef.len() as int);
            }
            lp_arena.add(v)
        },
        LogicalPlan::Cache { input } => {
            let input_n = to_alp(*input, expr_arena, lp_arena);
            let ghost pa1 = lp_arena@;
            let ghost ea1 = expr_arena@;
            let v = ALogicalPlan::Cache { input: input_n };
            proof {
                let pf = pa1.push(v);
                let ef = ea1;
                lemma_lowered_refl(ef);
                lemma_lowered_trans(ea0, ea1, ef);
                lemma_plan_lowered_refl(pa0, ea0.len() as int, ef.len() as int);
                lemma_plan_lowered_weaken(pa1, pa0, ea0.len() as int, ea1.len() as int, ea0.len() as int, ef.len() as int);
                lemma_plan_lowered_trans(pa0, pa0, pa1, ea0.len() as int, ef.len() as int);
                lemma_plan_append(pa0, pa1, v, ea0.len() as int, ef.len() as int);
                assert(pf[pa1.len() as int] == v);
                assert(extends(pf, pa1));
                lemma_plan_matches_agree(pa1, pf, ea1, ef, pa0.len() as int, input_n.0 as int, *input);
                lemma_plan_exprs_laid_out_agree(pa1, pf, ea1, ef, pa0.len() as int, input_n.0 as int, *input, ea0.len() as int);
                assert(plan_laid_out(pf, pa0.len() as int, pa1.len() as int));
                lemma_laid_out_tree(pf, pa0.len() as int, pa1.len() as int);
                lemma_plan_wf_lowered_if(pa0, pf, ea0.len() as int, ef.len() as int);
            }
            lp_arena.add(v)
        },
        LogicalPlan::Aggregate { input, keys, aggs, schema, apply } => {
            let input_n = to_alp(*input, expr_arena, lp_arena);
            let ghost pa1 = lp_arena@;
            let ghost ea1 = expr_arena@;
            let keys_n = exprs_to_nodes(keys, expr_arena);
            let ghost pa2 = lp_arena@;
            let ghost ea2 = expr_arena@;
            let aggs_n = exprs_to_nodes(aggs, expr_arena);
            let ghost pa3 = lp_arena@;
            let ghost ea3 = expr_arena@;
            let v = ALogicalPlan::Aggregate {
                input: input_n,
                keys: keys_n,
                aggs: aggs_n,
                schema,
                apply,
            };
            proof {
                let pf = pa3.push(v);
                let ef = ea3;
                lemma_lowered_refl(ef);
                lemma_lowered_trans(ea2, ea3, ef);
                lemma_lowered_trans(ea1, ea2, ef);
                lemma_lowered_trans(ea0, ea1, ef);
                lemma_plan_lowered_refl(pa0, ea0.len() as int, ef.len() as int);
                lemma_plan_lowered_weaken(pa1, pa0, ea0.len() as int, ea1.len() as int, ea0.len() as int, ef.len() as int);
                lemma_plan_lowered_trans(pa0, pa0, pa1, ea0.len() as int, ef.len() as int);
                lemma_plan_lowered_refl(pa2, ea0.len() as int, ef.len() as int);
                lemma_plan_lowered_trans(pa0, pa1, pa2, ea0.len() as int, ef.len() as int);
                lemma_plan_lowered_refl(pa3, ea0.len() as int, ef.len() as int);
                lemma_plan_lowered_trans(pa0, pa2, pa3, ea0.len() as int, ef.len() as int);
                lemma_plan_append(pa0, pa3, v, ea0.len() as int, ef.len() as int);
                assert(pf[pa3.len() as int] == v);
                assert(extends(pf, pa1));
                lemma_plan_matches_agree(pa1, pf, ea1, ef, pa0.len() as int, input_n.0 as int, *input);
                lemma_exprs_carry(ea2, ef, keys_n@, keys@);
                lemma_exprs_carry(ea3, ef, aggs_n@, aggs@);
                lemma_plan_exprs_laid_out_agree(pa1, pf, ea1, ef, pa0.len() as int, input_n.0 as int, *input, ea0.len() as int);
                lemma_exprs_blocks_extends(ea2, ef, ea1.len() as int, keys_n@, keys@);
                lemma_exprs_blocks_extends(ea3, ef, ea2.len() as int, aggs_n@, aggs@);
                assert(plan_laid_out(pf, pa0.len() as int, pa3.len() as int));
                lemma_laid_out_tree(pf, pa0.len() as int, pa3.len() as int);
                lemma_plan_wf_lowered_if(pa0, pf, ea0.len() as int, ef.len() as int);
            }
            lp_arena.add(v)
        },
        LogicalPlan::Join { input_left, input_right, schema, how, left_on, right_on, allow_par, force_par } => {
            let input_left_n = to_alp(*input_left, expr_arena, lp_arena);
            let ghost pa1 = lp_arena@;
            let ghost ea1 = expr_arena@;
            let input_right_n = to_alp(*input_right, expr_arena, lp_arena);
            let ghost pa2 = lp_arena@;
            let ghost ea2 = expr_arena@;
            let left_on_n = exprs_to_nodes(left_on, expr_arena);
            let ghost pa3 = lp_arena@;
            let ghost ea3 = expr_arena@;
            let right_on_n = exprs_to_nodes(right_on, expr_arena);
            let ghost pa4 = lp_arena@;
            let ghost ea4 = expr_arena@;
            let v = ALogicalPlan::Join {
                input_left: input_left_n,
                input_right: input_right_n,
                schema,
                how,
                left_on: left_on_n,
                right_on: right_on_n,
                allow_par,
                force_par,
            };
            proof {
                let pf = pa4.push(v);
                let ef = ea4;
                lemma_lowered_refl(ef);
                lemma_lowered_trans(ea3, ea4, ef);
                lemma_lowered_trans(ea2, ea3, ef);
                lemma_lowered_trans(ea1, ea2, ef);
                lemma_lowered_trans(ea0, ea1, ef);
                lemma_plan_lowered_refl(pa0, ea0.len() as int, ef.len() as int);
                lemma_plan_lowered_weaken(pa1, pa0, ea0.len() as int, ea1.len() as int, ea0.len() as int, ef.len() as int);
                lemma_plan_lowered_trans(pa0, pa0, pa1, ea0.len() as int, ef.len() as int);
                lemma_plan_lowered_weaken(pa2, pa1, ea1.len() as int, ea2.len() as int, ea0.len() as int, ef.len() as int);
                lemma_plan_lowered_trans(pa0, pa1, pa2, ea0.len() as int, ef.len() as int);
                lemma_plan_lowered_refl(pa3, ea0.len() as int, ef.len() as int);
                lemma_plan_lowered_trans(pa0, pa2, pa3, ea0.len() as int, ef.len() as int);
                lemma_plan_lowered_refl(pa4, ea0.len() as int, ef.len() as int);
                lemma_plan_lowered_trans(pa0, pa3, pa4, ea0.len() as int, ef.len() as int);
                lemma_plan_append(pa0, pa4, v, ea0.len() as int, ef.len() as int);
                assert(pf[pa4.len() as int] == v);
                assert(extends(pf, pa1));
                lemma_plan_matches_agree(pa1, pf, ea1, ef, pa0.len() as int, input_left_n.0 as int, *input_left);
                assert(extends(pf, pa2));
                lemma_plan_matches_agree(pa2, pf, ea2, ef, pa1.len() as int, input_right_n.0 as int, *input_right);
                lemma_exprs_carry(ea3, ef, left_on_n@, left_on@);
                lemma_exprs_carry(ea4, ef, right_on_n@, right_on@);
                lemma_plan_exprs_laid_out_agree(pa1, pf, ea1, ef, pa0.len() as int, input_left_n.0 as int, *input_left, ea0.len() as int);
                lemma_plan_exprs_laid_out_agree(pa2, pf, ea2, ef, pa1.len() as int, input_right_n.0 as int, *input_right, ea1.len() as int);
                lemma_exprs_blocks_extends(ea3, ef, ea2.len() as int, left_on_n@, left_on@);
                lemma_exprs_blocks_extends(ea4, ef, ea3.len() as int, right_on_n@, right_on@);
                assert(plan_laid_out(pf, pa0.len() as int, pa4.len() as int));
                lemma_laid_out_tree(pf, pa0.len() as int, pa4.len() as int);
                lemma_plan_wf_lowered_if(pa0, pf, ea0.len() as int, ef.len() as int);
            }
            lp_arena.add(v)
        },
        LogicalPlan::HStack { input, exprs, schema } => {
            let input_n = to_alp(*input, expr_arena, lp_arena);
            let ghost pa1 = lp_arena@;
            let ghost ea1 = expr_arena@;
            let exprs_n = exprs_to_nodes(exprs, expr_arena);
            let ghost pa2 = lp_arena@;
            let ghost ea2 = expr_arena@;
            let v = ALogicalPlan::HStack { input: input_n, exprs: exprs_n, schema };
            proof {
                let pf = pa2.push(v);
                let ef = ea2;
                lemma_lowered_refl(ef);
                lemma_lowered_trans(ea1, ea2, ef);
                lemma_lowered_trans(ea0, ea1, ef);
                lemma_plan_lowered_refl(pa0, ea0.len() as int, ef.len() as int);
                lemma_plan_lowered_weaken(pa1, pa0, ea0.len() as int, ea1.len() as int, ea0.len() as int, ef.len() as int);
                lemma_plan_lowered_trans(pa0, pa0, pa1, ea0.len() as int, ef.len() as int);
                lemma_plan_lowered_refl(pa2, ea0.len() as int, ef.len() as int);
                lemma_plan_lowered_trans(pa0, pa1, pa2, ea0.len() as int, ef.len() as int);
                lemma_plan_append(pa0, pa2, v, ea0.len() as int, ef.len() as int);
                assert(pf[pa2.len() as int] == v);
                assert(extends(pf, pa1));
                lemma_plan_matches_agree(pa1, pf, ea1, ef, pa0.len() as int, input_n.0 as int, *input);
                lemma_exprs_carry(ea2, ef, exprs_n@, exprs@);
                lemma_plan_exprs_laid_out_agree(pa1, pf, ea1, ef, pa0.len() as int, input_n.0 as int, *input, ea0.len() as int);
                lemma_exprs_blocks_extends(ea2, ef, ea1.len() as int, exprs_n@, exprs@);
                assert(plan_laid_out(pf, pa0.len() as int, pa2.len() as int));
                lemma_laid_out_tree(pf, pa0.len() as int, pa2.len() as int);
                lemma_plan_wf_lowered_if(pa0, pf, ea0.len() as int, ef.len() as int);
            }
            lp_arena.add(v)
        },
        LogicalPlan::Distinct { input, maintain_order, subset } => {
            let input_n = to_alp(*input, expr_arena, lp_arena);
            let ghost pa1 = lp_arena@;
            let ghost ea1 = expr_arena@;
            let v = ALogicalPlan::Distinct { input: input_n, maintain_order, subset };
            proof {
                let pf = pa1.push(v);
                let ef = ea1;
                lemma_lowered_refl(ef);
                lemma_lowered_trans(ea0, ea1, ef);
                lemma_plan_lowered_refl(pa0, ea0.len() as int, ef.len() as int);
                lemma_plan_lowered_weaken(pa1, pa0, ea0.len() as int, ea1.len() as int, ea0.len() as int, ef.len() as int);
                lemma_plan_lowered_trans(pa0, pa0, pa1, ea0.len() as int, ef.len() as int);
                lemma_plan_append(pa0, pa1, v, ea0.len() as int, ef.len() as int);
                assert(pf[pa1.len() as int] == v);
                assert(extends(pf, pa1));
                lemma_plan_matches_agree(pa1, pf, ea1, ef, pa0.len() as int, input_n.0 as int, *input);
                lemma_plan_exprs_laid_out_agree(pa1, pf, ea1, ef, pa0.len() as int, input_n.0 as int, *input, ea0.len() as int);
                assert(plan_laid_out(pf, pa0.len() as int, pa1.len() as int));
                lemma_laid_out_tree(pf, pa0.len() as int, pa1.len() as int);
                lemma_plan_wf_lowered_if(pa0, pf, ea0.len() as int, ef.len() as int);
            }
            lp_arena.add(v)
        },
        LogicalPlan::Udf { input, function, projection_pd, predicate_pd, schema } => {
            let input_n = to_alp(*input, expr_arena, lp_arena);
            let ghost pa1 = lp_arena@;
            let ghost ea1 = expr_arena@;
            let v = ALogicalPlan::Udf {
                input: input_n,
                function,
                projection_pd,
                predicate_pd,
                schema,
            };
            proof {
                let pf = pa1.push(v);
                let ef = ea1;
                lemma_lowered_refl(ef);
                lemma_lowered_trans(ea0, ea1, ef);
                lemma_plan_lowered_refl(pa0, ea0.len() as int, ef.len() as int);
                lemma_plan_lowered_weaken(pa1, pa0, ea0.len() as int, ea1.len() as int, ea0.len() as int, ef.len() as int);
                lemma_plan_lowered_trans(pa0, pa0, pa1, ea0.len() as int, ef.len() as int);
                lemma_plan_append(pa0, pa1, v, ea0.len() as int, ef.len() as int);
                assert(pf[pa1.len() as int] == v);
                assert(extends(pf, pa1));
                lemma_plan_matches_agree(pa1, pf, ea1, ef, pa0.len() as int, input_n.0 as int, *input);
                lemma_plan_exprs_laid_out_agree(pa1, pf, ea1, ef, pa0.len() as int, input_n.0 as int, *input, ea0.len() as int);
                assert(plan_laid_out(pf, pa0.len() as int, pa1.len() as int));
                lemma_laid_out_tree(pf, pa0.len() as int, pa1.len() as int);
                lemma_plan_wf_lowered_if(pa0, pf, ea0.len() as int, ef.len() as int);
            }
            lp_arena.add(v)
        },
    }
}

/// Expression lists keep their meaning when their arena's slots keep theirs.
pub proof fn lemma_exprs_carry(ea1: Seq<AExpr>, ea2: Seq<AExpr>, v: Seq<Node>, es: Seq<Expr>)
    requires
        exprs_are(ea1, v, es),
        ea1.len() <= ea2.len(),
        forall|m: int| 0 <= m < ea1.len() ==> #[trigger] expr_at(ea2, m) == expr_at(ea1, m),
    ensures
        exprs_are(ea2, v, es),
{
    assert forall|k: int| 0 <= k < v.len() implies expr_is(ea2, #[trigger] v[k], es[k]) by {
        assert(expr_is(ea1, v[k], es[k]));
    }
}

pub proof fn lemma_opt_exprs_carry(ea1: Seq<AExpr>, ea2: Seq<AExpr>, o: Option<Vec<Node>>, e: Option<Vec<Expr>>)
    requires
        opt_exprs_are(ea1, o, e),
        ea1.len() <= ea2.len(),
        forall|m: int| 0 <= m < ea1.len() ==> #[trigger] expr_at(ea2, m) == expr_at(ea1, m),
    ensures
        opt_exprs_are(ea2, o, e),
{
    match (o, e) {
        (Some(v), Some(es)) => lemma_exprs_carry(ea1, ea2, v@, es@),
        _ => {},
    }
}

proof fn lemma_plan_wf_lowered_if(before: Seq<ALogicalPlan>, pa: Seq<ALogicalPlan>, elo: int, ehi: int)
    requires
        plan_lowered_from(pa, before, elo, ehi),
        0 <= elo <= ehi,
    ensures
        plan_arena_wf(before, elo) ==> plan_arena_wf(pa, ehi),
{
    if plan_arena_wf(before, elo) {
        lemma_plan_wf_lowered(before, pa, elo, ehi);
    }
}

/// Reads the plan at `node` back as a tree, taking each plan slot it visits
/// and leaving a placeholder there: plan payloads are moved out, not copied.
/// Expressions are read without change to their arena. Where the plan at
/// `node` is a tree (no slot shared between inputs), the result is the plan
/// the slots stood for and only the slots it reaches are taken.
#[verifier::rlimit(100)]
pub fn node_to_lp(node: Node, expr_arena: &Arena<AExpr>, lp_arena: &mut Arena<ALogicalPlan>) -> (r: LogicalPlan)
    requires
        node.0 < old(lp_arena)@.len(),
        expr_arena_wf(expr_arena@),
        plan_arena_wf(old(lp_arena)@, expr_arena@.len() as int),
    ensures
        final(lp_arena)@.len() == old(lp_arena)@.len(),
        plan_arena_wf(final(lp_arena)@, expr_arena@.len() as int),
        is_alp_placeholder(final(lp_arena)@[node.0 as int]),
        forall|i: int| node.0 < i < old(lp_arena)@.len() ==> final(lp_arena)@[i] == old(lp_arena)@[i],
        forall|i: int|
            0 <= i < old(lp_arena)@.len() ==> #[trigger] final(lp_arena)@[i] == old(lp_arena)@[i]
                || is_alp_placeholder(final(lp_arena)@[i]),
        plan_tree(old(lp_arena)@, node.0 as int) ==> {
            &&& plan_matches(old(lp_arena)@, expr_arena@, node.0 as int, r)
            &&& forall|i: int|
                0 <= i < old(lp_arena)@.len() && !plan_reach(old(lp_arena)@, node.0 as int).contains(i)
                    ==> final(lp_arena)@[i] == old(lp_arena)@[i]
            &&& forall|i: int|
                plan_reach(old(lp_arena)@, node.0 as int).contains(i) ==> is_alp_placeholder(final(lp_arena)@[i])
        },
        is_alp_placeholder(old(lp_arena)@[node.0 as int]) ==> is_plan_placeholder(r),
    decreases node.0,
{
    let ghost pa0 = lp_arena@;
    let ghost n = node.0 as int;
    proof {
        assert(alp_inputs_within(pa0[n], 0, n));
    }
    let lp = lp_arena.replace(node, ALogicalPlan::placeholder());
    let ghost pa1 = lp_arena@;
    proof {
        assert forall|i: int| 0 <= i < pa1.len() implies {
            &&& #[trigger] alp_inputs_within(pa1[i], 0, i)
            &&& alp_exprs_within(pa1[i], 0, expr_arena@.len() as int)
        } by {
            if i != n {
                assert(pa1[i] == pa0[i]);
                assert(alp_inputs_within(pa0[i], 0, i));
            }
        }
        assert(plan_arena_wf(pa1, expr_arena@.len() as int));
    }
    match lp {
        ALogicalPlan::Selection { input, predicate } => {
            let input_t = Box::new(node_to_lp(input, expr_arena, lp_arena));
            let r = LogicalPlan::Selection {
                input: input_t,
                predicate: node_to_exp(predicate, expr_arena),
            };
            proof {
                if plan_tree(pa0, n) {
                    lemma_reach_bound(pa0, input.0 as int);
                    lemma_tree_agree(pa0, pa1, input.0 as int);
                    lemma_plan_matches_agree_tree(pa1, pa0, expr_arena@, input.0 as int, *input_t);
                    assert(plan_reach(pa0, n) =~= plan_reach(pa0, input.0 as int).insert(n));
                }
            }
            r
        },
        ALogicalPlan::Slice { input, offset, len } => {
            let input_t = Box::new(node_to_lp(input, expr_arena, lp_arena));
            let r = LogicalPlan::Slice { input: input_t, offset, len };
            proof {
                if plan_tree(pa0, n) {
                    lemma_reach_bound(pa0, input.0 as int);
                    lemma_tree_agree(pa0, pa1, input.0 as int);
                    lemma_plan_matches_agree_tree(pa1, pa0, expr_arena@, input.0 as int, *input_t);
                    assert(plan_reach(pa0, n) =~= plan_reach(pa0, input.0 as int).insert(n));
                }
            }
            r
        },
        ALogicalPlan::Melt { input, id_vars, value_vars, schema } => {
            let input_t = Box::new(node_to_lp(input, expr_arena, lp_arena));
            let r = LogicalPlan::Melt { input: input_t, id_vars, value_vars, schema };
            proof {
                if plan_tree(pa0, n) {
                    lemma_reach_bound(pa0, input.0 as int);
                    lemma_tree_agree(pa0, pa1, input.0 as int);
                    lemma_plan_matches_agree_tree(pa1, pa0, expr_arena@, input.0 as int, *input_t);
                    assert(plan_reach(pa0, n) =~= plan_reach(pa0, input.0 as int).insert(n));
                }
            }
            r
        },
        ALogicalPlan::CsvScan { path, schema, has_header, delimiter, ignore_errors, skip_rows, stop_after_n_rows, with_columns, predicate, aggregate, cache } => {
            let r = LogicalPlan::CsvScan {
                path,
                schema,
                has_header,
                delimiter,
                ignore_errors,
                skip_rows,
                stop_after_n_rows,
                with_columns,
                predicate: opt_node_to_expr(&predicate, expr_arena),
                aggregate: nodes_to_exprs(&aggregate, expr_arena),
                cache,
            };
            proof {
                if plan_tree(pa0, n) {
                    assert(plan_reach(pa0, n) =~= set![n]);
                }
            }
            r
        },
        ALogicalPlan::ParquetScan { path, schema, with_columns, predicate, aggregate, stop_after_n_rows, cache } => {
            let r = LogicalPlan::ParquetScan {
                path,
                schema,
                with_columns,
                predicate: opt_node_to_expr(&predicate, expr_arena),
                aggregate: nodes_to_exprs(&aggregate, expr_arena),
                stop_after_n_rows,
                cache,
            };
            proof {
                if plan_tree(pa0, n) {
                    assert(plan_reach(pa0, n) =~= set![n]);
                }
            }
            r
        },
        ALogicalPlan::DataFrameScan { df, schema, projection, selection } => {
            let r = LogicalPlan::DataFrameScan {
                df,
                schema,
                projection: opt_nodes_to_exprs(&projection, expr_arena),
                selection: opt_node_to_expr(&selection, expr_arena),
            };
            proof {
                if plan_tree(pa0, n) {
                    assert(plan_reach(pa0, n) =~= set![n]);
                }
            }
            r
        },
        ALogicalPlan::Projection { expr, input, schema } => {
            let input_t = Box::new(node_to_lp(input, expr_arena, lp_arena));
            let r = LogicalPlan::Projection {
                expr: nodes_to_exprs(&expr, expr_arena),
                input: input_t,
                schema,
            };
            proof {
                if plan_tree(pa0, n) {
                    lemma_reach_bound(pa0, input.0 as int);
                    lemma_tree_agree(pa0, pa1, input.0 as int);
                    lemma_plan_matches_agree_tree(pa1, pa0, expr_arena@, input.0 as int, *input_t);
                    assert(plan_reach(pa0, n) =~= plan_reach(pa0, input.0 as int).insert(n));
                }
            }
            r
        },
        ALogicalPlan::LocalProjection { expr, input, schema } => {
            let input_t = Box::new(node_to_lp(input, expr_arena, lp_arena));
            let r = LogicalPlan::LocalProjection {
                expr: nodes_to_exprs(&expr, expr_arena),
                input: input_t,
                schema,
            };
            proof {
                if plan_tree(pa0, n) {
                    lemma_reach_bound(pa0, input.0 as int);
                    lemma_tree_agree(pa0, pa1, input.0 as int);
                    lemma_plan_matches_agree_tree(pa1, pa0, expr_arena@, input.0 as int, *input_t);
                    assert(plan_reach(pa0, n) =~= plan_reach(pa0, input.0 as int).insert(n));
                }
            }
            r
        },
        ALogicalPlan::Sort { input, by_column, reverse } => {
            let input_t = Box::new(node_to_lp(input, expr_arena, lp_arena));
            let r = LogicalPlan::Sort { input: input_t, by_column, reverse };
            proof {
                if plan_tree(pa0, n) {
                    lemma_reach_bound(pa0, input.0 as int);
                    lemma_tree_agree(pa0, pa1, input.0 as int);
                    lemma_plan_matches_agree_tree(pa1, pa0, expr_arena@, input.0 as int, *input_t);
                    assert(plan_reach(pa0, n) =~= plan_reach(pa0, input.0 as int).insert(n));
                }
            }
            r
        },
        ALogicalPlan::Explode { input, columns } => {
            let input_t = Box::new(node_to_lp(input, expr_arena, lp_arena));
            let r = LogicalPlan::Explode { input: input_t, columns };
            proof {
                if plan_tree(pa0, n) {
                    lemma_reach_bound(pa0, input.0 as int);
                    lemma_tree_agree(pa0, pa1, input.0 as int);
                    lemma_plan_matches_agree_tree(pa1, pa0, expr_arena@, input.0 as int, *input_t);
                    assert(plan_reach(pa0, n) =~= plan_reach(pa0, input.0 as int).insert(n));
                }
            }
            r
        },
        ALogicalPlan::Cache { input } => {
            let input_t = Box::new(node_to_lp(input, expr_arena, lp_arena));
            let r = LogicalPlan::Cache { input: input_t };
            proof {
                if plan_tree(pa0, n) {
                    lemma_reach_bound(pa0, input.0 as int);
                    lemma_tree_agree(pa0, pa1, input.0 as int);
                    lemma_plan_matches_agree_tree(pa1, pa0, expr_arena@, input.0 as int, *input_t);
                    assert(plan_reach(pa0, n) =~= plan_reach(pa0, input.0 as int).insert(n));
                }
            }
            r
        },
        ALogicalPlan::Aggregate { input, keys, aggs, schema, apply } => {
            let input_t = Box::new(node_to_lp(input, expr_arena, lp_arena));
            let r = LogicalPlan::Aggregate {
                input: input_t,
                keys: nodes_to_exprs(&keys, expr_arena),
                aggs: nodes_to_exprs(&aggs, expr_arena),
                schema,
                apply,
            };
            proof {
                if plan_tree(pa0, n) {
                    lemma_reach_bound(pa0, input.0 as int);
                    lemma_tree_agree(pa0, pa1, input.0 as int);
                    lemma_plan_matches_agree_tree(pa1, pa0, expr_arena@, input.0 as int, *input_t);
                    assert(plan_reach(pa0, n) =~= plan_reach(pa0, input.0 as int).insert(n));
                }
            }
            r
        },
        ALogicalPlan::Join { input_left, input_right, schema, how, left_on, right_on, allow_par, force_par } => {
            let input_left_t = Box::new(node_to_lp(input_left, expr_arena, lp_arena));
            let ghost q1 = lp_arena@;
            let input_right_t = Box::new(node_to_lp(input_right, expr_arena, lp_arena));
            let r = LogicalPlan::Join {
                input_left: input_left_t,
                input_right: input_right_t,
                schema,
                how,
                left_on: nodes_to_exprs(&left_on, expr_arena),
                right_on: nodes_to_exprs(&right_on, expr_arena),
                allow_par,
                force_par,
            };
            proof {
                if plan_tree(pa0, n) {
                    lemma_reach_bound(pa0, input_left.0 as int);
                    lemma_tree_agree(pa0, pa1, input_left.0 as int);
                    lemma_plan_matches_agree_tree(pa1, pa0, expr_arena@, input_left.0 as int, *input_left_t);
                    lemma_reach_bound(pa0, input_right.0 as int);
                    assert forall|i: int| plan_reach(pa0, input_right.0 as int).contains(i) implies q1[i] == pa0[i] by {
                        assert(!plan_reach(pa0, input_left.0 as int).contains(i));
                    }
                    lemma_tree_agree(pa0, q1, input_right.0 as int);
                    lemma_plan_matches_agree_tree(q1, pa0, expr_arena@, input_right.0 as int, *input_right_t);
                    assert(plan_reach(pa0, n) =~= plan_reach(pa0, input_left.0 as int).union(plan_reach(pa0, input_right.0 as int)).insert(n));
                }
            }
            r
        },
        ALogicalPlan::HStack { input, exprs, schema } => {
            let input_t = Box::new(node_to_lp(input, expr_arena, lp_arena));
            let r = LogicalPlan::HStack {
                input: input_t,
                exprs: nodes_to_exprs(&exprs, expr_arena),
                schema,
            };
            proof {
                if plan_tree(pa0, n) {
                    lemma_reach_bound(pa0, input.0 as int);
                    lemma_tree_agree(pa0, pa1, input.0 as int);
                    lemma_plan_matches_agree_tree(pa1, pa0, expr_arena@, input.0 as int, *input_t);
                    assert(plan_reach(pa0, n) =~= plan_reach(pa0, input.0 as int).insert(n));
                }
            }
            r
        },
        ALogicalPlan::Distinct { input, maintain_order, subset } => {
            let input_t = Box::new(node_to_lp(input, expr_arena, lp_arena));
            let r = LogicalPlan::Distinct { input: input_t, maintain_order, subset };
            proof {
                if plan_tree(pa0, n) {
                    lemma_reach_bound(pa0, input.0 as int);
                    lemma_tree_agree(pa0, pa1, input.0 as int);
                    lemma_plan_matches_agree_tree(pa1, pa0, expr_arena@, input.0 as int, *input_t);
                    assert(plan_reach(pa0, n) =~= plan_reach(pa0, input.0 as int).insert(n));
                }
            }
            r
        },
        ALogicalPlan::Udf { input, function, projection_pd, predicate_pd, schema } => {
            let input_t = Box::new(node_to_lp(input, expr_arena, lp_arena));
            let r = LogicalPlan::Udf {
                input: input_t,
                function,
                projection_pd,
                predicate_pd,
                schema,
            };
            proof {
                if plan_tree(pa0, n) {
                    lemma_reach_bound(pa0, input.0 as int);
                    lemma_tree_agree(pa0, pa1, input.0 as int);
                    lemma_plan_matches_agree_tree(pa1, pa0, expr_arena@, input.0 as int, *input_t);
                    assert(plan_reach(pa0, n) =~= plan_reach(pa0, input.0 as int).insert(n));
                }
            }
            r
        },
    }
}

/// A slot stands for at most one plan, up to `same_plan`.
pub proof fn lemma_plan_matches_unique(pa: Seq<ALogicalPlan>, ea: Seq<AExpr>, n: int, p: LogicalPlan, q: LogicalPlan)
    requires
        plan_matches(pa, ea, n, p),
        plan_matches(pa, ea, n, q),
    ensures
        same_plan(p, q),
    decreases p,
{
    match p {
        LogicalPlan::Selection { input, .. } => match q {
            LogicalPlan::Selection { input: q_input, .. } => match pa[n] {
                ALogicalPlan::Selection { input: a_input, .. } => {
                    lemma_plan_matches_unique(pa, ea, a_input.0 as int, *input, *q_input);
                },
                _ => {},
            },
            _ => {},
        },
        LogicalPlan::Slice { input, .. } => match q {
            LogicalPlan::Slice { input: q_input, .. } => match pa[n] {
                ALogicalPlan::Slice { input: a_input, .. } => {
                    lemma_plan_matches_unique(pa, ea, a_input.0 as int, *input, *q_input);
                },
                _ => {},
            },
            _ => {},
        },
        LogicalPlan::Melt { input, .. } => match q {
            LogicalPlan::Melt { input: q_input, .. } => match pa[n] {
                ALogicalPlan::Melt { input: a_input, .. } => {
                    lemma_plan_matches_unique(pa, ea, a_input.0 as int, *input, *q_input);
                },
                _ => {},
            },
            _ => {},
        },
        LogicalPlan::CsvScan { aggregate, .. } => match q {
            LogicalPlan::CsvScan { aggregate: q_aggregate, .. } => match pa[n] {
                ALogicalPlan::CsvScan { aggregate: a_aggregate, .. } => {
                    lemma_exprs_unique(ea, a_aggregate@, aggregate@, q_aggregate@);
                },
                _ => {},
            },
            _ => {},
        },
        LogicalPlan::ParquetScan { aggregate, .. } => match q {
            LogicalPlan::ParquetScan { aggregate: q_aggregate, .. } => match pa[n] {
                ALogicalPlan::ParquetScan { aggregate: a_aggregate, .. } => {
                    lemma_exprs_unique(ea, a_aggregate@, aggregate@, q_aggregate@);
                },
                _ => {},
            },
            _ => {},
        },
        LogicalPlan::DataFrameScan { projection, .. } => match q {
            LogicalPlan::DataFrameScan { projection: q_projection, .. } => match pa[n] {
                ALogicalPlan::DataFrameScan { projection: a_projection, .. } => {
                    match (a_projection, projection, q_projection) { (Some(v), Some(x), Some(y)) => lemma_exprs_unique(ea, v@, x@, y@), _ => {} }
                },
                _ => {},
            },
            _ => {},
        },
        LogicalPlan::Projection { expr, input, .. } => match q {
            LogicalPlan::Projection { expr: q_expr, input: q_input, .. } => match pa[n] {
                ALogicalPlan::Projection { expr: a_expr, input: a_input, .. } => {
                    lemma_exprs_unique(ea, a_expr@, expr@, q_expr@);
                    lemma_plan_matches_unique(pa, ea, a_input.0 as int, *input, *q_input);
                },
                _ => {},
            },
            _ => {},
        },
        LogicalPlan::LocalProjection { expr, input, .. } => match q {
            LogicalPlan::LocalProjection { expr: q_expr, input: q_input, .. } => match pa[n] {
                ALogicalPlan::LocalProjection { expr: a_expr, input: a_input, .. } => {
                    lemma_exprs_unique(ea, a_expr@, expr@, q_expr@);
                    lemma_plan_matches_unique(pa, ea, a_input.0 as int, *input, *q_input);
                },
                _ => {},
            },
            _ => {},
        },
        LogicalPlan::Sort { input, .. } => match q {
            LogicalPlan::Sort { input: q_input, .. } => match pa[n] {
                ALogicalPlan::Sort { input: a_input, .. } => {
                    lemma_plan_matches_unique(pa, ea, a_input.0 as int, *input, *q_input);
                },
                _ => {},
            },
            _ => {},
        },
        LogicalPlan::Explode { input, .. } => match q {
            LogicalPlan::Explode { input: q_input, .. } => match pa[n] {
                ALogicalPlan::Explode { input: a_input, .. } => {
                    lemma_plan_matches_unique(pa, ea, a_input.0 as int, *input, *q_input);
                },
                _ => {},
            },
            _ => {},
        },
        LogicalPlan::Cache { input } => match q {
            LogicalPlan::Cache { input: q_input } => match pa[n] {
                ALogicalPlan::Cache { input: a_input } => {
                    lemma_plan_matches_unique(pa, ea, a_input.0 as int, *input, *q_input);
                },
                _ => {},
            },
            _ => {},
        },
        LogicalPlan::Aggregate { input, keys, aggs, .. } => match q {
            LogicalPlan::Aggregate { input: q_input, keys: q_keys, aggs: q_aggs, .. } => match pa[n] {
                ALogicalPlan::Aggregate { input: a_input, keys: a_keys, aggs: a_aggs, .. } => {
                    lemma_plan_matches_unique(pa, ea, a_input.0 as int, *input, *q_input);
                    lemma_exprs_unique(ea, a_keys@, keys@, q_keys@);
                    lemma_exprs_unique(ea, a_aggs@, aggs@, q_aggs@);
                },
                _ => {},
            },
            _ => {},
        },
        LogicalPlan::Join { input_left, input_right, left_on, right_on, .. } => match q {
            LogicalPlan::Join { input_left: q_input_left, input_right: q_input_right, left_on: q_left_on, right_on: q_right_on, .. } => match pa[n] {
                ALogicalPlan::Join { input_left: a_input_left, input_right: a_input_right, left_on: a_left_on, right_on: a_right_on, .. } => {
                    lemma_plan_matches_unique(pa, ea, a_input_left.0 as int, *input_left, *q_input_left);
                    lemma_plan_matches_unique(pa, ea, a_input_right.0 as int, *input_right, *q_input_right);
                    lemma_exprs_unique(ea, a_left_on@, left_on@, q_left_on@);
                    lemma_exprs_unique(ea, a_right_on@, right_on@, q_right_on@);
                },
                _ => {},
            },
            _ => {},
        },
        LogicalPlan::HStack { input, exprs, .. } => match q {
            LogicalPlan::HStack { input: q_input, exprs: q_exprs, .. } => match pa[n] {
                ALogicalPlan::HStack { input: a_input, exprs: a_exprs, .. } => {
                    lemma_plan_matches_unique(pa, ea, a_input.0 as int, *input, *q_input);
                    lemma_exprs_unique(ea, a_exprs@, exprs@, q_exprs@);
                },
                _ => {},
            },
            _ => {},
        },
        LogicalPlan::Distinct { input, .. } => match q {
            LogicalPlan::Distinct { input: q_input, .. } => match pa[n] {
                ALogicalPlan::Distinct { input: a_input, .. } => {
                    lemma_plan_matches_unique(pa, ea, a_input.0 as int, *input, *q_input);
                },
                _ => {},
            },
            _ => {},
        },
        LogicalPlan::Udf { input, .. } => match q {
            LogicalPlan::Udf { input: q_input, .. } => match pa[n] {
                ALogicalPlan::Udf { input: a_input, .. } => {
                    lemma_plan_matches_unique(pa, ea, a_input.0 as int, *input, *q_input);
                },
                _ => {},
            },
            _ => {},
        },
    }
}

pub proof fn lemma_exprs_unique(ea: Seq<AExpr>, v: Seq<Node>, x: Seq<Expr>, y: Seq<Expr>)
    requires
        exprs_are(ea, v, x),
        exprs_are(ea, v, y),
    ensures
        x == y,
{
    assert forall|k: int| 0 <= k < x.len() implies x[k] == y[k] by {
        assert(expr_is(ea, v[k], x[k]));
        assert(expr_is(ea, v[k], y[k]));
    }
    assert(x =~= y);
}

} // verus!

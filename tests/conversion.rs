use lazy_ir::arena::{Arena, Node};
use lazy_ir::expr::{node_to_exp, to_aexpr, AAggExpr, AExpr, AggExpr, Expr};
use lazy_ir::plan::{node_to_lp, to_alp, ALogicalPlan, LogicalPlan};
use lazy_ir::types::{
    DataFrame, DataType, Field, FunctionRef, JoinType, Operator, ScalarValue, Schema, Series,
};

fn col(name: &str) -> Expr {
    Expr::Column(name.to_string())
}

fn lit(v: i64) -> Expr {
    Expr::Literal(ScalarValue::Int64(v))
}

fn bin(l: Expr, op: Operator, r: Expr) -> Expr {
    Expr::BinaryExpr { left: Box::new(l), op, right: Box::new(r) }
}

fn schema_x() -> Schema {
    Schema::new(vec![Field::new("x".to_string(), DataType::Int64)])
}

fn frame() -> DataFrame {
    DataFrame::new(vec![Series {
        name: "x".to_string(),
        values: vec![ScalarValue::Int64(3), ScalarValue::Int64(7)],
    }])
}

fn scan() -> LogicalPlan {
    LogicalPlan::DataFrameScan { df: frame(), schema: schema_x(), projection: None, selection: None }
}

fn agg(a: AggExpr) -> Expr {
    Expr::Agg(a)
}

fn every_kind_expr() -> Expr {
    let b = |e: Expr| Box::new(e);
    let aggs = vec![
        agg(AggExpr::Min(b(col("a")))),
        agg(AggExpr::Max(b(col("a")))),
        agg(AggExpr::Median(b(col("a")))),
        agg(AggExpr::NUnique(b(col("a")))),
        agg(AggExpr::First(b(col("a")))),
        agg(AggExpr::Last(b(col("a")))),
        agg(AggExpr::Mean(b(col("a")))),
        agg(AggExpr::List(b(col("a")))),
        agg(AggExpr::Count(b(col("a")))),
        agg(AggExpr::Quantile { expr: b(col("a")), quantile: 500_000 }),
        agg(AggExpr::Sum(b(col("a")))),
        agg(AggExpr::Std(b(col("a")))),
        agg(AggExpr::Var(b(col("a")))),
        agg(AggExpr::AggGroups(b(col("a")))),
    ];
    let mut acc = Expr::Wildcard;
    for a in aggs {
        acc = bin(acc, Operator::Plus, a);
    }
    let window = Expr::Window {
        function: b(acc),
        partition_by: b(col("g")),
        order_by: Some(b(col("t"))),
    };
    let window_unordered = Expr::Window { function: b(col("v")), partition_by: b(col("g")), order_by: None };
    let ternary = Expr::Ternary {
        predicate: b(Expr::IsNull(b(col("p")))),
        truthy: b(Expr::IsNotNull(b(col("q")))),
        falsy: b(Expr::Not(b(col("r")))),
    };
    let f = Expr::BinaryFunction {
        input_a: b(window),
        input_b: b(ternary),
        function: FunctionRef(9),
        output_field: Field::new("out".to_string(), DataType::Utf8),
    };
    let u = Expr::Udf { input: b(f), function: FunctionRef(4), output_type: Some(DataType::Boolean) };
    let s = Expr::Slice { input: b(u), offset: -2, length: 10 };
    let sh = Expr::Shift { input: b(s), periods: -1 };
    let sort = Expr::Sort { expr: b(sh), reverse: true };
    let sort_by = Expr::SortBy { expr: b(sort), by: b(window_unordered), reverse: false };
    let filter = Expr::Filter { input: b(sort_by), by: b(Expr::Literal(ScalarValue::Boolean(true))) };
    let cast = Expr::Cast { expr: b(filter), data_type: DataType::UInt32 };
    let alias = Expr::Alias(b(cast), "renamed".to_string());
    let rest = Expr::IsUnique(b(Expr::Duplicated(b(Expr::Reverse(b(Expr::Explode(b(Expr::Except(b(
        Expr::Literal(ScalarValue::Utf8("s".to_string())),
    ))))))))));
    bin(alias, Operator::And, rest)
}

fn deep_plan() -> LogicalPlan {
    let csv = LogicalPlan::CsvScan {
        path: "data.csv".to_string(),
        schema: schema_x(),
        has_header: true,
        delimiter: b';',
        ignore_errors: false,
        skip_rows: 2,
        stop_after_n_rows: Some(100),
        with_columns: Some(vec!["x".to_string()]),
        predicate: Some(bin(col("x"), Operator::GtEq, lit(0))),
        aggregate: vec![agg(AggExpr::Sum(Box::new(col("x"))))],
        cache: true,
    };
    let sel = LogicalPlan::Selection { input: Box::new(csv), predicate: bin(col("x"), Operator::Lt, lit(9)) };
    let proj = LogicalPlan::Projection { expr: vec![col("x"), lit(1)], input: Box::new(sel), schema: schema_x() };
    let local = LogicalPlan::LocalProjection { expr: vec![col("x")], input: Box::new(proj), schema: schema_x() };
    let slice = LogicalPlan::Slice { input: Box::new(local), offset: 1, len: 5 };
    let melt = LogicalPlan::Melt {
        input: Box::new(slice),
        id_vars: vec!["x".to_string()],
        value_vars: vec!["y".to_string(), "z".to_string()],
        schema: schema_x(),
    };
    let cache = LogicalPlan::Cache { input: Box::new(melt) };
    let sort = LogicalPlan::Sort { input: Box::new(cache), by_column: "x".to_string(), reverse: true };
    let explode = LogicalPlan::Explode { input: Box::new(sort), columns: vec!["x".to_string()] };
    let aggregate = LogicalPlan::Aggregate {
        input: Box::new(explode),
        keys: vec![col("k")],
        aggs: vec![agg(AggExpr::Mean(Box::new(col("x")))), agg(AggExpr::Count(Box::new(col("x"))))],
        schema: schema_x(),
        apply: Some(FunctionRef(2)),
    };
    let hstack = LogicalPlan::HStack { input: Box::new(aggregate), exprs: vec![lit(4)], schema: schema_x() };
    let distinct = LogicalPlan::Distinct {
        input: Box::new(hstack),
        maintain_order: true,
        subset: Some(vec!["x".to_string()]),
    };
    LogicalPlan::Udf {
        input: Box::new(distinct),
        function: FunctionRef(7),
        projection_pd: true,
        predicate_pd: false,
        schema: schema_x(),
    }
}

fn join_plan() -> LogicalPlan {
    let parquet = LogicalPlan::ParquetScan {
        path: "t.parquet".to_string(),
        schema: schema_x(),
        with_columns: None,
        predicate: None,
        aggregate: vec![],
        stop_after_n_rows: None,
        cache: false,
    };
    let frame_scan = LogicalPlan::DataFrameScan {
        df: frame(),
        schema: schema_x(),
        projection: Some(vec![col("x")]),
        selection: Some(bin(col("x"), Operator::NotEq, lit(3))),
    };
    LogicalPlan::Join {
        input_left: Box::new(parquet),
        input_right: Box::new(frame_scan),
        schema: schema_x(),
        how: JoinType::Inner,
        left_on: vec![col("a")],
        right_on: vec![col("b")],
        allow_par: true,
        force_par: false,
    }
}

fn placeholder_plan() -> LogicalPlan {
    LogicalPlan::DataFrameScan { df: DataFrame::empty(), schema: Schema::empty(), projection: None, selection: None }
}

fn expr_children(e: &AExpr) -> Vec<usize> {
    match e {
        AExpr::BinaryExpr { left, right, .. } => vec![left.0, right.0],
        AExpr::Ternary { predicate, truthy, falsy } => vec![predicate.0, truthy.0, falsy.0],
        AExpr::Window { function, partition_by, order_by } => {
            let mut v = vec![function.0, partition_by.0];
            if let Some(o) = order_by {
                v.push(o.0);
            }
            v
        }
        AExpr::BinaryFunction { input_a, input_b, .. } => vec![input_a.0, input_b.0],
        AExpr::SortBy { expr, by, .. } => vec![expr.0, by.0],
        AExpr::Filter { input, by } => vec![input.0, by.0],
        AExpr::Alias(c, _) | AExpr::IsUnique(c) | AExpr::Not(c) | AExpr::IsNull(c) | AExpr::IsNotNull(c) => vec![c.0],
        AExpr::Cast { expr, .. } | AExpr::Sort { expr, .. } => vec![expr.0],
        AExpr::Udf { input, .. } | AExpr::Shift { input, .. } | AExpr::Slice { input, .. } => vec![input.0],
        AExpr::Agg(AAggExpr::Quantile { expr, .. }) => vec![expr.0],
        AExpr::Agg(AAggExpr::Min(c)) | AExpr::Agg(AAggExpr::Sum(c)) => vec![c.0],
        _ => vec![],
    }
}

fn plan_inputs(p: &ALogicalPlan) -> Vec<usize> {
    match p {
        ALogicalPlan::Join { input_left, input_right, .. } => vec![input_left.0, input_right.0],
        ALogicalPlan::CsvScan { .. } | ALogicalPlan::ParquetScan { .. } | ALogicalPlan::DataFrameScan { .. } => vec![],
        ALogicalPlan::Selection { input, .. }
        | ALogicalPlan::Slice { input, .. }
        | ALogicalPlan::Melt { input, .. }
        | ALogicalPlan::Projection { input, .. }
        | ALogicalPlan::LocalProjection { input, .. }
        | ALogicalPlan::Sort { input, .. }
        | ALogicalPlan::Explode { input, .. }
        | ALogicalPlan::Cache { input }
        | ALogicalPlan::Aggregate { input, .. }
        | ALogicalPlan::HStack { input, .. }
        | ALogicalPlan::Distinct { input, .. }
        | ALogicalPlan::Udf { input, .. } => vec![input.0],
    }
}

#[test]
fn column_plus_literal_lowers_to_three_slots() {
    let mut arena = Arena::new();
    let root = to_aexpr(bin(col("a"), Operator::Plus, lit(1)), &mut arena);
    assert_eq!(arena.len(), 3);
    assert_eq!(root, Node(2));
    assert_eq!(*arena.get(Node(0)), AExpr::Column("a".to_string()));
    assert_eq!(*arena.get(Node(1)), AExpr::Literal(ScalarValue::Int64(1)));
    assert_eq!(*arena.get(Node(2)), AExpr::BinaryExpr { left: Node(0), op: Operator::Plus, right: Node(1) });
    assert_eq!(node_to_exp(root, &arena), bin(col("a"), Operator::Plus, lit(1)));
}

#[test]
fn selection_over_scan_lowers_scan_then_selection() {
    let plan = LogicalPlan::Selection { input: Box::new(scan()), predicate: bin(col("x"), Operator::Gt, lit(5)) };
    let mut ea = Arena::new();
    let mut pa = Arena::new();
    let root = to_alp(plan, &mut ea, &mut pa);
    assert_eq!(pa.len(), 2);
    assert_eq!(root, Node(1));
    assert!(ea.len() >= 3);
    assert!(matches!(pa.get(Node(0)), ALogicalPlan::DataFrameScan { .. }));
    match pa.get(Node(1)) {
        ALogicalPlan::Selection { input, predicate } => {
            assert_eq!(*input, Node(0));
            assert_eq!(node_to_exp(*predicate, &ea), bin(col("x"), Operator::Gt, lit(5)));
        }
        other => panic!("unexpected slot {:?}", other),
    }
    let back = node_to_lp(root, &ea, &mut pa);
    let expected = LogicalPlan::Selection { input: Box::new(scan()), predicate: bin(col("x"), Operator::Gt, lit(5)) };
    assert_eq!(back, expected);
}

#[test]
fn join_lowers_both_inputs_before_itself() {
    let mut ea = Arena::new();
    let mut pa = Arena::new();
    let root = to_alp(join_plan(), &mut ea, &mut pa);
    assert_eq!(root, Node(2));
    assert_eq!(pa.len(), 3);
    match pa.get(root) {
        ALogicalPlan::Join { input_left, input_right, left_on, right_on, how, .. } => {
            assert_eq!(*input_left, Node(0));
            assert_eq!(*input_right, Node(1));
            assert!(input_left.0 < root.0 && input_right.0 < root.0);
            assert_eq!(*how, JoinType::Inner);
            assert_eq!(node_to_exp(left_on[0], &ea), col("a"));
            assert_eq!(node_to_exp(right_on[0], &ea), col("b"));
        }
        other => panic!("unexpected slot {:?}", other),
    }
    assert!(matches!(pa.get(Node(0)), ALogicalPlan::ParquetScan { .. }));
    assert!(matches!(pa.get(Node(1)), ALogicalPlan::DataFrameScan { .. }));
    assert_eq!(node_to_lp(root, &ea, &mut pa), join_plan());
}

#[test]
fn expression_round_trip_covers_every_variant() {
    let mut arena = Arena::new();
    let root = to_aexpr(every_kind_expr(), &mut arena);
    assert_eq!(root.0 + 1, arena.len());
    assert_eq!(node_to_exp(root, &arena), every_kind_expr());
}

#[test]
fn expression_round_trip_onto_used_arena() {
    let mut arena = Arena::new();
    let first = to_aexpr(col("before"), &mut arena);
    let root = to_aexpr(every_kind_expr(), &mut arena);
    assert_eq!(node_to_exp(root, &arena), every_kind_expr());
    assert_eq!(node_to_exp(first, &arena), col("before"));
}

#[test]
fn plan_round_trip_deep_chain() {
    let mut ea = Arena::new();
    let mut pa = Arena::new();
    let root = to_alp(deep_plan(), &mut ea, &mut pa);
    assert_eq!(pa.len(), 13);
    assert_eq!(root, Node(12));
    assert_eq!(node_to_lp(root, &ea, &mut pa), deep_plan());
}

#[test]
fn plan_round_trip_onto_used_arenas() {
    let mut ea = Arena::new();
    let mut pa = Arena::new();
    let first = to_alp(scan(), &mut ea, &mut pa);
    let root = to_alp(join_plan(), &mut ea, &mut pa);
    assert_eq!(root, Node(3));
    assert_eq!(node_to_lp(root, &ea, &mut pa), join_plan());
    assert_eq!(node_to_lp(first, &ea, &mut pa), scan());
}

#[test]
fn children_precede_parents() {
    let mut ea = Arena::new();
    to_aexpr(every_kind_expr(), &mut ea);
    for i in 0..ea.len() {
        for c in expr_children(ea.get(Node(i))) {
            assert!(c < i, "slot {} has child {}", i, c);
        }
    }
    let mut ea2 = Arena::new();
    let mut pa = Arena::new();
    to_alp(deep_plan(), &mut ea2, &mut pa);
    to_alp(join_plan(), &mut ea2, &mut pa);
    for i in 0..pa.len() {
        for c in plan_inputs(pa.get(Node(i))) {
            assert!(c < i, "plan slot {} has input {}", i, c);
        }
    }
}

#[test]
fn identical_subtrees_get_distinct_slots() {
    let mut arena = Arena::new();
    let root = to_aexpr(bin(col("a"), Operator::Eq, col("a")), &mut arena);
    assert_eq!(arena.len(), 3);
    assert_eq!(*arena.get(root), AExpr::BinaryExpr { left: Node(0), op: Operator::Eq, right: Node(1) });
}

#[test]
fn arena_grows_and_keeps_slots() {
    let mut arena: Arena<u32> = Arena::new();
    assert!(arena.is_empty());
    let a = arena.add(10);
    let b = arena.add(20);
    assert_eq!(a, Node(0));
    assert_eq!(b, Node(1));
    assert_eq!(arena.len(), 2);
    let c = arena.add(30);
    assert_eq!(c, Node(2));
    assert_eq!(*arena.get(a), 10);
    assert_eq!(*arena.get(b), 20);
    let old = arena.replace(b, 25);
    assert_eq!(old, 20);
    assert_eq!(arena.len(), 3);
    assert_eq!(*arena.get(a), 10);
    assert_eq!(*arena.get(b), 25);
    assert_eq!(*arena.get(c), 30);
}

#[test]
fn plan_read_takes_the_slot() {
    let mut ea = Arena::new();
    let mut pa = Arena::new();
    let root = to_alp(deep_plan(), &mut ea, &mut pa);
    let first = node_to_lp(root, &ea, &mut pa);
    let second = node_to_lp(root, &ea, &mut pa);
    assert_eq!(first, deep_plan());
    assert_eq!(second, placeholder_plan());
    assert_ne!(first, second);
    assert_eq!(pa.len(), 13);
    assert_eq!(*pa.get(Node(0)), ALogicalPlan::placeholder());
}

#[test]
fn expression_read_leaves_arena_unchanged() {
    let mut arena = Arena::new();
    let root = to_aexpr(every_kind_expr(), &mut arena);
    let len = arena.len();
    let first = node_to_exp(root, &arena);
    let second = node_to_exp(root, &arena);
    assert_eq!(first, second);
    assert_eq!(arena.len(), len);
}

#[test]
fn leaf_expressions_take_one_slot() {
    let mut arena = Arena::new();
    let w = to_aexpr(Expr::Wildcard, &mut arena);
    let l = to_aexpr(Expr::Literal(ScalarValue::Null), &mut arena);
    assert_eq!((w, l), (Node(0), Node(1)));
    assert_eq!(*arena.get(w), AExpr::Wildcard);
    assert_eq!(node_to_exp(l, &arena), Expr::Literal(ScalarValue::Null));
}

#[test]
fn payload_copies_are_equal() {
    let v = ScalarValue::Utf8("abc".to_string());
    assert_eq!(v.duplicate(), v);
    let f = Field::new("f".to_string(), DataType::Date32);
    assert_eq!(f.duplicate(), f);
}

#[test]
fn rewrite_through_get_mut_touches_one_slot() {
    let mut arena = Arena::new();
    let root = to_aexpr(bin(col("a"), Operator::Plus, lit(1)), &mut arena);
    *arena.get_mut(Node(1)) = AExpr::Literal(ScalarValue::Int64(2));
    assert_eq!(arena.len(), 3);
    assert_eq!(*arena.get(Node(0)), AExpr::Column("a".to_string()));
    assert_eq!(node_to_exp(root, &arena), bin(col("a"), Operator::Plus, lit(2)));
}

#[test]
fn plan_read_after_rewrite_in_place() {
    let mut ea = Arena::new();
    let mut pa = Arena::new();
    let sel = to_alp(
        LogicalPlan::Selection { input: Box::new(scan()), predicate: bin(col("x"), Operator::Gt, lit(5)) },
        &mut ea,
        &mut pa,
    );
    let limit = pa.add(ALogicalPlan::Slice { input: sel, offset: 0, len: 1 });
    let pred = to_aexpr(bin(col("x"), Operator::Lt, lit(6)), &mut ea);
    *pa.get_mut(sel) = ALogicalPlan::Selection { input: Node(0), predicate: pred };
    let back = node_to_lp(limit, &ea, &mut pa);
    let expected = LogicalPlan::Slice {
        input: Box::new(LogicalPlan::Selection {
            input: Box::new(scan()),
            predicate: bin(col("x"), Operator::Lt, lit(6)),
        }),
        offset: 0,
        len: 1,
    };
    assert_eq!(back, expected);
}

#[test]
fn selection_predicate_fills_the_expression_arena_in_order() {
    let plan = LogicalPlan::Selection { input: Box::new(scan()), predicate: bin(col("x"), Operator::Gt, lit(5)) };
    let mut ea = Arena::new();
    let mut pa = Arena::new();
    to_alp(plan, &mut ea, &mut pa);
    assert_eq!(ea.len(), 3);
    assert_eq!(*ea.get(Node(0)), AExpr::Column("x".to_string()));
    assert_eq!(*ea.get(Node(1)), AExpr::Literal(ScalarValue::Int64(5)));
    assert_eq!(*ea.get(Node(2)), AExpr::BinaryExpr { left: Node(0), op: Operator::Gt, right: Node(1) });
    assert_eq!(*pa.get(Node(1)), ALogicalPlan::Selection { input: Node(0), predicate: Node(2) });
}

#[test]
fn join_keys_get_their_own_slots() {
    let mut ea = Arena::new();
    let mut pa = Arena::new();
    let plan = LogicalPlan::Join {
        input_left: Box::new(scan()),
        input_right: Box::new(scan()),
        schema: schema_x(),
        how: JoinType::Left,
        left_on: vec![col("k")],
        right_on: vec![col("k")],
        allow_par: false,
        force_par: true,
    };
    let root = to_alp(plan, &mut ea, &mut pa);
    assert_eq!(ea.len(), 2);
    match pa.get(root) {
        ALogicalPlan::Join { left_on, right_on, .. } => {
            assert_eq!(*left_on, vec![Node(0)]);
            assert_eq!(*right_on, vec![Node(1)]);
        }
        other => panic!("unexpected slot {:?}", other),
    }
}

#[test]
fn passthrough_plans_add_no_expression_slots() {
    let mut ea = Arena::new();
    let mut pa = Arena::new();
    let root = to_alp(LogicalPlan::Cache { input: Box::new(scan()) }, &mut ea, &mut pa);
    assert_eq!(root, Node(1));
    assert_eq!(ea.len(), 0);
    assert_eq!(*pa.get(root), ALogicalPlan::Cache { input: Node(0) });
    let udf = LogicalPlan::Udf {
        input: Box::new(scan()),
        function: FunctionRef(3),
        projection_pd: true,
        predicate_pd: false,
        schema: Schema::empty(),
    };
    let root = to_alp(udf, &mut ea, &mut pa);
    assert_eq!(ea.len(), 0);
    assert_eq!(
        *pa.get(root),
        ALogicalPlan::Udf {
            input: Node(2),
            function: FunctionRef(3),
            projection_pd: true,
            predicate_pd: false,
            schema: Schema::empty(),
        }
    );
}

#[test]
fn equal_columns_are_not_shared() {
    let mut arena = Arena::new();
    let root = to_aexpr(bin(col("a"), Operator::Plus, col("a")), &mut arena);
    assert_eq!(arena.len(), 3);
    assert_eq!(*arena.get(Node(0)), AExpr::Column("a".to_string()));
    assert_eq!(*arena.get(Node(1)), AExpr::Column("a".to_string()));
    assert_eq!(*arena.get(root), AExpr::BinaryExpr { left: Node(0), op: Operator::Plus, right: Node(1) });
}

#[test]
fn every_reached_plan_slot_is_taken() {
    let mut ea = Arena::new();
    let mut pa = Arena::new();
    let root = to_alp(join_plan(), &mut ea, &mut pa);
    node_to_lp(root, &ea, &mut pa);
    for i in 0..pa.len() {
        assert_eq!(*pa.get(Node(i)), ALogicalPlan::placeholder());
    }
}

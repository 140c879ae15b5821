use std::rc::Rc;

use risingwave::bound::Bound;
use risingwave::catalog::{ColumnDesc, ColumnId, DataType, OrderType, SourceCatalog};
use risingwave::expr::{Condition, ExprImpl, ExprType, FunctionCall, InputRef, Literal, ScalarImpl};
use risingwave::kafka_range::KAFKA_TIMESTAMP_COLUMN_NAME;
use risingwave::logical_source::{LogicalSource, OptimizerContext, PlanRef, StreamPlan};

fn descs() -> Vec<ColumnDesc> {
    vec![
        ColumnDesc { data_type: DataType::Int64, column_id: ColumnId { id: 1 }, name: "a".to_string() },
        ColumnDesc { data_type: DataType::Varchar, column_id: ColumnId { id: 2 }, name: "b".to_string() },
        ColumnDesc {
            data_type: DataType::Timestamptz,
            column_id: ColumnId { id: 3 },
            name: KAFKA_TIMESTAMP_COLUMN_NAME.to_string(),
        },
    ]
}

fn ctx() -> Rc<OptimizerContext> {
    Rc::new(OptimizerContext { with_options: vec![] })
}

fn source(row_id_index: Option<usize>, gen_row_id: bool) -> LogicalSource {
    let catalog = Rc::new(SourceCatalog { id: 7, name: "s1".to_string() });
    LogicalSource::new(Some(catalog), descs(), vec![ColumnId { id: 2 }], row_id_index, gen_row_id, ctx())
}

fn kafka() -> ExprImpl {
    ExprImpl::InputRef(InputRef { index: 2, data_type: DataType::Timestamptz })
}

fn ts(micros: i64) -> ExprImpl {
    ExprImpl::Literal(Literal { value: Some(ScalarImpl::Int64(micros)), data_type: DataType::Timestamptz })
}

fn call(func_type: ExprType, a: ExprImpl, b: ExprImpl) -> ExprImpl {
    ExprImpl::FunctionCall(FunctionCall {
        func_type,
        return_type: DataType::Boolean,
        inputs: vec![a, b],
        const_value: Ok(None),
    })
}

#[test]
fn new_source_has_columns_key_and_no_time_limit() {
    let node = source(None, false);
    let names: Vec<&str> = node.base.schema.fields.iter().map(|f| f.name.as_str()).collect();
    assert_eq!(names, vec!["a", "b", KAFKA_TIMESTAMP_COLUMN_NAME]);
    assert_eq!(node.base.logical_pk, vec![1]);
    let fd = &node.base.functional_dependency;
    assert_eq!(fd.column_count, 3);
    assert_eq!(fd.strict.len(), 1);
    assert_eq!(fd.strict[0].from, vec![false, true, false]);
    assert_eq!(fd.strict[0].to, vec![true, true, true]);
    assert_eq!(*node.kafka_timestamp_range(), (Bound::Unbounded, Bound::Unbounded));
}

#[test]
fn missing_key_column_gives_no_key() {
    let node = LogicalSource::new(None, descs(), vec![ColumnId { id: 2 }, ColumnId { id: 9 }], None, false, ctx());
    assert!(node.base.logical_pk.is_empty());
    assert!(node.base.functional_dependency.strict.is_empty());
    assert!(node.source_catalog().is_none());
}

#[test]
fn column_names_follow_the_schema() {
    let node = source(None, false);
    assert_eq!(node.column_names(), vec!["a".to_string(), "b".to_string(), KAFKA_TIMESTAMP_COLUMN_NAME.to_string()]);
}

#[test]
fn source_catalog_is_shared() {
    let node = source(None, false);
    let catalog = node.source_catalog().unwrap();
    assert_eq!(catalog.name, "s1");
    assert_eq!(catalog.id, 7);
}

#[test]
fn internal_table_holds_partition_offsets() {
    let table = source(None, false).infer_internal_table_catalog();
    assert_eq!(table.columns.len(), 2);
    assert_eq!(table.columns[0].name, "partition_id");
    assert_eq!(table.columns[0].data_type, DataType::Varchar);
    assert_eq!(table.columns[1].name, "offset");
    assert_eq!(table.columns[1].data_type, DataType::Varchar);
    assert_eq!(table.pk.len(), 1);
    assert_eq!(table.pk[0].column_index, 0);
    assert_eq!(table.pk[0].order_type, OrderType::Ascending);
    assert!(table.distribution_key.is_empty());
    assert!(table.properties.is_empty());
}

#[test]
fn new_source_keeps_its_context() {
    let context = Rc::new(OptimizerContext { with_options: vec![("k".to_string(), "v".to_string())] });
    let node = LogicalSource::new(None, descs(), vec![ColumnId { id: 1 }], None, false, Rc::clone(&context));
    assert!(Rc::ptr_eq(&node.base.ctx, &context));
    assert_eq!(node.base.logical_pk, vec![0]);
}

#[test]
fn pushdown_keeps_the_context() {
    let context = ctx();
    let node = LogicalSource::new(None, descs(), vec![ColumnId { id: 2 }], None, false, Rc::clone(&context));
    let predicate = Condition { conjunctions: vec![call(ExprType::GreaterThan, kafka(), ts(1_000_000))] };
    match node.predicate_pushdown(predicate) {
        PlanRef::Source(s) => assert!(Rc::ptr_eq(&s.base.ctx, &context)),
        PlanRef::Filter(_) => panic!("expected the scan alone"),
    }
}

#[test]
fn internal_table_keeps_only_the_retention_option() {
    let context = Rc::new(OptimizerContext {
        with_options: vec![
            ("connector".to_string(), "kafka".to_string()),
            ("retention_seconds".to_string(), "60".to_string()),
            ("topic".to_string(), "t".to_string()),
        ],
    });
    let node = LogicalSource::new(None, descs(), vec![ColumnId { id: 2 }], None, false, context);
    let table = node.infer_internal_table_catalog();
    assert_eq!(table.properties, vec![("retention_seconds".to_string(), "60".to_string())]);
}

#[test]
fn pushdown_keeps_unrecognised_conjuncts_in_a_filter() {
    let node = source(None, false);
    let other = call(
        ExprType::Equal,
        ExprImpl::InputRef(InputRef { index: 0, data_type: DataType::Int64 }),
        ExprImpl::Literal(Literal { value: Some(ScalarImpl::Int64(5)), data_type: DataType::Int64 }),
    );
    let predicate = Condition {
        conjunctions: vec![
            call(ExprType::GreaterThan, kafka(), ts(1_000_000)),
            other,
            call(ExprType::LessThanOrEqual, kafka(), ts(9_000_000)),
        ],
    };
    match node.predicate_pushdown(predicate) {
        PlanRef::Filter(filter) => {
            assert_eq!(*filter.input.kafka_timestamp_range(), (Bound::Excluded(1_000), Bound::Included(9_000)));
            assert_eq!(filter.predicate.conjunctions.len(), 1);
            match &filter.predicate.conjunctions[0] {
                ExprImpl::FunctionCall(f) => assert_eq!(f.func_type, ExprType::Equal),
                _ => panic!("expected the equality to stay"),
            }
            assert_eq!(filter.input.base.logical_pk, vec![1]);
        },
        PlanRef::Source(_) => panic!("expected a filter"),
    }
}

#[test]
fn pushdown_of_only_timestamp_predicates_gives_the_scan() {
    let node = source(None, false);
    let predicate = Condition {
        conjunctions: vec![
            call(ExprType::GreaterThanOrEqual, kafka(), ts(2_000_000)),
            call(ExprType::LessThan, ts(8_000_000), kafka()),
        ],
    };
    match node.predicate_pushdown(predicate) {
        PlanRef::Source(s) => {
            assert_eq!(*s.kafka_timestamp_range(), (Bound::Excluded(8_000), Bound::Unbounded));
        },
        PlanRef::Filter(_) => panic!("expected the scan alone"),
    }
}

#[test]
fn pushdown_of_an_empty_predicate_gives_the_scan_unchanged() {
    let node = source(None, false);
    match node.predicate_pushdown(Condition::true_cond()) {
        PlanRef::Source(s) => assert_eq!(*s.kafka_timestamp_range(), (Bound::Unbounded, Bound::Unbounded)),
        PlanRef::Filter(_) => panic!("expected the scan alone"),
    }
}

#[test]
fn range_value_widens_exclusive_ends() {
    let mut node = source(None, false);
    node.kafka_timestamp_range = (Bound::Excluded(1_000), Bound::Excluded(9_000));
    assert_eq!(node.kafka_timestamp_range_value(), (Some(999), Some(9_001)));
    node.kafka_timestamp_range = (Bound::Included(1_000), Bound::Included(9_000));
    assert_eq!(node.kafka_timestamp_range_value(), (Some(1_000), Some(9_000)));
    node.kafka_timestamp_range = (Bound::Unbounded, Bound::Unbounded);
    assert_eq!(node.kafka_timestamp_range_value(), (None, None));
}

#[test]
fn stream_plan_generates_row_ids_when_asked() {
    match source(Some(0), true).to_stream() {
        StreamPlan::RowIdGen { row_id_index, input } => {
            assert_eq!(row_id_index, 0);
            assert_eq!(input.base.schema.fields.len(), 3);
        },
        StreamPlan::Source(_) => panic!("expected a row-id generator"),
    }
    assert!(matches!(source(Some(0), false).to_stream(), StreamPlan::Source(_)));
    assert!(matches!(source(None, true).to_stream(), StreamPlan::Source(_)));
}

#[test]
fn batch_plan_scans_the_same_source() {
    let batch = source(None, false).to_batch();
    assert_eq!(batch.logical.base.logical_pk, vec![1]);
    assert_eq!(batch.logical.core.column_descs.len(), 3);
}

#[test]
fn rewrite_for_stream_keeps_every_column() {
    let (node, mapping) = source(None, false).logical_rewrite_for_stream();
    assert_eq!(node.base.schema.fields.len(), 3);
    assert_eq!(mapping.target_size, 3);
    assert_eq!(mapping.map, vec![Some(0), Some(1), Some(2)]);
}

#[test]
fn prune_col_projects_the_required_columns() {
    let project = source(None, false).prune_col(&vec![2, 0]);
    assert_eq!(project.exprs.len(), 2);
    match (&project.exprs[0], &project.exprs[1]) {
        (ExprImpl::InputRef(a), ExprImpl::InputRef(b)) => {
            assert_eq!((a.index, a.data_type), (2, DataType::Timestamptz));
            assert_eq!((b.index, b.data_type), (0, DataType::Int64));
        },
        _ => panic!("expected column references"),
    }
}

#[test]
fn text_names_source_columns_and_range() {
    let mut node = source(None, false);
    node.kafka_timestamp_range = (Bound::Excluded(-1_000), Bound::Unbounded);
    assert_eq!(
        node.fmt_string(),
        "LogicalSource { source: s1, columns: [a, b, _rw_kafka_timestamp], time_range: [(Excluded(-1000), Unbounded)] }"
    );
    let bare = LogicalSource::new(None, descs(), vec![], None, false, ctx());
    assert_eq!(bare.fmt_string(), "LogicalSource");
}

#[test]
fn text_matches_debug_formatting_of_the_range() {
    let mut node = source(None, false);
    node.kafka_timestamp_range = (Bound::Included(5), Bound::Excluded(77));
    let expected = format!(
        "LogicalSource {{ source: s1, columns: [a, b, _rw_kafka_timestamp], time_range: [{:?}] }}",
        node.kafka_timestamp_range()
    );
    assert_eq!(node.fmt_string(), expected);
}

fn in_range(r: &(Bound<i64>, Bound<i64>), x: i64) -> bool {
    let above = match r.0 {
        Bound::Included(t) => t <= x,
        Bound::Excluded(t) => t < x,
        Bound::Unbounded => true,
    };
    let below = match r.1 {
        Bound::Included(t) => x <= t,
        Bound::Excluded(t) => x < t,
        Bound::Unbounded => true,
    };
    above && below
}

#[test]
fn pushed_range_holds_exactly_the_matching_timestamps() {
    let node = source(None, false);
    let predicate = Condition {
        conjunctions: vec![
            call(ExprType::GreaterThan, kafka(), ts(1_000_000)),
            call(ExprType::LessThanOrEqual, kafka(), ts(5_000_000)),
            call(ExprType::GreaterThan, ts(3_000_000), kafka()),
        ],
    };
    let range = match node.predicate_pushdown(predicate) {
        PlanRef::Source(s) => *s.kafka_timestamp_range(),
        PlanRef::Filter(_) => panic!("every conjunct is a timestamp comparison"),
    };
    assert_eq!(range, (Bound::Excluded(1_000), Bound::Excluded(3_000)));
    for x in (-500..7_000).step_by(7) {
        assert_eq!(in_range(&range, x), x > 1_000 && x <= 5_000 && x < 3_000);
    }
}

#[test]
fn widened_ends_cover_the_range() {
    let mut node = source(None, false);
    for range in [
        (Bound::Excluded(10), Bound::Excluded(20)),
        (Bound::Included(10), Bound::Excluded(20)),
        (Bound::Excluded(-5), Bound::Unbounded),
    ] {
        node.kafka_timestamp_range = range;
        let (lower, upper) = node.kafka_timestamp_range_value();
        for x in -30..40 {
            if in_range(&range, x) {
                assert!(lower.map_or(true, |l| l <= x) && upper.map_or(true, |u| x <= u));
            }
        }
    }
}

#[test]
fn pushdown_keeps_ends_within_millis_of_i64() {
    let node = source(None, false);
    let predicate = Condition {
        conjunctions: vec![
            call(ExprType::GreaterThan, kafka(), ts(i64::MIN)),
            call(ExprType::LessThan, kafka(), ts(i64::MAX)),
        ],
    };
    match node.predicate_pushdown(predicate) {
        PlanRef::Source(s) => {
            assert_eq!(*s.kafka_timestamp_range(), (Bound::Excluded(i64::MIN / 1000), Bound::Excluded(i64::MAX / 1000)));
            assert_eq!(s.kafka_timestamp_range_value(), (Some(i64::MIN / 1000 - 1), Some(i64::MAX / 1000 + 1)));
        },
        PlanRef::Filter(_) => panic!("every conjunct is a timestamp comparison"),
    }
}

use risingwave::bound::Bound;
use risingwave::catalog::{DataType, Field, Schema};
use risingwave::expr::{ExprError, ExprImpl, ExprType, FunctionCall, InputRef, Literal, ScalarImpl};
use risingwave::kafka_range::{expr_to_kafka_timestamp_range, extract_timestampz_literal, KAFKA_TIMESTAMP_COLUMN_NAME};

fn schema() -> Schema {
    Schema {
        fields: vec![
            Field { data_type: DataType::Int64, name: "v".to_string() },
            Field { data_type: DataType::Timestamptz, name: KAFKA_TIMESTAMP_COLUMN_NAME.to_string() },
        ],
    }
}

fn col(index: usize, data_type: DataType) -> ExprImpl {
    ExprImpl::InputRef(InputRef { index, data_type })
}

fn ts(micros: i64) -> ExprImpl {
    ExprImpl::Literal(Literal { value: Some(ScalarImpl::Int64(micros)), data_type: DataType::Timestamptz })
}

fn call(func_type: ExprType, a: ExprImpl, b: ExprImpl) -> ExprImpl {
    ExprImpl::FunctionCall(FunctionCall {
        func_type,
        return_type: DataType::Boolean,
        inputs: vec![a, b],
        const_value: Ok(None),
    })
}

fn kafka() -> ExprImpl {
    col(1, DataType::Timestamptz)
}

fn push(expr: ExprImpl) -> (Option<ExprImpl>, (Bound<i64>, Bound<i64>)) {
    let mut range = (Bound::Unbounded, Bound::Unbounded);
    let rest = expr_to_kafka_timestamp_range(expr, &mut range, &schema());
    (rest, range)
}

#[test]
fn greater_than_sets_an_exclusive_lower_bound_in_millis() {
    let (rest, range) = push(call(ExprType::GreaterThan, kafka(), ts(5_000_000)));
    assert!(rest.is_none());
    assert_eq!(range, (Bound::Excluded(5_000), Bound::Unbounded));
}

#[test]
fn reversed_greater_than_sets_an_exclusive_upper_bound() {
    let (rest, range) = push(call(ExprType::GreaterThan, ts(5_000_000), kafka()));
    assert!(rest.is_none());
    assert_eq!(range, (Bound::Unbounded, Bound::Excluded(5_000)));
}

#[test]
fn greater_or_equal_and_its_reverse() {
    let (_, range) = push(call(ExprType::GreaterThanOrEqual, kafka(), ts(7_000)));
    assert_eq!(range, (Bound::Included(7), Bound::Unbounded));
    let (_, range) = push(call(ExprType::GreaterThanOrEqual, ts(7_000), kafka()));
    assert_eq!(range, (Bound::Unbounded, Bound::Included(7)));
}

#[test]
fn less_than_and_less_or_equal() {
    let (_, range) = push(call(ExprType::LessThan, kafka(), ts(9_000)));
    assert_eq!(range, (Bound::Unbounded, Bound::Excluded(9)));
    let (_, range) = push(call(ExprType::LessThan, ts(9_000), kafka()));
    assert_eq!(range, (Bound::Excluded(9), Bound::Unbounded));
    let (_, range) = push(call(ExprType::LessThanOrEqual, kafka(), ts(9_000)));
    assert_eq!(range, (Bound::Unbounded, Bound::Included(9)));
    let (_, range) = push(call(ExprType::LessThanOrEqual, ts(9_000), kafka()));
    assert_eq!(range, (Bound::Included(9), Bound::Unbounded));
}

#[test]
fn equality_pins_both_ends() {
    let (rest, range) = push(call(ExprType::Equal, kafka(), ts(42_000)));
    assert!(rest.is_none());
    assert_eq!(range, (Bound::Included(42), Bound::Included(42)));
}

#[test]
fn millis_round_toward_zero() {
    let (_, range) = push(call(ExprType::GreaterThan, kafka(), ts(-1_500)));
    assert_eq!(range, (Bound::Excluded(-1), Bound::Unbounded));
    let (_, range) = push(call(ExprType::GreaterThan, kafka(), ts(1_999)));
    assert_eq!(range, (Bound::Excluded(1), Bound::Unbounded));
}

#[test]
fn comparison_narrows_an_existing_range() {
    let mut range = (Bound::Included(3_000), Bound::Excluded(10_000));
    let rest = expr_to_kafka_timestamp_range(call(ExprType::GreaterThan, kafka(), ts(5_000_000)), &mut range, &schema());
    assert!(rest.is_none());
    assert_eq!(range, (Bound::Excluded(5_000), Bound::Excluded(10_000)));
    let rest = expr_to_kafka_timestamp_range(call(ExprType::GreaterThanOrEqual, kafka(), ts(2_000_000)), &mut range, &schema());
    assert!(rest.is_none());
    assert_eq!(range, (Bound::Excluded(5_000), Bound::Excluded(10_000)));
}

#[test]
fn other_column_is_handed_back() {
    let expr = call(ExprType::GreaterThan, col(0, DataType::Int64), ts(5_000_000));
    let (rest, range) = push(expr);
    assert!(matches!(rest, Some(ExprImpl::FunctionCall(_))));
    assert_eq!(range, (Bound::Unbounded, Bound::Unbounded));
}

#[test]
fn not_equal_is_handed_back() {
    let (rest, range) = push(call(ExprType::NotEqual, kafka(), ts(5_000_000)));
    match rest {
        Some(ExprImpl::FunctionCall(f)) => assert_eq!(f.func_type, ExprType::NotEqual),
        _ => panic!("expected the comparison back"),
    }
    assert_eq!(range, (Bound::Unbounded, Bound::Unbounded));
}

#[test]
fn non_timestamp_constant_is_handed_back() {
    let lit = ExprImpl::Literal(Literal { value: Some(ScalarImpl::Int64(5)), data_type: DataType::Int64 });
    let (rest, range) = push(call(ExprType::GreaterThan, kafka(), lit));
    assert!(rest.is_some());
    assert_eq!(range, (Bound::Unbounded, Bound::Unbounded));
}

#[test]
fn two_columns_are_not_recognised() {
    let (rest, _) = push(call(ExprType::GreaterThan, kafka(), kafka()));
    assert!(rest.is_some());
}

#[test]
fn non_call_is_handed_back() {
    let (rest, range) = push(kafka());
    assert!(matches!(rest, Some(ExprImpl::InputRef(_))));
    assert_eq!(range, (Bound::Unbounded, Bound::Unbounded));
}

#[test]
fn three_argument_call_is_not_recognised() {
    let expr = ExprImpl::FunctionCall(FunctionCall {
        func_type: ExprType::GreaterThan,
        return_type: DataType::Boolean,
        inputs: vec![kafka(), ts(1), ts(2)],
        const_value: Ok(None),
    });
    assert_eq!(extract_timestampz_literal(&expr, &schema()), None);
}

#[test]
fn extract_reports_the_side_of_the_column() {
    assert_eq!(
        extract_timestampz_literal(&call(ExprType::LessThan, kafka(), ts(3_000)), &schema()),
        Some((3, false))
    );
    assert_eq!(
        extract_timestampz_literal(&call(ExprType::LessThan, ts(3_000), kafka()), &schema()),
        Some((3, true))
    );
}

/// A constant call, such as a cast of a text literal to `Timestamptz`, with
/// the value that the evaluator gives for it.
fn cast_to_ts(text: &str, micros: Option<i64>) -> ExprImpl {
    ExprImpl::FunctionCall(FunctionCall {
        func_type: ExprType::Cast,
        return_type: DataType::Timestamptz,
        inputs: vec![ExprImpl::Literal(Literal {
            value: Some(ScalarImpl::Utf8(text.to_string())),
            data_type: DataType::Varchar,
        })],
        const_value: Ok(micros.map(ScalarImpl::Int64)),
    })
}

#[test]
fn constant_call_is_evaluated_and_consumed() {
    let (rest, range) = push(call(ExprType::LessThanOrEqual, kafka(), cast_to_ts("2022-10-11 01:00:00+00:00", Some(1_665_450_000_000_000))));
    assert!(rest.is_none());
    assert_eq!(range, (Bound::Unbounded, Bound::Included(1_665_450_000_000)));
    let (rest, range) = push(call(ExprType::GreaterThan, cast_to_ts("x", Some(4_000)), kafka()));
    assert!(rest.is_none());
    assert_eq!(range, (Bound::Unbounded, Bound::Excluded(4)));
}

#[test]
fn call_over_a_column_is_not_constant() {
    let over_column = ExprImpl::FunctionCall(FunctionCall {
        func_type: ExprType::Add,
        return_type: DataType::Timestamptz,
        inputs: vec![col(0, DataType::Int64)],
        const_value: Err(ExprError { message: "not constant".to_string() }),
    });
    assert!(!over_column.is_const());
    let (rest, range) = push(call(ExprType::GreaterThan, kafka(), over_column));
    assert!(rest.is_some());
    assert_eq!(range, (Bound::Unbounded, Bound::Unbounded));
}

#[test]
fn constness_follows_the_inputs() {
    assert!(cast_to_ts("x", Some(1)).is_const());
    assert!(ts(1).is_const());
    assert!(!kafka().is_const());
    assert!(call(ExprType::Add, ts(1), ts(2)).is_const());
    assert!(!call(ExprType::Add, ts(1), kafka()).is_const());
}

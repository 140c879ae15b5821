//! Recognising comparisons of the hidden Kafka timestamp column with a
//! constant, and narrowing a source's timestamp range by them.
use vstd::prelude::*;
use vstd::string::*;
use crate::bound::{
    Bound, TimestampRange, in_range, tighter_lower, tighter_upper, merge_lower_bound, merge_upper_bound,
    lemma_merge_lower_is_intersection, lemma_merge_upper_is_intersection,
};
use crate::catalog::{DataType, Schema};
use crate::expr::{ExprImpl, ExprType, InputRef, ScalarImpl};

verus! {

/// The hidden column that a Kafka source carries: the timestamp of each
/// message, typed `Timestamptz`.
pub const KAFKA_TIMESTAMP_COLUMN_NAME: &'static str = "_rw_kafka_timestamp";

/// Milliseconds of a microsecond count, rounded toward zero as `i64`
/// division does.
pub open spec fn micros_to_millis(us: i64) -> i64 {
    (if us >= 0 { us / 1000 } else { -((-us) / 1000) }) as i64
}

/// `e` is a reference to the Kafka timestamp column of `schema`.
pub open spec fn refers_to_kafka_timestamp(e: ExprImpl, schema: Schema) -> bool {
    &&& e matches ExprImpl::InputRef(r)
    &&& r.index < schema.fields@.len()
    &&& schema.fields@[r.index as int].name@ == KAFKA_TIMESTAMP_COLUMN_NAME@
}

/// `col` and `lit` form a recognised comparison: `col` is the Kafka timestamp
/// column and `lit` a constant of type `Timestamptz`.
pub open spec fn timestamp_operands(col: ExprImpl, lit: ExprImpl, schema: Schema) -> bool {
    &&& col is InputRef
    &&& lit.is_const()
    &&& refers_to_kafka_timestamp(col, schema)
    &&& lit.return_type() == DataType::Timestamptz
}

/// Evaluating `e` without a row succeeds with a non-null `Int64`.
pub open spec fn holds_int64(e: ExprImpl) -> bool {
    e.spec_const_value() matches Some(Ok(Some(ScalarImpl::Int64(_))))
}

/// The `Int64` value that evaluating `e` gives, when it gives one.
pub open spec fn int64_of(e: ExprImpl) -> i64
    recommends
        holds_int64(e),
{
    match e.spec_const_value() {
        Some(Ok(Some(ScalarImpl::Int64(v)))) => v,
        _ => 0,
    }
}

/// The constant that a two-argument call compares the Kafka timestamp column
/// with, in milliseconds, and whether the column is the second argument.
pub open spec fn timestamp_comparison(expr: ExprImpl, schema: Schema) -> Option<(i64, bool)> {
    match expr {
        ExprImpl::FunctionCall(f) => {
            if f.inputs@.len() == 2 {
                let a = f.inputs@[0];
                let b = f.inputs@[1];
                if timestamp_operands(a, b, schema) {
                    Some((micros_to_millis(int64_of(b)), false))
                } else if timestamp_operands(b, a, schema) {
                    Some((micros_to_millis(int64_of(a)), true))
                } else {
                    None
                }
            } else {
                None
            }
        },
        _ => None,
    }
}

/// The inputs on which recognising `expr` runs to the end: a column reference
/// that is looked up lies inside `schema`, and a constant compared with the
/// Kafka timestamp column evaluates without error to a non-null `Int64`.
pub open spec fn timestamp_comparison_defined(expr: ExprImpl, schema: Schema) -> bool {
    match expr {
        ExprImpl::FunctionCall(f) => f.inputs@.len() == 2 ==> {
            let a = f.inputs@[0];
            let b = f.inputs@[1];
            &&& (a matches ExprImpl::InputRef(r) ==> (b.is_const() ==> r.index < schema.fields@.len()))
            &&& (timestamp_operands(a, b, schema) ==> holds_int64(b))
            &&& (b matches ExprImpl::InputRef(r) ==> (!timestamp_operands(a, b, schema) && a.is_const()
                ==> r.index < schema.fields@.len()))
            &&& (!timestamp_operands(a, b, schema) && timestamp_operands(b, a, schema) ==> holds_int64(a))
        },
        _ => true,
    }
}

/// Whether the timestamp `x` (milliseconds) satisfies the comparison `op`
/// with the constant `t`; `reverse` puts the constant on the left.
pub open spec fn comparison_holds(op: ExprType, x: int, t: int, reverse: bool) -> bool {
    let l = if reverse { t } else { x };
    let r = if reverse { x } else { t };
    match op {
        ExprType::GreaterThan => l > r,
        ExprType::GreaterThanOrEqual => l >= r,
        ExprType::Equal => l == r,
        ExprType::LessThan => l < r,
        ExprType::LessThanOrEqual => l <= r,
        _ => true,
    }
}

/// The range left after adding the comparison `op` with the constant `t` to
/// `range`, or `None` when `op` is not an order comparison.
pub open spec fn narrow_range(range: TimestampRange, op: ExprType, t: i64, reverse: bool) -> Option<TimestampRange> {
    match op {
        ExprType::GreaterThan => Some(
            if reverse {
                (range.0, tighter_upper(range.1, Bound::Excluded(t)))
            } else {
                (tighter_lower(range.0, Bound::Excluded(t)), range.1)
            },
        ),
        ExprType::GreaterThanOrEqual => Some(
            if reverse {
                (range.0, tighter_upper(range.1, Bound::Included(t)))
            } else {
                (tighter_lower(range.0, Bound::Included(t)), range.1)
            },
        ),
        ExprType::Equal => Some(
            (tighter_lower(range.0, Bound::Included(t)), tighter_upper(range.1, Bound::Included(t))),
        ),
        ExprType::LessThan => Some(
            if reverse {
                (tighter_lower(range.0, Bound::Excluded(t)), range.1)
            } else {
                (range.0, tighter_upper(range.1, Bound::Excluded(t)))
            },
        ),
        ExprType::LessThanOrEqual => Some(
            if reverse {
                (tighter_lower(range.0, Bound::Included(t)), range.1)
            } else {
                (range.0, tighter_upper(range.1, Bound::Included(t)))
            },
        ),
        _ => None,
    }
}

/// The range that `expr` narrows `range` to, or `None` when `expr` is not a
/// recognised comparison of the Kafka timestamp column with a constant.
pub open spec fn pushed_range(expr: ExprImpl, range: TimestampRange, schema: Schema) -> Option<TimestampRange> {
    match timestamp_comparison(expr, schema) {
        Some((t, reverse)) => match expr {
            ExprImpl::FunctionCall(f) => narrow_range(range, f.func_type, t, reverse),
            _ => None,
        },
        None => None,
    }
}

/// Whether `name` is the Kafka timestamp column's name.
fn is_kafka_timestamp_column(name: &String) -> (b: bool)
    ensures
        b == (name@ == KAFKA_TIMESTAMP_COLUMN_NAME@),
{
    let kafka = String::from_str(KAFKA_TIMESTAMP_COLUMN_NAME);
    *name == kafka
}

/// The millisecond value of a constant whose evaluation gives `Int64`
/// microseconds.
fn literal_millis(e: &ExprImpl) -> (t: i64)
    requires
        holds_int64(*e),
    ensures
        t == micros_to_millis(int64_of(*e)),
{
    match e {
        ExprImpl::Literal(l) => match &l.value {
            Some(ScalarImpl::Int64(v)) => *v / 1000,
            _ => 0,
        },
        ExprImpl::FunctionCall(f) => match &f.const_value {
            Ok(Some(ScalarImpl::Int64(v))) => *v / 1000,
            _ => 0,
        },
        ExprImpl::InputRef(_) => 0,
    }
}

/// Recognises a two-argument call that compares the Kafka timestamp column
/// with a `Timestamptz` constant, and returns the constant in milliseconds
/// together with whether the column is the second argument.
pub fn extract_timestampz_literal(expr: &ExprImpl, schema: &Schema) -> (found: Option<(i64, bool)>)
    requires
        timestamp_comparison_defined(*expr, *schema),
    ensures
        found == timestamp_comparison(*expr, *schema),
{
    match expr {
        ExprImpl::FunctionCall(function_call) => {
            if function_call.inputs.len() == 2 {
                let first = &function_call.inputs[0];
                let second = &function_call.inputs[1];
                if let ExprImpl::InputRef(input_ref) = first {
                    if second.is_const() && is_kafka_timestamp_column(&schema.fields[input_ref.index].name)
                        && second.return_type() == DataType::Timestamptz {
                        return Some((literal_millis(second), false));
                    }
                }
                if let ExprImpl::InputRef(input_ref) = second {
                    if first.is_const() && is_kafka_timestamp_column(&schema.fields[input_ref.index].name)
                        && first.return_type() == DataType::Timestamptz {
                        return Some((literal_millis(first), true));
                    }
                }
                None
            } else {
                None
            }
        },
        _ => None,
    }
}

/// Consumes `expr` into `range` when it compares the Kafka timestamp column
/// with a constant by `>`, `>=`, `=`, `<` or `<=`: the range is narrowed to
/// the timestamps that also satisfy the comparison, and `None` is returned.
/// Any other expression is handed back unchanged and the range is kept.
pub fn expr_to_kafka_timestamp_range(
    expr: ExprImpl,
    range: &mut TimestampRange,
    schema: &Schema,
) -> (rest: Option<ExprImpl>)
    requires
        timestamp_comparison_defined(expr, *schema),
    ensures
        match pushed_range(expr, *old(range), *schema) {
            Some(narrowed) => rest is None && *final(range) == narrowed,
            None => rest == Some(expr) && *final(range) == *old(range),
        },
{
    match &expr {
        ExprImpl::FunctionCall(function_call) => {
            if let Some((timestampz_literal, reverse)) = extract_timestampz_literal(&expr, schema) {
                match function_call.func_type {
                    ExprType::GreaterThan => {
                        if reverse {
                            range.1 = merge_upper_bound(range.1, Bound::Excluded(timestampz_literal));
                        } else {
                            range.0 = merge_lower_bound(range.0, Bound::Excluded(timestampz_literal));
                        }
                        None
                    },
                    ExprType::GreaterThanOrEqual => {
                        if reverse {
                            range.1 = merge_upper_bound(range.1, Bound::Included(timestampz_literal));
                        } else {
                            range.0 = merge_lower_bound(range.0, Bound::Included(timestampz_literal));
                        }
                        None
                    },
                    ExprType::Equal => {
                        range.0 = merge_lower_bound(range.0, Bound::Included(timestampz_literal));
                        range.1 = merge_upper_bound(range.1, Bound::Included(timestampz_literal));
                        None
                    },
                    ExprType::LessThan => {
                        if reverse {
                            range.0 = merge_lower_bound(range.0, Bound::Excluded(timestampz_literal));
                        } else {
                            range.1 = merge_upper_bound(range.1, Bound::Excluded(timestampz_literal));
                        }
                        None
                    },
                    ExprType::LessThanOrEqual => {
                        if reverse {
                            range.0 = merge_lower_bound(range.0, Bound::Included(timestampz_literal));
                        } else {
                            range.1 = merge_upper_bound(range.1, Bound::Included(timestampz_literal));
                        }
                        None
                    },
                    _ => Some(expr),
                }
            } else {
                Some(expr)
            }
        },
        _ => Some(expr),
    }
}

/// A recognised comparison narrows the range to exactly the timestamps that
/// lie in the old range and satisfy the comparison.
pub proof fn lemma_narrow_range_is_intersection(
    range: TimestampRange,
    op: ExprType,
    t: i64,
    reverse: bool,
    x: int,
)
    requires
        narrow_range(range, op, t, reverse) is Some,
    ensures
        in_range(narrow_range(range, op, t, reverse).unwrap(), x)
            <==> (in_range(range, x) && comparison_holds(op, x, t as int, reverse)),
{
    lemma_merge_upper_is_intersection(range.1, Bound::Excluded(t), x);
    lemma_merge_upper_is_intersection(range.1, Bound::Included(t), x);
    lemma_merge_lower_is_intersection(range.0, Bound::Excluded(t), x);
    lemma_merge_lower_is_intersection(range.0, Bound::Included(t), x);
}

/// `op` is one of the order comparisons that narrow a range.
pub open spec fn is_range_comparison(op: ExprType) -> bool {
    ||| op == ExprType::GreaterThan
    ||| op == ExprType::GreaterThanOrEqual
    ||| op == ExprType::Equal
    ||| op == ExprType::LessThan
    ||| op == ExprType::LessThanOrEqual
}

/// The comparison that `expr` makes between the Kafka timestamp column and a
/// constant, when push-down consumes it: the operator, the constant in
/// milliseconds, and whether the constant is on the left.
pub open spec fn recognized_comparison(expr: ExprImpl, schema: Schema) -> Option<(ExprType, i64, bool)> {
    match (timestamp_comparison(expr, schema), expr) {
        (Some((t, reverse)), ExprImpl::FunctionCall(f)) => if is_range_comparison(f.func_type) {
            Some((f.func_type, t, reverse))
        } else {
            None
        },
        _ => None,
    }
}

/// A row whose Kafka timestamp is `x` satisfies `expr` as far as push-down
/// can tell: a consumed comparison holds, and anything else is left to a
/// filter.
pub open spec fn satisfies_if_consumed(expr: ExprImpl, schema: Schema, x: int) -> bool {
    match recognized_comparison(expr, schema) {
        Some((op, t, reverse)) => comparison_holds(op, x, t as int, reverse),
        None => true,
    }
}

/// Push-down narrows a range exactly when it recognises the comparison, and
/// then by that comparison.
pub proof fn lemma_pushed_range_recognized(expr: ExprImpl, range: TimestampRange, schema: Schema)
    ensures
        pushed_range(expr, range, schema) == (match recognized_comparison(expr, schema) {
            Some((op, t, reverse)) => narrow_range(range, op, t, reverse),
            None => None::<TimestampRange>,
        }),
        pushed_range(expr, range, schema) is Some <==> recognized_comparison(expr, schema) is Some,
{
}

/// The largest magnitude of a millisecond count converted from `i64`
/// microseconds: `i64::MAX / 1000`, as `i64` division gives it.
pub open spec fn max_millis() -> int {
    9_223_372_036_854_775
}

/// The constant of a recognised comparison, in milliseconds, lies a
/// thousandfold inside the range of `i64`.
pub proof fn lemma_recognized_millis_bounded(expr: ExprImpl, schema: Schema)
    ensures
        recognized_comparison(expr, schema) matches Some((op, t, reverse)) ==> -max_millis() <= t <= max_millis(),
{
    if let Some((t, reverse)) = timestamp_comparison(expr, schema) {
        if let ExprImpl::FunctionCall(f) = expr {
            let lit = if reverse { f.inputs@[0] } else { f.inputs@[1] };
            let us = int64_of(lit);
            assert(-max_millis() <= micros_to_millis(us) <= max_millis());
        }
    }
}

/// Push-down consumes only a comparison of the column named
/// `_rw_kafka_timestamp` with a constant of type `Timestamptz`: when a
/// conjunct narrows the range, it is a call of two arguments of which one
/// refers to a column of that name and the other is such a constant. A
/// comparison of any other column is kept.
pub proof fn lemma_pushed_only_kafka_column(expr: ExprImpl, range: TimestampRange, schema: Schema)
    ensures
        pushed_range(expr, range, schema) is Some ==> (expr matches ExprImpl::FunctionCall(f) && f.inputs@.len() == 2
            && {
            let a = f.inputs@[0];
            let b = f.inputs@[1];
            ||| (a matches ExprImpl::InputRef(r) && r.index < schema.fields@.len()
                && schema.fields@[r.index as int].name@ == "_rw_kafka_timestamp"@ && b.spec_is_const()
                && b.spec_return_type() == DataType::Timestamptz)
            ||| (b matches ExprImpl::InputRef(r) && r.index < schema.fields@.len()
                && schema.fields@[r.index as int].name@ == "_rw_kafka_timestamp"@ && a.spec_is_const()
                && a.spec_return_type() == DataType::Timestamptz)
        }),
{
    reveal_strlit("_rw_kafka_timestamp");
}

/// Push-down consumes a comparison by `>`, `>=`, `=`, `<` or `<=` of the
/// column named `_rw_kafka_timestamp` with a `Timestamptz` constant of `v`
/// microseconds, on either side: the range narrows to the timestamps of the
/// old range that satisfy the comparison with `v / 1000` milliseconds,
/// rounded toward zero.
pub proof fn lemma_kafka_comparison_pushed(
    op: ExprType,
    col: InputRef,
    lit: ExprImpl,
    reverse: bool,
    expr: ExprImpl,
    range: TimestampRange,
    schema: Schema,
    x: int,
)
    requires
        is_range_comparison(op),
        col.index < schema.fields@.len(),
        schema.fields@[col.index as int].name@ == "_rw_kafka_timestamp"@,
        lit.spec_is_const(),
        lit.spec_return_type() == DataType::Timestamptz,
        holds_int64(lit),
        expr matches ExprImpl::FunctionCall(f) && f.func_type == op && f.inputs@ == (if reverse {
            seq![lit, ExprImpl::InputRef(col)]
        } else {
            seq![ExprImpl::InputRef(col), lit]
        }),
    ensures
        ({
            let v = int64_of(lit);
            let t = if v >= 0 { v / 1000 } else { -((-v) / 1000) };
            pushed_range(expr, range, schema) matches Some(narrowed) && (in_range(narrowed, x) <==> (in_range(
                range,
                x,
            ) && comparison_holds(op, x, t, reverse)))
        }),
{
    reveal_strlit("_rw_kafka_timestamp");
    let t = micros_to_millis(int64_of(lit));
    assert(timestamp_comparison(expr, schema) == Some((t, reverse)));
    lemma_narrow_range_is_intersection(range, op, t, reverse, x);
}

} // verus!

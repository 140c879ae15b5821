//! Scalar expressions of a plan, as far as predicate push-down reads them.
use vstd::prelude::*;
use crate::catalog::DataType;

verus! {

/// A non-null scalar value. A `Timestamptz` value is held as `Int64`
/// microseconds since the epoch.
#[derive(Clone, Debug)]
pub enum ScalarImpl {
    Bool(bool),
    Int16(i16),
    Int32(i32),
    Int64(i64),
    Utf8(String),
}

/// The kind of a function call.
#[derive(Clone, Copy, Debug, PartialEq, Eq, Structural)]
pub enum ExprType {
    Equal,
    NotEqual,
    LessThan,
    LessThanOrEqual,
    GreaterThan,
    GreaterThanOrEqual,
    And,
    Or,
    Not,
    IsNull,
    IsNotNull,
    Add,
    Subtract,
    Cast,
}

/// A reference to a column of the input row.
#[derive(Clone, Debug)]
pub struct InputRef {
    pub index: usize,
    pub data_type: DataType,
}

/// A constant; `None` is SQL `NULL`.
#[derive(Clone, Debug)]
pub struct Literal {
    pub value: Option<ScalarImpl>,
    pub data_type: DataType,
}

/// A failure to evaluate an expression.
#[derive(Debug)]
pub struct ExprError {
    pub message: String,
}

/// A call of a function on argument expressions. `const_value` is what the
/// expression evaluator gives for the call when every input is constant; it
/// is read only then.
#[derive(Debug)]
pub struct FunctionCall {
    pub func_type: ExprType,
    pub return_type: DataType,
    pub inputs: Vec<ExprImpl>,
    pub const_value: Result<Option<ScalarImpl>, ExprError>,
}

/// A scalar expression.
#[derive(Debug)]
pub enum ExprImpl {
    InputRef(InputRef),
    Literal(Literal),
    FunctionCall(FunctionCall),
}

impl ExprImpl {
    /// The expression's value does not depend on the input row: it refers
    /// to no column of the row.
    pub open spec fn spec_is_const(&self) -> bool
        decreases self,
    {
        match self {
            ExprImpl::InputRef(_) => false,
            ExprImpl::Literal(_) => true,
            ExprImpl::FunctionCall(f) => forall|i: int|
                0 <= i < f.inputs@.len() ==> (#[trigger] f.inputs@[i]).spec_is_const(),
        }
    }

    /// What evaluating the expression without a row gives: a literal's value,
    /// or what the evaluator gives for a call; a column reference has none.
    pub open spec fn spec_const_value(&self) -> Option<Result<Option<ScalarImpl>, ExprError>> {
        match self {
            ExprImpl::Literal(l) => Some(Ok(l.value)),
            ExprImpl::FunctionCall(f) => Some(f.const_value),
            ExprImpl::InputRef(_) => None,
        }
    }

    /// The type of the expression's value.
    pub open spec fn spec_return_type(&self) -> DataType {
        match self {
            ExprImpl::InputRef(r) => r.data_type,
            ExprImpl::Literal(l) => l.data_type,
            ExprImpl::FunctionCall(f) => f.return_type,
        }
    }

    /// Whether the expression is constant.
    #[verifier::when_used_as_spec(spec_is_const)]
    pub fn is_const(&self) -> (b: bool)
        ensures
            b == self.spec_is_const(),
        decreases self,
    {
        match self {
            ExprImpl::InputRef(_) => false,
            ExprImpl::Literal(_) => true,
            ExprImpl::FunctionCall(f) => {
                let mut i: usize = 0;
                while i < f.inputs.len()
                    invariant
                        *self == ExprImpl::FunctionCall(*f),
                        i <= f.inputs@.len(),
                        forall|k: int| 0 <= k < i ==> (#[trigger] f.inputs@[k]).spec_is_const(),
                    decreases f.inputs@.len() - i,
                {
                    proof {
                        assert(self->FunctionCall_0 == *f);
                        assert(decreases_to!(*self => self->FunctionCall_0));
                        assert(decreases_to!(self->FunctionCall_0 => self->FunctionCall_0.inputs));
                        assert(decreases_to!(*self => f.inputs));
                        assert(decreases_to!(f.inputs => f.inputs@));
                        assert(decreases_to!(f.inputs@ => f.inputs@[i as int]));
                        assert(decreases_to!(*self => f.inputs@[i as int]));
                    }
                    if !f.inputs[i].is_const() {
                        proof {
                            assert(!f.inputs@[i as int].spec_is_const());
                        }
                        return false;
                    }
                    i = i + 1;
                }
                true
            },
        }
    }

    /// The type of the expression's value.
    #[verifier::when_used_as_spec(spec_return_type)]
    pub fn return_type(&self) -> (t: DataType)
        ensures
            t == self.spec_return_type(),
    {
        match self {
            ExprImpl::InputRef(r) => r.data_type,
            ExprImpl::Literal(l) => l.data_type,
            ExprImpl::FunctionCall(f) => f.return_type,
        }
    }
}

/// A conjunction of predicates: a row passes when every conjunct holds.
#[derive(Debug)]
pub struct Condition {
    pub conjunctions: Vec<ExprImpl>,
}

impl Condition {
    /// The condition that every row passes.
    pub fn true_cond() -> (c: Condition)
        ensures
            c.conjunctions@.len() == 0,
    {
        Condition { conjunctions: Vec::new() }
    }

    /// Every row passes the condition.
    pub fn always_true(&self) -> (b: bool)
        ensures
            b == (self.conjunctions@.len() == 0),
    {
        self.conjunctions.len() == 0
    }
}

} // verus!

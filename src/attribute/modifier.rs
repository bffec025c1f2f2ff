use vstd::prelude::*;
use vstd::std_specs::convert::IntoSpec;

verus! {

/// A caller-supplied binary operation on values. Plain functions and closures
/// that capture nothing have it.
pub trait CloneableFn: Fn(i64, i64) -> i64 + Copy {

}

impl<F: Fn(i64, i64) -> i64 + Copy> CloneableFn for F {

}

/// A function that accepts every pair of values and gives one result for each:
/// what a memoized value needs of a caller-supplied operation.
pub open spec fn deterministic<F: Fn(i64, i64) -> i64>(f: F) -> bool {
    &&& forall|a: i64, b: i64| #[trigger] call_requires(f, (a, b))
    &&& forall|a: i64, b: i64, r1: i64, r2: i64|
        #[trigger] call_ensures(f, (a, b), r1) && #[trigger] call_ensures(f, (a, b), r2) ==> r1
            == r2
}

pub open spec fn fits_i64(x: int) -> bool {
    i64::MIN <= x <= i64::MAX
}

/// How a modifier combines the running value with its operand.
#[derive(Debug)]
pub enum Operation<F = fn(i64, i64) -> i64> {
    Add,
    Sub,
    Fn(F),
}

impl<F: Copy> Clone for Operation<F> {
    fn clone(&self) -> (r: Self)
        ensures
            r == *self,
    {
        match self {
            Operation::Add => Operation::Add,
            Operation::Sub => Operation::Sub,
            Operation::Fn(f) => Operation::Fn(*f),
        }
    }
}

impl<F: Fn(i64, i64) -> i64> Operation<F> {
    /// The operation is pure: built-in ones are, a supplied one must be.
    pub open spec fn is_pure(self) -> bool {
        match self {
            Operation::Fn(f) => deterministic(f),
            _ => true,
        }
    }

    /// The result of the operation on `a` and `b`, or `None` where the
    /// arithmetic leaves `i64`.
    pub open spec fn spec_apply(self, a: i64, b: i64) -> Option<i64> {
        match self {
            Operation::Add => if fits_i64(a + b) {
                Some((a + b) as i64)
            } else {
                None
            },
            Operation::Sub => if fits_i64(a - b) {
                Some((a - b) as i64)
            } else {
                None
            },
            Operation::Fn(f) => Some(choose|r: i64| call_ensures(f, (a, b), r)),
        }
    }

    /// Whether `apply(a, b)` may be called: the arithmetic stays in `i64`, or
    /// the supplied function accepts the pair.
    pub open spec fn can_apply(self, a: i64, b: i64) -> bool {
        match self {
            Operation::Add => fits_i64(a + b),
            Operation::Sub => fits_i64(a - b),
            Operation::Fn(f) => call_requires(f, (a, b)),
        }
    }

    /// Applies the operation: `a + b`, `a - b`, or the supplied function.
    pub fn apply(&self, a: i64, b: i64) -> (r: i64)
        requires
            self.can_apply(a, b),
        ensures
            self is Add ==> r == a + b,
            self is Sub ==> r == a - b,
            self matches Operation::Fn(f) ==> call_ensures(f, (a, b), r),
            self.is_pure() ==> self.spec_apply(a, b) == Some(r),
    {
        match self {
            Operation::Add => a + b,
            Operation::Sub => a - b,
            Operation::Fn(f) => f(a, b),
        }
    }
}

impl<F> PartialEq for Operation<F> {
    /// Built-in operations are equal by kind; supplied functions are never
    /// equal to anything.
    fn eq(&self, other: &Self) -> (r: bool)
        ensures
            r == ((*self is Add && *other is Add) || (*self is Sub && *other is Sub)),
    {
        match (self, other) {
            (Operation::Add, Operation::Add) => true,
            (Operation::Sub, Operation::Sub) => true,
            _ => false,
        }
    }
}

impl<F> vstd::std_specs::cmp::PartialEqSpecImpl for Operation<F> {
    open spec fn obeys_eq_spec() -> bool {
        true
    }

    open spec fn eq_spec(&self, other: &Self) -> bool {
        (*self is Add && *other is Add) || (*self is Sub && *other is Sub)
    }
}

/// A modifier's operand: a literal, or the value of another attribute.
#[derive(Clone, Copy, PartialEq, Eq, Structural, Debug)]
pub enum Value {
    Value(i64),
    Attribute(u64),
}

impl Value {
    /// Whether the operand reads the attribute `attr`.
    pub fn is_attribute(&self, attr: &u64) -> (r: bool)
        ensures
            r == (*self == Value::Attribute(*attr)),
    {
        match self {
            Value::Attribute(a) => *a == *attr,
            _ => false,
        }
    }
}

impl From<i64> for Value {
    fn from(value: i64) -> (r: Self)
        ensures
            r == Value::Value(value),
    {
        Value::Value(value)
    }
}

impl vstd::std_specs::convert::FromSpecImpl<i64> for Value {
    open spec fn obeys_from_spec() -> bool {
        true
    }

    open spec fn from_spec(v: i64) -> Self {
        Value::Value(v)
    }
}

/// A rule that perturbs a value: an operand combined through an operation.
/// A base modifier also takes part in the base evaluation.
#[derive(Debug)]
pub struct AttributeModifier<F = fn(i64, i64) -> i64> {
    pub value: Value,
    pub op: Operation<F>,
    pub base: bool,
}

impl<F: Copy> Clone for AttributeModifier<F> {
    fn clone(&self) -> (r: Self)
        ensures
            r == *self,
    {
        AttributeModifier { value: self.value, op: self.op.clone(), base: self.base }
    }
}

impl<F> AttributeModifier<F> {
    /// An ordinary (non-base) modifier.
    pub fn new<I: Into<Value>>(value: I, op: Operation<F>) -> (r: Self)
        ensures
            I::obeys_into_spec() ==> r.value == value.into_spec(),
            r.op == op,
            !r.base,
    {
        AttributeModifier { value: value.into(), op, base: false }
    }

    /// An ordinary (non-base) modifier from an operand as it is.
    pub fn new_const(value: Value, op: Operation<F>) -> (r: Self)
        ensures
            r == (AttributeModifier { value, op, base: false }),
    {
        AttributeModifier { value, op, base: false }
    }

    /// The same modifier, marked as a base modifier.
    pub fn base(self) -> (r: Self)
        ensures
            r == (AttributeModifier { base: true, ..self }),
    {
        let mut m = self;
        m.base = true;
        m
    }
}

} // verus!

use vstd::prelude::*;
use vstd::wrapping::i64_specs;

use crate::value::ValueType;

verus! {

/// A reduction over the rows of a group.
#[derive(Debug, Clone, Copy, PartialEq, Eq, Structural)]
pub enum Aggregator {
    Count,
    Sum,
}

impl Aggregator {
    /// The accumulator after one more input `x`.
    pub open spec fn spec_reduce(self, acc: ValueType, x: ValueType) -> ValueType {
        match self {
            Aggregator::Count => ValueType::Integer(i64_specs::wrapping_add(acc.spec_as_int(), 1)),
            Aggregator::Sum => ValueType::Integer(
                i64_specs::wrapping_add(acc.spec_as_int(), x.spec_as_int()),
            ),
        }
    }

    /// Two partial accumulators of the same group combined into one.
    pub open spec fn spec_merge(self, a: ValueType, b: ValueType) -> ValueType {
        ValueType::Integer(i64_specs::wrapping_add(a.spec_as_int(), b.spec_as_int()))
    }

    /// The accumulator of a group with no rows yet.
    pub fn zero(&self) -> (r: ValueType)
        ensures
            r == ValueType::Integer(0),
    {
        ValueType::Integer(0)
    }

    pub fn reduce(&self, acc: &ValueType, x: &ValueType) -> (r: ValueType)
        ensures
            r == self.spec_reduce(*acc, *x),
    {
        match self {
            Aggregator::Count => ValueType::Integer(acc.as_int().wrapping_add(1)),
            Aggregator::Sum => ValueType::Integer(acc.as_int().wrapping_add(x.as_int())),
        }
    }

    pub fn merge(&self, a: &ValueType, b: &ValueType) -> (r: ValueType)
        ensures
            r == self.spec_merge(*a, *b),
    {
        ValueType::Integer(a.as_int().wrapping_add(b.as_int()))
    }
}

} // verus!

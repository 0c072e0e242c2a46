//! Aggregate signatures: a point of the signature group and a flag that tells
//! an aggregate of nothing from a real one.

use vstd::prelude::*;
use crate::points::RawSignature;

verus! {

/// The signature of a set of signers on one message.
#[derive(Clone, Copy, Debug, PartialEq, Eq)]
pub struct AggregateSignature {
    pub aggregate_signature: RawSignature,
    pub is_empty: bool,
}

impl AggregateSignature {
    /// The aggregate of no signature at all.
    pub fn new() -> (r: Self)
        ensures
            r.is_empty,
            r.aggregate_signature.bytes@ == crate::points::infinity_encoding(96),
    {
        AggregateSignature { aggregate_signature: RawSignature::infinity(), is_empty: true }
    }

    /// The aggregate that is the given point.
    pub fn from_point(point: RawSignature) -> (r: Self)
        ensures
            r == (AggregateSignature { aggregate_signature: point, is_empty: false }),
    {
        AggregateSignature { aggregate_signature: point, is_empty: false }
    }

    /// The underlying point.
    pub fn as_raw(&self) -> (r: &RawSignature)
        ensures
            *r == self.aggregate_signature,
    {
        &self.aggregate_signature
    }

    /// Whether nothing was aggregated.
    pub fn is_empty(&self) -> (r: bool)
        ensures
            r == self.is_empty,
    {
        self.is_empty
    }

    /// Whether both hold the same point and the same flag.
    pub fn same_as(&self, other: &Self) -> (r: bool)
        ensures
            r == (*self == *other),
    {
        self.is_empty == other.is_empty && self.aggregate_signature.same_point(
            &other.aggregate_signature,
        )
    }

    /// The aggregate of `self` and `other`, where `sum` is the sum of their points:
    /// empty only if both are.
    pub open spec fn combined(self, other: Self, sum: RawSignature) -> Self {
        AggregateSignature {
            aggregate_signature: sum,
            is_empty: self.is_empty && other.is_empty,
        }
    }

    /// Adds `other` to the aggregate, given the sum of the two points.
    pub fn add_aggregate_sum(&mut self, other: &AggregateSignature, sum: RawSignature)
        ensures
            *final(self) == old(self).combined(*other, sum),
    {
        self.is_empty = self.is_empty && other.is_empty;
        self.aggregate_signature = sum;
    }

    /// Adds `other` to the aggregate; `add_points` adds two points of the group.
    pub fn add_aggregate<F>(&mut self, other: &AggregateSignature, add_points: F) where
        F: FnOnce(RawSignature, RawSignature) -> RawSignature,

        requires
            call_requires(
                add_points,
                (old(self).aggregate_signature, other.aggregate_signature),
            ),
        ensures
            call_ensures(
                add_points,
                (old(self).aggregate_signature, other.aggregate_signature),
                final(self).aggregate_signature,
            ),
            *final(self) == old(self).combined(*other, final(self).aggregate_signature),
    {
        let sum = add_points(self.aggregate_signature, other.aggregate_signature);
        self.add_aggregate_sum(other, sum);
    }
}

} // verus!

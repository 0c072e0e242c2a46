//! Aggregate public keys: the sum of the keys of the signers of one message.

use vstd::prelude::*;
use crate::points::{infinity_encoding, PublicKey, RawPublicKey};
use crate::signature_set::G1Ref;

verus! {

/// The sum of public keys.
#[derive(Clone, Copy, Debug, PartialEq, Eq)]
pub struct AggregatePublicKey(pub RawPublicKey);

impl AggregatePublicKey {
    /// The sum of no key: the point at infinity.
    pub fn new() -> (r: Self)
        ensures
            r.0.bytes@ == infinity_encoding(48),
    {
        AggregatePublicKey(RawPublicKey::infinity())
    }

    /// The aggregate that is the given point.
    pub fn new_from_raw(pk: RawPublicKey) -> (r: Self)
        ensures
            r.0 == pk,
    {
        AggregatePublicKey(pk)
    }

    /// Adds a public key to the sum, with `add_points` adding two points.
    pub fn add<F>(&mut self, public_key: &PublicKey, add_points: F) where
        F: FnOnce(RawPublicKey, RawPublicKey) -> RawPublicKey,

        requires
            call_requires(add_points, (old(self).0, public_key.0)),
        ensures
            call_ensures(add_points, (old(self).0, public_key.0), final(self).0),
    {
        self.0 = add_points(self.0, public_key.0);
    }

    /// Adds a point to the sum, with `add_points` adding two points.
    pub fn add_point<F>(&mut self, point: &RawPublicKey, add_points: F) where
        F: FnOnce(RawPublicKey, RawPublicKey) -> RawPublicKey,

        requires
            call_requires(add_points, (old(self).0, *point)),
        ensures
            call_ensures(add_points, (old(self).0, *point), final(self).0),
    {
        self.0 = add_points(self.0, *point);
    }

    /// The underlying point.
    pub fn as_raw(&self) -> (r: &RawPublicKey)
        ensures
            *r == self.0,
    {
        &self.0
    }

    /// The underlying point.
    pub fn into_raw(self) -> (r: RawPublicKey)
        ensures
            r == self.0,
    {
        self.0
    }
}

impl G1Ref for AggregatePublicKey {
    open spec fn spec_g1(&self) -> RawPublicKey {
        self.0
    }

    fn g1_ref(&self) -> (r: RawPublicKey) {
        self.0
    }
}

impl G1Ref for PublicKey {
    open spec fn spec_g1(&self) -> RawPublicKey {
        self.0
    }

    fn g1_ref(&self) -> (r: RawPublicKey) {
        self.0
    }
}

} // verus!

//! Keys under which the results of dynamic lambdas are registered: a holder
//! key paired with the index of the lambda within its holder.

use vstd::prelude::*;

verus! {

/// Identifies the holder a deferred computation's results belong to, by its
/// textual identity.
pub struct DeferredHolderKey {
    pub id: String,
}

impl DeferredHolderKey {
    pub fn new(id: String) -> (r: DeferredHolderKey)
        ensures
            r.id@ == id@,
    {
        DeferredHolderKey { id }
    }
}

/// The index of one dynamic lambda within its holder.
#[derive(Clone, Copy, Debug, PartialEq, Eq, Structural)]
pub struct DynamicLambdaIndex(pub u32);

impl DynamicLambdaIndex {
    pub fn new(v: u32) -> (r: DynamicLambdaIndex)
        ensures
            r.0 == v,
    {
        DynamicLambdaIndex(v)
    }
}

/// The key under which one dynamic lambda's results are registered: the
/// holder key composed with the lambda's index.
pub struct DynamicLambdaResultsKey(pub DeferredHolderKey, pub DynamicLambdaIndex);

impl DynamicLambdaResultsKey {
    pub fn new(key: DeferredHolderKey, idx: DynamicLambdaIndex) -> (r: DynamicLambdaResultsKey)
        ensures
            r.0.id@ == key.id@,
            r.1 == idx,
    {
        DynamicLambdaResultsKey(key, idx)
    }

    /// The holder this key's results belong to.
    pub fn holder_key(&self) -> (r: &DeferredHolderKey)
        ensures
            r.id@ == self.0.id@,
    {
        &self.0
    }
}

} // verus!

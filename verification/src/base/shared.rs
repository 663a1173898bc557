//! Shared ownership of immutable nodes.

use vstd::prelude::*;
use std::sync::Arc;

verus! {

/// Calls `Arc::clone` of the standard library: a second pointer to the
/// same allocation. The contract claims that the value behind the new
/// pointer is the value behind the old one.
#[verifier::external_body]
pub(crate) fn share<T>(a: &Arc<T>) -> (r: Arc<T>)
    ensures
        r == *a,
{
    Arc::clone(a)
}

} // verus!

//! Shared ownership of scene nodes.

use vstd::prelude::*;
use std::sync::Arc;

verus! {

/// Relies on Arc::clone: the clone is the same shared value, with another
/// reference count.
#[verifier::external_body]
pub fn clone_arc<T>(a: &Arc<T>) -> (r: Arc<T>)
    ensures
        r == *a,
{
    a.clone()
}

} // verus!

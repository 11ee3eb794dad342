//! Buffers that several readers hold at once.

use std::sync::Arc;
use vstd::prelude::*;

verus! {

/// Calls `Arc::clone`: another handle to the same buffer. The claim is that
/// the new handle points to the value that the old one points to.
#[verifier::external_body]
pub(crate) fn share(b: &Arc<Vec<u8>>) -> (r: Arc<Vec<u8>>)
    ensures
        r == *b,
{
    b.clone()
}

} // verus!

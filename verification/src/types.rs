//! Shared heap allocation helpers.

use vstd::prelude::*;
use std::sync::Arc;

verus! {

/// A value boxed on the heap behind a shared reference-counted pointer.
pub type HeapPtr<T> = Arc<Box<T>>;

/// Puts `value` on the heap behind a shared reference-counted pointer.
pub fn heap_ptr<T>(value: T) -> (r: HeapPtr<T>)
    ensures
        **r == value,
{
    Arc::new(Box::new(value))
}

} // verus!

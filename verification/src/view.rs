//! Models of results.

use vstd::prelude::*;

verus! {

/// A result with its value replaced by its model.
pub open spec fn ok_view<T: View, E>(r: Result<T, E>) -> Result<T::V, E> {
    match r {
        Ok(v) => Ok(v@),
        Err(e) => Err(e),
    }
}

/// An option with its value replaced by its model.
pub open spec fn some_view<T: View>(r: Option<T>) -> Option<T::V> {
    match r {
        Some(v) => Some(v@),
        None => None,
    }
}

} // verus!

//! Views of optional values.
use vstd::prelude::*;

verus! {

/// The view of what an `Option` holds, if it holds anything.
pub open spec fn opt_view<T: View>(o: Option<T>) -> Option<T::V> {
    match o {
        Some(t) => Some(t@),
        None => None,
    }
}

} // verus!

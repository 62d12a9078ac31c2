//! Mathematical values of what the library's functions hand back.

use vstd::prelude::*;

verus! {

/// The mathematical value of a result: that of what it holds.
pub open spec fn result_view<T: DeepView, E: DeepView>(result: Result<T, E>) -> Result<T::V, E::V> {
    match result {
        Ok(value) => Ok(value.deep_view()),
        Err(error) => Err(error.deep_view()),
    }
}

} // verus!

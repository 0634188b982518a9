//! Telling when a source that is read into a buffer has ended.

use vstd::prelude::*;

verus! {

/// Logic for determining whether an EOF condition was reached.
pub trait EofCondition<R> {
    /// Returns `true` if the given read was an EOF.
    fn is_eof(read_result: &R) -> bool;
}

/// An [`EofCondition`] implementation that will treat any `0`-byte reads as
/// EOF.
pub struct ZeroReadEof;

impl<E> EofCondition<Result<usize, E>> for ZeroReadEof {
    fn is_eof(read_result: &Result<usize, E>) -> (eof: bool)
        ensures
            eof <==> (read_result matches Ok(count) && count == 0),
    {
        match read_result {
            Ok(count) => *count == 0,
            Err(_) => false,
        }
    }
}

} // verus!

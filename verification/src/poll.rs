//! The answer of one poll.
use vstd::prelude::*;

verus! {

/// The answer of one poll of a future: its output, or not yet.
#[derive(PartialEq, Eq, Debug)]
pub enum Poll<T> {
    Ready(T),
    Pending,
}

} // verus!

//! Why watching can fail.

use vstd::prelude::*;

verus! {

/// Why a path could not be watched or unwatched.
#[derive(Debug, PartialEq, Eq)]
pub enum WatcherError {
    /// Neither the path nor any of its ancestors exists.
    Unresolvable,
    /// The operating system refused to watch; the text is its reason.
    WatchRejected(String),
    /// The operating system refused to stop watching; the text is its reason.
    UnwatchRejected(String),
}

} // verus!

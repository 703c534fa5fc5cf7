//! The errors that the library reports.

use vstd::prelude::*;

verus! {

/// What went wrong, with a text for the log.
#[derive(Debug, PartialEq, Eq)]
pub enum Illusion {
    InvalidArgument(String),
    General(String),
    IO(String),
}

} // verus!

//! The reasons for which a surface is shown. A surface is drawn once every reason holds.

use vstd::prelude::*;

verus! {

/// A set of reasons, one bit each.
pub type ShowReason = u32;

/// No reason holds yet.
pub const UNINITIALIZED: ShowReason = 0;

/// The surface has contents to draw.
pub const DRAWABLE: ShowReason = 1;

/// The surface has a role in the shell.
pub const IN_SHELL: ShowReason = 2;

/// Every reason that is needed holds.
pub const READY: ShowReason = 3;

} // verus!

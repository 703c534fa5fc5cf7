//! The states in which a client is asked to draw its surface, one bit each.

use vstd::prelude::*;

verus! {

/// A set of states.
pub type SurfaceState = u32;

pub const REGULAR: SurfaceState = 0;

pub const MAXIMIZED: SurfaceState = 1;

pub const FULLSCREEN: SurfaceState = 2;

pub const RESIZING: SurfaceState = 4;

pub const TILED: SurfaceState = 8;

pub const ACTIVATED: SurfaceState = 16;

} // verus!

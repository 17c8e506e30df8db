use vstd::prelude::*;

verus! {

/// The entity leaves the view.
pub const LEAVE_PVS: i32 = 1;

/// The entity is deleted.
pub const DELETE: i32 = 2;

/// The entity enters the view.
pub const ENTER_PVS: i32 = 4;

} // verus!

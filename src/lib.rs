use vstd::prelude::*;

pub mod lookup;
pub mod model;
pub mod text;
pub mod timeline;

verus! {

/// Width given to a keyframe that is inserted or appended.
pub const DEFAULT_WIDTH: i32 = 500;

} // verus!

//! Verified core of a small OpenGL scene viewer: GL version checks,
//! scene-graph traversal, input and window state.

use vstd::prelude::*;

pub mod buffers;
pub mod glinfo;
pub mod input;
pub mod scene;
pub mod window;
pub mod world;

verus! {

} // verus!

//! Expression compiler and stack interpreter for constraint evaluation over
//! the Goldilocks field and its cubic extension.
use vstd::prelude::*;

pub mod context;
pub mod compiler;
pub mod field;
pub mod interpreter;
pub mod laws;

verus! {

} // verus!

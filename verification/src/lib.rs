//! CSS helpers and a segment-aware binary deserializer core.

pub mod bincode;
pub mod compat;
pub mod css;

use vstd::prelude::*;

verus! {

} // verus!

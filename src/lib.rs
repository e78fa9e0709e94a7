//! A server that wakes a registry of machines over the local network when it
//! receives a wake-trigger request.

use vstd::prelude::*;

pub mod digits;
pub mod handler;
pub mod packet;
pub mod pool;
pub mod registry;

verus! {

} // verus!

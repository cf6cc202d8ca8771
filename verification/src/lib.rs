//! zkRust's library: it turns a user's Rust program into the guest and host
//! programs that a zkVM (SP1, RISC Zero, Jolt) proves, and takes the
//! decisions of a proof's submission to Aligned. Every function states what
//! it computes and is verified against that statement.
use vstd::prelude::*;

pub mod text;
pub mod utils;
pub mod sp1;
pub mod risc0;
pub mod jolt;
pub mod interaction;
pub mod guest;
pub mod zk_rust_io;
pub mod aligned;

verus! {

} // verus!

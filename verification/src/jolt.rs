//! The Jolt back end: workspace locations, and the rewriting of a user's
//! program into a Jolt guest.
use vstd::prelude::*;
use crate::text::replace_all;
use crate::utils::{add_before_substring, before_first, prepend, replace};

verus! {

/// Where the Jolt proof is written.
pub const JOLT_PROOF_PATH: &'static str = "./jolt.proof";

/// Where the Jolt ELF is written.
pub const JOLT_ELF_PATH: &'static str = "./jolt.elf";

/// Jolt workspace.
pub const JOLT_WORKSPACE_DIR: &'static str = "./workspaces/jolt";

/// Sources of the Jolt guest.
pub const JOLT_SRC_DIR: &'static str = "./workspaces/jolt/guest/src";

/// Main file of the Jolt guest.
pub const JOLT_GUEST_MAIN: &'static str = "./workspaces/jolt/guest/src/main.rs";

/// Manifest of the Jolt guest.
pub const JOLT_GUEST_CARGO_TOML: &'static str = "./workspaces/jolt/guest/Cargo.toml";

/// Manifest template of the Jolt guest.
pub const JOLT_BASE_CARGO_TOML: &'static str = "./workspaces/base_files/jolt";

/// Header that makes a program a Jolt guest.
pub const JOLT_GUEST_PROGRAM_HEADER_STD: &'static str = "#![no_main]\n";

/// Attribute that marks the function Jolt proves.
pub const JOLT_GUEST_PROC_MACRO: &'static str = "\n#[jolt::provable]\n";

/// The Jolt guest made from the guest's main file: the Jolt header in front,
/// `main()` renamed to `method()` throughout, and the provable attribute placed
/// before the first `fn method()`.
pub open spec fn jolt_guest_program(guest_main: Seq<char>) -> Seq<char> {
    let with_header = JOLT_GUEST_PROGRAM_HEADER_STD@ + guest_main;
    let renamed = replace_all(with_header, "main()"@, "method()"@);
    before_first(renamed, "fn method()"@, JOLT_GUEST_PROC_MACRO@)
}

/// The Jolt guest program for the guest's main file `guest_main`.
pub fn prepare_jolt_guest(guest_main: &str) -> (r: String)
    ensures
        r@ == jolt_guest_program(guest_main@),
{
    let with_header = prepend(guest_main, JOLT_GUEST_PROGRAM_HEADER_STD);
    let renamed = replace(with_header.as_str(), "main()", "method()");
    add_before_substring(renamed.as_str(), "fn method()", JOLT_GUEST_PROC_MACRO)
}

} // verus!

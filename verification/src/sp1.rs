//! The SP1 back end: workspace locations, and the rewriting of a user's
//! program into an SP1 guest and host.
use vstd::prelude::*;
use crate::text::{contains, lemma_replace_leaves_none, lemma_seamless_by, replace_all};
use crate::utils::{
    format_guest, guest_program, insert, insert_or_keep, lemma_guest_has_no_markers, prepend,
    replace, HOST_INPUT,
    HOST_OUTPUT, IO_COMMIT, IO_OUT, IO_READ, IO_WRITE,
};

verus! {

/// SP1 host (script) workspace.
pub const SP1_SCRIPT_DIR: &'static str = "./workspaces/sp1/script";

/// SP1 guest (program) workspace.
pub const SP1_GUEST_DIR: &'static str = "./workspaces/sp1/program/";

/// Sources of the SP1 guest.
pub const SP1_SRC_DIR: &'static str = "./workspaces/sp1/program/src";

/// Main file of the SP1 guest.
pub const SP1_GUEST_MAIN: &'static str = "./workspaces/sp1/program/src/main.rs";

/// Main file of the SP1 host.
pub const SP1_HOST_MAIN: &'static str = "./workspaces/sp1/script/src/main.rs";

/// Manifest template of the SP1 guest.
pub const SP1_BASE_GUEST_CARGO_TOML: &'static str = "./workspaces/base_files/sp1/cargo_guest";

/// Manifest template of the SP1 host.
pub const SP1_BASE_HOST_CARGO_TOML: &'static str = "./workspaces/base_files/sp1/cargo_host";

/// Main file template of the SP1 host.
pub const SP1_BASE_HOST: &'static str = "./workspaces/base_files/sp1/host";

/// Manifest of the SP1 guest.
pub const SP1_GUEST_CARGO_TOML: &'static str = "./workspaces/sp1/program/Cargo.toml";

/// Where the SP1 ELF is written.
pub const SP1_ELF_PATH: &'static str = "./proof_data/sp1/sp1.elf";

/// Where the SP1 proof is written.
pub const SP1_PROOF_PATH: &'static str = "./proof_data/sp1/sp1.proof";

/// Header that makes a program an SP1 guest.
pub const SP1_GUEST_PROGRAM_HEADER: &'static str = "#![no_main]\nsp1_zkvm::entrypoint!(main);\n";

/// Cargo patch that enables SP1's accelerated SHA-256, K256 and bigint circuits.
pub const SP1_ACCELERATION_IMPORT: &'static str = "\n[patch.crates-io]\nsha2-v0-10-8 = { git = \"https://github.com/sp1-patches/RustCrypto-hashes\", package = \"sha2\", branch = \"patch-sha2-v0.10.8\" }\nsha3-v0-10-8 = { git = \"https://github.com/sp1-patches/RustCrypto-hashes\", package = \"sha3\", branch = \"patch-sha3-v0.10.8\" }\ncrypto-bigint = { git = \"https://github.com/sp1-patches/RustCrypto-bigint\", branch = \"patch-v0.5.5\" }\ntiny-keccak = { git = \"https://github.com/sp1-patches/tiny-keccak\", branch = \"patch-v2.0.2\" }\ned25519-consensus = { git = \"https://github.com/sp1-patches/ed25519-consensus\", branch = \"patch-v2.1.0\" }\necdsa-core = { git = \"https://github.com/sp1-patches/signatures\", package = \"ecdsa\", branch = \"patch-ecdsa-v0.16.9\" }\n";

/// Host call that hands a value to the SP1 guest.
pub const SP1_HOST_WRITE: &'static str = "stdin.write";

/// Host call that reads a value committed by the SP1 guest.
pub const SP1_HOST_READ: &'static str = "proof.public_values.read();";

/// Guest call that reads a value from the SP1 host.
pub const SP1_IO_READ: &'static str = "sp1_zkvm::io::read();";

/// Guest call that commits a public value in SP1.
pub const SP1_IO_COMMIT: &'static str = "sp1_zkvm::io::commit";

/// The SP1 guest program for the user's imports and `main` body: the SP1
/// header, the imports, `main`, and SP1's own read and commit calls in place
/// of zkRust's.
pub fn prepare_guest(imports: &str, main_func_code: &str) -> (r: String)
    ensures
        r@ == guest_program(
            imports@,
            main_func_code@,
            SP1_GUEST_PROGRAM_HEADER@,
            SP1_IO_READ@,
            SP1_IO_COMMIT@,
        ),
{
    format_guest(imports, main_func_code, SP1_GUEST_PROGRAM_HEADER, SP1_IO_READ, SP1_IO_COMMIT)
}

/// The SP1 guest translates every read and every commit of the user's
/// program: whatever the imports and the code, no `zk_rust_io::read();` and
/// no `zk_rust_io::commit` is left in it.
pub proof fn lemma_sp1_guest_has_no_markers(imports: Seq<char>, main_func_code: Seq<char>)
    ensures
        !contains(
            guest_program(imports, main_func_code, SP1_GUEST_PROGRAM_HEADER@, SP1_IO_READ@, SP1_IO_COMMIT@),
            IO_READ@,
        ),
        !contains(
            guest_program(imports, main_func_code, SP1_GUEST_PROGRAM_HEADER@, SP1_IO_READ@, SP1_IO_COMMIT@),
            IO_COMMIT@,
        ),
{
    reveal_strlit("zk_rust_io::read();");
    reveal_strlit("zk_rust_io::commit");
    reveal_strlit("sp1_zkvm::io::read();");
    reveal_strlit("sp1_zkvm::io::commit");
    lemma_seamless_by(SP1_IO_READ@, IO_READ@, 2, 1);
    lemma_seamless_by(SP1_IO_COMMIT@, IO_READ@, 2, 1);
    lemma_seamless_by(SP1_IO_COMMIT@, IO_COMMIT@, 2, 1);
    lemma_guest_has_no_markers(
        imports,
        main_func_code,
        SP1_GUEST_PROGRAM_HEADER@,
        SP1_IO_READ@,
        SP1_IO_COMMIT@,
    );
}

/// The SP1 host program made from the host's main file: the imports in
/// front, the body of `input()` after the input marker and that of `output()`
/// after the output marker (each only where its marker occurs), then zkRust's
/// write and out calls replaced by SP1's.
pub open spec fn sp1_host_program(
    host_main: Seq<char>,
    input: Seq<char>,
    output: Seq<char>,
    imports: Seq<char>,
) -> Seq<char> {
    let with_imports = imports + host_main;
    let with_input = insert_or_keep(with_imports, input, HOST_INPUT@);
    let with_output = insert_or_keep(with_input, output, HOST_OUTPUT@);
    replace_all(replace_all(with_output, IO_WRITE@, SP1_HOST_WRITE@), IO_OUT@, SP1_HOST_READ@)
}

/// The SP1 host translates every write and every out of the user's
/// `input()` and `output()`: whatever the host file, bodies and imports, no
/// `zk_rust_io::write` and no `zk_rust_io::out();` is left in it, so every
/// value the user writes reaches the guest.
pub proof fn lemma_sp1_host_has_no_markers(
    host_main: Seq<char>,
    input: Seq<char>,
    output: Seq<char>,
    imports: Seq<char>,
)
    ensures
        !contains(sp1_host_program(host_main, input, output, imports), IO_WRITE@),
        !contains(sp1_host_program(host_main, input, output, imports), IO_OUT@),
{
    reveal_strlit("zk_rust_io::write");
    reveal_strlit("zk_rust_io::out();");
    reveal_strlit("stdin.write");
    reveal_strlit("proof.public_values.read();");
    lemma_seamless_by(SP1_HOST_WRITE@, IO_WRITE@, 0, 2);
    lemma_seamless_by(SP1_HOST_READ@, IO_WRITE@, 0, 0);
    lemma_seamless_by(SP1_HOST_READ@, IO_OUT@, 0, 0);
    let with_imports = imports + host_main;
    let with_input = insert_or_keep(with_imports, input, HOST_INPUT@);
    let with_output = insert_or_keep(with_input, output, HOST_OUTPUT@);
    let with_writes = replace_all(with_output, IO_WRITE@, SP1_HOST_WRITE@);
    lemma_replace_leaves_none(with_output, IO_WRITE@, SP1_HOST_WRITE@, IO_WRITE@);
    lemma_replace_leaves_none(with_writes, IO_OUT@, SP1_HOST_READ@, IO_WRITE@);
    lemma_replace_leaves_none(with_writes, IO_OUT@, SP1_HOST_READ@, IO_OUT@);
}

/// The SP1 host program for the host's main file `host_main` and the user's
/// `input()` body, `output()` body and imports.
pub fn prepare_host(host_main: &str, input: &str, output: &str, imports: &str) -> (r: String)
    ensures
        r@ == sp1_host_program(host_main@, input@, output@, imports@),
{
    let with_imports = prepend(host_main, imports);
    let with_input = match insert(with_imports.as_str(), input, HOST_INPUT) {
        Some(t) => t,
        None => with_imports,
    };
    let with_output = match insert(with_input.as_str(), output, HOST_OUTPUT) {
        Some(t) => t,
        None => with_input,
    };
    let with_writes = replace(with_output.as_str(), IO_WRITE, SP1_HOST_WRITE);
    replace(with_writes.as_str(), IO_OUT, SP1_HOST_READ)
}

} // verus!

//! The RISC Zero back end: workspace locations, and the rewriting of a
//! user's program into a RISC Zero guest and host.
use vstd::prelude::*;
use crate::text::{
    append_chars, chars_of, contains, lemma_seamless_by, lines, replace_all, string_of, string_views,
};
use crate::utils::{
    captured_values, guest_program, lemma_guest_has_no_markers, pattern_compiles_on, remove_lines,
    replace, IO_COMMIT, IO_READ,
    try_extract_regex, without_target_lines, HOST_INPUT, HOST_OUTPUT, IO_OUT, IO_WRITE,
};

verus! {

/// RISC Zero workspace.
pub const RISC0_WORKSPACE_DIR: &'static str = "workspaces/risc0/";

/// Sources of the RISC Zero guest.
pub const RISC0_SRC_DIR: &'static str = "workspaces/risc0/methods/guest";

/// Main file of the RISC Zero guest.
pub const RISC0_GUEST_MAIN: &'static str = "workspaces/risc0/methods/guest/src/main.rs";

/// Main file of the RISC Zero host.
pub const RISC0_HOST_MAIN: &'static str = "workspaces/risc0/host/src/main.rs";

/// Manifest template of the RISC Zero host.
pub const RISC0_BASE_HOST_CARGO_TOML: &'static str = "workspaces/base_files/risc0/cargo_host";

/// Manifest template of the RISC Zero guest.
pub const RISC0_BASE_GUEST_CARGO_TOML: &'static str = "workspaces/base_files/risc0/cargo_guest";

/// Main file template of the RISC Zero host.
pub const RISC0_BASE_HOST: &'static str = "workspaces/base_files/risc0/host";

/// Main file template of the RISC Zero host, restored after each run.
pub const RISC0_BASE_HOST_FILE: &'static str = "workspaces/base_files/risc0/host";

/// Manifest of the RISC Zero guest.
pub const RISC0_GUEST_CARGO_TOML: &'static str = "workspaces/risc0/methods/guest/Cargo.toml";

/// Where the RISC Zero proof is written.
pub const PROOF_FILE_PATH: &'static str = "./proof_data/risc0/risc0.proof";

/// Where the RISC Zero image id is written.
pub const IMAGE_ID_FILE_PATH: &'static str = "./proof_data/risc0/risc0.imageid";

/// Where the RISC Zero public input is written.
pub const PUBLIC_INPUT_FILE_PATH: &'static str = "./proof_data/risc0/risc0.pub";

/// Header that makes a program a RISC Zero guest.
pub const RISC0_GUEST_PROGRAM_HEADER: &'static str = "#![no_main]\n\nrisc0_zkvm::guest::entry!(main);\n";

/// Cargo patch that enables RISC Zero's accelerated SHA-256, K256 and bigint circuits.
pub const RISC0_ACCELERATION_IMPORT: &'static str = "\n[patch.crates-io]\nsha2 = { git = \"https://github.com/risc0/RustCrypto-hashes\", tag = \"sha2-v0.10.6-risczero.0\" }\nk256 = { git = \"https://github.com/risc0/RustCrypto-elliptic-curves\", tag = \"k256/v0.13.1-risczero.1\"  }\ncrypto-bigint = { git = \"https://github.com/risc0/RustCrypto-crypto-bigint\", tag = \"v0.5.5-risczero.0\" }";

/// Start of the executor environment built by the host.
pub const RISC0_ENV_BUILDER: &'static str = "let env = ExecutorEnv::builder()";

/// Executor environment builder of the RISC Zero API.
pub const RISC0_IO_HOST: &'static str = "risc0_zkvm::ExecutorEnv::builder()";

/// End of the executor environment built by the host.
pub const RISC0_IO_HOST_BUILD: &'static str = ".build().unwrap();";

/// Guest call that reads a value from the RISC Zero host.
pub const RISC0_IO_READ: &'static str = "risc0_zkvm::guest::env::read();";

/// Guest call that writes a value in RISC Zero.
pub const RISC0_IO_WRITE: &'static str = "risc0_zkvm::guest::env::write";

/// Guest call that commits a public value in RISC Zero.
pub const RISC0_IO_COMMIT: &'static str = "risc0_zkvm::guest::env::commit";

/// A RISC Zero guest, built with RISC Zero's read and commit calls,
/// translates every read and every commit of the user's program: whatever
/// the imports, code and header, no `zk_rust_io::read();` and no
/// `zk_rust_io::commit` is left in it.
pub proof fn lemma_risc0_guest_has_no_markers(
    imports: Seq<char>,
    main_func_code: Seq<char>,
    program_header: Seq<char>,
)
    ensures
        !contains(
            guest_program(imports, main_func_code, program_header, RISC0_IO_READ@, RISC0_IO_COMMIT@),
            IO_READ@,
        ),
        !contains(
            guest_program(imports, main_func_code, program_header, RISC0_IO_READ@, RISC0_IO_COMMIT@),
            IO_COMMIT@,
        ),
{
    reveal_strlit("zk_rust_io::read();");
    reveal_strlit("zk_rust_io::commit");
    reveal_strlit("risc0_zkvm::guest::env::read();");
    reveal_strlit("risc0_zkvm::guest::env::commit");
    lemma_seamless_by(RISC0_IO_READ@, IO_READ@, 2, 1);
    lemma_seamless_by(RISC0_IO_COMMIT@, IO_READ@, 2, 1);
    lemma_seamless_by(RISC0_IO_COMMIT@, IO_COMMIT@, 2, 1);
    lemma_guest_has_no_markers(
        imports,
        main_func_code,
        program_header,
        RISC0_IO_READ@,
        RISC0_IO_COMMIT@,
    );
}

/// Host call that decodes the journal of a RISC Zero receipt.
pub const RISC0_IO_OUT: &'static str = "receipt.journal.decode().unwrap();";

/// The executor environment of the host template, which receives no input.
pub const RISC0_EMPTY_ENV: &'static str = "let env = ExecutorEnv::builder().build().unwrap();";

/// Host lines that hand values to the guest through zkRust; they are dropped
/// once the environment builder carries the values.
pub const IO_WRITE_CALL: &'static str = "zk_rust_io::write(";

// ---------------------------------------------------------------------------
// Escaping
// ---------------------------------------------------------------------------

/// The characters that have a meaning in a regular expression.
pub open spec fn is_meta_character(c: char) -> bool {
    c == '\\' || c == '.' || c == '+' || c == '*' || c == '?' || c == '(' || c == ')' || c == '|'
        || c == '[' || c == ']' || c == '{' || c == '}' || c == '^' || c == '$' || c == '#' || c
        == '&' || c == '-' || c == '~'
}

/// `s` with a backslash in front of every meta character, so that it matches
/// itself literally.
pub open spec fn escaped(s: Seq<char>) -> Seq<char>
    decreases s.len(),
{
    if s.len() == 0 {
        seq![]
    } else {
        (if is_meta_character(s[0]) {
            seq!['\\', s[0]]
        } else {
            seq![s[0]]
        }) + escaped(s.drop_first())
    }
}

/// Trusted: wraps `regex::escape`, which puts a backslash before each of the
/// characters `\ . + * ? ( ) | [ ] { } ^ $ # & - ~` and copies every other
/// character unchanged (its source, through `regex_syntax::escape_into`).
#[verifier::external_body]
fn regex_escape(pattern: &str) -> (r: String)
    ensures
        r@ == escaped(pattern@),
{
    regex::escape(pattern)
}

/// The pattern that finds the argument of each call of `call_name`: the
/// escaped name, an opening parenthesis, then the shortest text up to a
/// closing parenthesis, captured.
pub open spec fn call_pattern(call_name: Seq<char>) -> Seq<char> {
    escaped(call_name) + "[(](.*?)[)]"@
}

/// The pattern that finds the argument of each call of `call_name`.
pub fn call_argument_pattern(call_name: &str) -> (r: String)
    ensures
        r@ == call_pattern(call_name@),
{
    let mut p = chars_of(regex_escape(call_name).as_str());
    append_chars(&mut p, &chars_of("[(](.*?)[)]"));
    string_of(&p)
}

// ---------------------------------------------------------------------------
// Host program
// ---------------------------------------------------------------------------

/// `.write(v).unwrap()` for each value, in order.
pub open spec fn write_calls(values: Seq<Seq<char>>) -> Seq<char>
    decreases values.len(),
{
    if values.len() == 0 {
        seq![]
    } else {
        ".write("@ + values[0] + ").unwrap()"@ + write_calls(values.drop_first())
    }
}

/// The executor environment that hands every value to the guest.
pub open spec fn env_builder_text(values: Seq<Seq<char>>) -> Seq<char> {
    RISC0_ENV_BUILDER@ + write_calls(values) + RISC0_IO_HOST_BUILD@
}

/// The executor environment statement that hands `values` to the guest, in
/// order.
pub fn env_builder(values: &Vec<String>) -> (r: String)
    ensures
        r@ == env_builder_text(string_views(values@)),
{
    let ghost all = string_views(values@);
    let mut out = chars_of(RISC0_ENV_BUILDER);
    let mut i: usize = 0;
    assert(all.skip(0) == all);
    while i < values.len()
        invariant
            i <= values.len(),
            all == string_views(values@),
            out@ + write_calls(all.skip(i as int)) == RISC0_ENV_BUILDER@ + write_calls(all),
        decreases values.len() - i,
    {
        let ghost rest = all.skip(i as int);
        assert(rest.drop_first() == all.skip(i + 1));
        assert(rest[0] == values@[i as int]@);
        let ghost before = out@;
        append_chars(&mut out, &chars_of(".write("));
        append_chars(&mut out, &chars_of(values[i].as_str()));
        append_chars(&mut out, &chars_of(").unwrap()"));
        assert(out@ == before + ".write("@ + values@[i as int]@ + ").unwrap()"@);
        i += 1;
    }
    assert(all.skip(i as int).len() == 0);
    append_chars(&mut out, &chars_of(RISC0_IO_HOST_BUILD));
    string_of(&out)
}

/// The RISC Zero host program: the imports in front of the host template,
/// the bodies of `input()` and `output()` at their markers, an environment
/// builder that hands `values` to the guest, the journal decoding in place of
/// zkRust's out call, and the lines holding `zk_rust_io::write(` dropped.
pub open spec fn risc0_host_program(
    template: Seq<char>,
    input: Seq<char>,
    output: Seq<char>,
    imports: Seq<char>,
    values: Seq<Seq<char>>,
) -> Seq<char> {
    let program = imports + template;
    let with_input = replace_all(program, HOST_INPUT@, input);
    let with_output = replace_all(with_input, HOST_OUTPUT@, output);
    let with_env = replace_all(with_output, RISC0_EMPTY_ENV@, env_builder_text(values));
    let with_out = replace_all(with_env, IO_OUT@, RISC0_IO_OUT@);
    without_target_lines(with_out, IO_WRITE_CALL@)
}

/// The RISC Zero host program for the given template, user functions and
/// the values that the user's `input()` writes.
pub fn host_program(
    template: &str,
    input: &str,
    output: &str,
    imports: &str,
    values: &Vec<String>,
) -> (r: String)
    ensures
        r@ == risc0_host_program(template@, input@, output@, imports@, string_views(values@)),
{
    let mut program = chars_of(imports);
    append_chars(&mut program, &chars_of(template));
    let program = string_of(&program);
    let with_input = replace(program.as_str(), HOST_INPUT, input);
    let with_output = replace(with_input.as_str(), HOST_OUTPUT, output);
    let builder = env_builder(values);
    let with_env = replace(with_output.as_str(), RISC0_EMPTY_ENV, builder.as_str());
    let with_out = replace(with_env.as_str(), IO_OUT, RISC0_IO_OUT);
    remove_lines(with_out.as_str(), IO_WRITE_CALL)
}

/// The RISC Zero host program for the host template, the user's `input()`
/// body, `output()` body and imports, with the values handed to the guest
/// taken from every `zk_rust_io::write(..)` call in `host_main`. `None` where
/// the regex engine refuses the search pattern on a line of `host_main`.
pub fn prepare_host(
    template: &str,
    input: &str,
    output: &str,
    imports: &str,
    host_main: &str,
) -> (r: Option<String>)
    ensures
        r is Some <==> pattern_compiles_on(call_pattern(IO_WRITE@), lines(host_main@)),
        r matches Some(p) ==> p@ == risc0_host_program(
            template@,
            input@,
            output@,
            imports@,
            captured_values(call_pattern(IO_WRITE@), lines(host_main@)),
        ),
{
    let pattern = call_argument_pattern(IO_WRITE);
    match try_extract_regex(host_main, pattern.as_str()) {
        Some(values) => Some(host_program(template, input, output, imports, &values)),
        None => None,
    }
}

} // verus!

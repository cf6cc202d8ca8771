use zkrust::jolt::{prepare_jolt_guest, JOLT_GUEST_PROC_MACRO};
use zkrust::risc0::{call_argument_pattern, env_builder, host_program, prepare_host as risc0_prepare_host};
use zkrust::sp1::{prepare_guest, prepare_host as sp1_prepare_host, SP1_IO_COMMIT, SP1_IO_READ};
use zkrust::utils::format_guest;
use zkrust::risc0::{RISC0_GUEST_PROGRAM_HEADER, RISC0_IO_COMMIT, RISC0_IO_READ};

#[test]
fn sp1_guest_program() {
    let g = prepare_guest("use zk_rust_io;\n", "let n: u32 = zk_rust_io::read();\nzk_rust_io::commit(&n);");
    assert_eq!(
        g,
        "#![no_main]\nsp1_zkvm::entrypoint!(main);\nuse zk_rust_io;\npub fn main() {\nlet n: u32 = sp1_zkvm::io::read();\nsp1_zkvm::io::commit(&n);\n}"
    );
    assert_eq!(SP1_IO_READ, "sp1_zkvm::io::read();");
    assert_eq!(SP1_IO_COMMIT, "sp1_zkvm::io::commit");
}

#[test]
fn sp1_host_program() {
    let template = "fn main() {\n    let mut stdin = SP1Stdin::new();\n    // INPUT //\n    let proof = run(stdin);\n    // OUTPUT //\n}\n";
    let h = sp1_prepare_host(
        template,
        "zk_rust_io::write(&n);",
        "let r: u32 = zk_rust_io::out();",
        "use zk_rust_io;\n",
    );
    assert_eq!(
        h,
        "use zk_rust_io;\nfn main() {\n    let mut stdin = SP1Stdin::new();\n    // INPUT //\nstdin.write(&n);\n\n    let proof = run(stdin);\n    // OUTPUT //\nlet r: u32 = proof.public_values.read();\n\n}\n"
    );
}

#[test]
fn sp1_host_without_markers_keeps_template() {
    let h = sp1_prepare_host("fn main() {}\n", "a();", "b();", "");
    assert_eq!(h, "fn main() {}\n");
}

#[test]
fn risc0_guest_program() {
    let g = format_guest(
        "",
        "let v: u8 = zk_rust_io::read();\nzk_rust_io::commit(&v);",
        RISC0_GUEST_PROGRAM_HEADER,
        RISC0_IO_READ,
        RISC0_IO_COMMIT,
    );
    assert_eq!(
        g,
        "#![no_main]\n\nrisc0_zkvm::guest::entry!(main);\npub fn main() {\nlet v: u8 = risc0_zkvm::guest::env::read();\nrisc0_zkvm::guest::env::commit(&v);\n}"
    );
}

const RISC0_TEMPLATE: &str = "fn main() {\n    // INPUT //\n    let env = ExecutorEnv::builder().build().unwrap();\n    let receipt = prove(env);\n    // OUTPUT //\n}\n";
const RISC0_EXPECTED: &str = "use zk_rust_io;\nfn main() {\n    let env = ExecutorEnv::builder().write(&a).unwrap().write(&b).unwrap().build().unwrap();\n    let receipt = prove(env);\n    let r: u32 = receipt.journal.decode().unwrap();\n}\n";

#[test]
fn risc0_host_from_values() {
    let h = host_program(
        RISC0_TEMPLATE,
        "zk_rust_io::write(&a);\n    zk_rust_io::write(&b);",
        "let r: u32 = zk_rust_io::out();",
        "use zk_rust_io;\n",
        &vec!["&a".to_string(), "&b".to_string()],
    );
    assert_eq!(h, RISC0_EXPECTED);
}

#[test]
fn risc0_host_reads_values_from_calls() {
    let input = "zk_rust_io::write(&a);\n    zk_rust_io::write(&b);";
    let h = risc0_prepare_host(
        RISC0_TEMPLATE,
        input,
        "let r: u32 = zk_rust_io::out();",
        "use zk_rust_io;\n",
        "pub fn input() {\n    zk_rust_io::write(&a);\n    zk_rust_io::write(&b);\n}\n",
    );
    assert_eq!(h.unwrap(), RISC0_EXPECTED);
}

#[test]
fn risc0_env_builder_text() {
    assert_eq!(env_builder(&vec![]), "let env = ExecutorEnv::builder().build().unwrap();");
    assert_eq!(
        env_builder(&vec!["&x".to_string()]),
        "let env = ExecutorEnv::builder().write(&x).unwrap().build().unwrap();"
    );
}

#[test]
fn call_pattern_escapes_meta_characters() {
    assert_eq!(call_argument_pattern("zk_rust_io::write"), "zk_rust_io::write[(](.*?)[)]");
    assert_eq!(call_argument_pattern("a.b(c)"), "a\\.b\\(c\\)[(](.*?)[)]");
    assert_eq!(call_argument_pattern("x+y*"), "x\\+y\\*[(](.*?)[)]");
}

#[test]
fn jolt_guest_program() {
    let g = prepare_jolt_guest("pub fn main() {\n    let x = 1;\n}\n");
    assert_eq!(g, "#![no_main]\npub \n#[jolt::provable]\nfn method() {\n    let x = 1;\n}\n");
    assert_eq!(JOLT_GUEST_PROC_MACRO, "\n#[jolt::provable]\n");
    assert_eq!(prepare_jolt_guest("fn other() {}"), "#![no_main]\nfn other() {}");
}

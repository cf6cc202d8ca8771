use zkrust::utils::{
    add_before_substring, dependencies_section, extract_function_bodies, extract_regex,
    format_guest, function_bodies_extractable, get_imports, insert, prepend, remove_lines,
    replace, try_extract_regex, validate_directory_structure, LayoutError, ProgramLayout,
    IO_COMMIT, IO_READ,
};

#[test]
fn prepend_puts_text_first() {
    assert_eq!(prepend("fn main() {}\n", "use a;\n"), "use a;\nfn main() {}\n");
    assert_eq!(prepend("", "x"), "x");
    assert_eq!(prepend("body", ""), "body");
}

#[test]
fn replace_all_occurrences() {
    assert_eq!(replace("a-b-c", "-", "+"), "a+b+c");
    assert_eq!(replace("aaaa", "aa", "b"), "bb");
    assert_eq!(replace("aaa", "aa", "b"), "ba");
    assert_eq!(replace("abc", "", "x"), "xaxbxcx");
    assert_eq!(replace("", "", "x"), "x");
    assert_eq!(replace("no match", "zz", "y"), "no match");
    assert_eq!(replace("héllo wörld", "ö", "o"), "héllo world");
}

#[test]
fn replace_by_itself_is_identity() {
    for s in ["", "abcabc", "aaa", "zk_rust_io::read(); zk_rust_io::read();"] {
        for p in ["", "a", "ab", "zk_rust_io::read();"] {
            assert_eq!(replace(s, p, p), s);
        }
    }
}

#[test]
fn insert_after_first_occurrence() {
    let host = "fn main() {\n    // INPUT //\n    run();\n    // INPUT //\n}";
    assert_eq!(
        insert(host, "let x = 1;", "// INPUT //").unwrap(),
        "fn main() {\n    // INPUT //\nlet x = 1;\n\n    run();\n    // INPUT //\n}"
    );
    assert_eq!(insert("abc", "x", "zz"), None);
    assert_eq!(insert("abc", "x", "c").unwrap(), "abc\nx\n");
}

#[test]
fn add_before_first_substring() {
    assert_eq!(
        add_before_substring("fn method() {}\nfn method() {}", "fn method()", "\n#[jolt::provable]\n"),
        "\n#[jolt::provable]\nfn method() {}\nfn method() {}"
    );
    assert_eq!(add_before_substring("abc", "zz", "x"), "abc");
}

fn sigs() -> Vec<String> {
    vec!["fn main()".to_string(), "fn input()".to_string(), "fn output()".to_string()]
}

#[test]
fn extract_bodies_in_order() {
    let code = "use a;\npub fn main() {\n    let x = { 1 };\n    if x > 0 { go(); }\n}\n\npub fn input() {\n    zk_rust_io::write(&5);\n}\npub fn output() {}\n";
    assert!(function_bodies_extractable(code, &sigs()));
    let bodies = extract_function_bodies(code, &sigs());
    assert_eq!(
        bodies,
        vec![
            "let x = { 1 };\n    if x > 0 { go(); }".to_string(),
            "zk_rust_io::write(&5);".to_string(),
            "".to_string(),
        ]
    );
}

#[test]
fn extract_bodies_skips_signature_without_brace() {
    let code = "fn main() { a(); } fn input()";
    let kws = vec!["fn main()".to_string(), "fn input()".to_string()];
    assert!(function_bodies_extractable(code, &kws));
    assert_eq!(extract_function_bodies(code, &kws), vec!["a();".to_string()]);
}

#[test]
fn extract_bodies_refused_cases() {
    // A signature that is missing, or that comes before the previous one.
    assert!(!function_bodies_extractable("fn main() {}", &sigs()));
    let swapped = "fn input() {} fn main() {} fn output() {}";
    assert!(!function_bodies_extractable(swapped, &sigs()));
    // A body that never closes.
    let kws = vec!["fn main()".to_string()];
    assert!(!function_bodies_extractable("fn main() { {", &kws));
}

#[test]
fn imports_with_multiline_use() {
    let code = "use std::io;\n  pub mod m;\nuse a::{\n    b,\n    c,\n};\nmod x;\nfn main() {\n    use inner;\n}\nconst MODE: u8 = 1;\n";
    assert_eq!(
        get_imports(code),
        "use std::io;\n  pub mod m;\nuse a::{\n    b,\n    c,\n};\nmod x;\n    use inner;\n"
    );
    assert_eq!(get_imports("fn main() {}\n"), "");
    assert_eq!(get_imports("use a\r\nb;\r\nc\r\n"), "use a\nb;\n");
}

#[test]
fn remove_lines_drops_matching() {
    let text = "a\nzk_rust_io::write(&x);\nb\r\n\nlast";
    assert_eq!(remove_lines(text, "zk_rust_io::write("), "a\nb\n\nlast\n");
    assert_eq!(remove_lines("", "x"), "");
    assert_eq!(remove_lines("x\ny\n", ""), "");
}

#[test]
fn remove_lines_twice_changes_nothing() {
    let text = "keep\ndrop me\nkeep too\r\n  drop\n";
    let once = remove_lines(text, "drop");
    assert_eq!(once, "keep\nkeep too\n");
    assert_eq!(remove_lines(&once, "drop"), once);
}

#[test]
fn extract_regex_first_groups() {
    let text = "zk_rust_io::write(&a); zk_rust_io::write(&b)\nnothing\nzk_rust_io::write(&(c))";
    let v = extract_regex(text, r"zk_rust_io::write[(](.*?)[)]");
    assert_eq!(v, vec!["&a".to_string(), "&b".to_string(), "&(c".to_string()]);
    let opt = extract_regex("ab ac", r"a(x)?.");
    assert_eq!(opt, Vec::<String>::new());
    let some = extract_regex("ab ac", r"a(.)");
    assert_eq!(some, vec!["b".to_string(), "c".to_string()]);
}

#[test]
fn try_extract_regex_refuses_bad_pattern() {
    assert_eq!(try_extract_regex("one line", "(unclosed"), None);
    assert_eq!(try_extract_regex("", "(unclosed"), None);
    assert_eq!(try_extract_regex("", "(x)"), Some(Vec::new()));
    assert_eq!(try_extract_regex("k=1\nk=2", r"k=(\d)"), Some(vec!["1".to_string(), "2".to_string()]));
}

#[test]
fn format_guest_replaces_markers() {
    let g = format_guest(
        "use x;\n",
        "let n: u32 = zk_rust_io::read();\nzk_rust_io::commit(&n);",
        "#![no_main]\n",
        "vm::read();",
        "vm::commit",
    );
    assert_eq!(g, "#![no_main]\nuse x;\npub fn main() {\nlet n: u32 = vm::read();\nvm::commit(&n);\n}");
    assert_eq!(IO_READ, "zk_rust_io::read();");
    assert_eq!(IO_COMMIT, "zk_rust_io::commit");
}

#[test]
fn dependencies_after_header() {
    let toml = "[package]\nname = \"p\"\n\n[dependencies]\nregex = \"1\"\n";
    assert_eq!(dependencies_section(toml).unwrap(), "\nregex = \"1\"\n");
    assert_eq!(dependencies_section("[package]\n"), None);
}

#[test]
fn directory_structure_rules() {
    let ok = ProgramLayout { cargo_toml: true, src_dir: true, main_rs: true };
    assert_eq!(validate_directory_structure(&ok), Ok(()));
    let no_toml = ProgramLayout { cargo_toml: false, src_dir: false, main_rs: false };
    assert_eq!(validate_directory_structure(&no_toml), Err(LayoutError::CargoTomlNotFound));
    let no_src = ProgramLayout { cargo_toml: true, src_dir: false, main_rs: false };
    assert_eq!(validate_directory_structure(&no_src), Err(LayoutError::SrcDirNotFound));
    let no_main = ProgramLayout { cargo_toml: true, src_dir: true, main_rs: false };
    assert_eq!(validate_directory_structure(&no_main), Err(LayoutError::MainRsNotFound));
    assert_eq!(LayoutError::MainRsNotFound.message(), "main.rs not found in src/ directory in root");
    assert_eq!(LayoutError::CargoTomlNotFound.message(), "Cargo.toml not found.");
    assert_eq!(LayoutError::SrcDirNotFound.message(), "src/ directory not found in root");
}

#[test]
fn imports_of_imports_are_the_same() {
    let code = "use a::{\n  b,\n};\nfn f() {}\n  mod m;\nuse c; // trailing\nlet x = 1;\n";
    let once = get_imports(code);
    assert_eq!(once, "use a::{\n  b,\n};\n  mod m;\nuse c; // trailing\n");
    assert_eq!(get_imports(&once), once);
}

#[test]
fn extracted_bodies_are_trimmed() {
    let code = "fn main() {   \n\t body();  \n }\nfn input() {}\nfn output() { x }";
    let bodies = extract_function_bodies(code, &sigs());
    for b in &bodies {
        assert_eq!(b.trim(), b);
    }
    assert_eq!(bodies, vec!["body();".to_string(), "".to_string(), "x".to_string()]);
}

#[test]
fn removing_the_appended_patch_restores_the_file() {
    let toml = "[package]\nname = \"guest\"\n\n[dependencies]\nsp1-zkvm = \"1.0\"\n";
    for patch in [zkrust::sp1::SP1_ACCELERATION_IMPORT, zkrust::risc0::RISC0_ACCELERATION_IMPORT] {
        let patched = format!("{}{}", toml, patch);
        assert_eq!(replace(&patched, patch, ""), toml);
    }
    // Text before and after the appended part is kept as it was.
    assert_eq!(replace("ab[X]cd", "[X]", ""), "abcd");
}

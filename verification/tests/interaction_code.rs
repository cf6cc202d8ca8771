use zkrust::interaction::{
    count_parameters, extract_params, function_menu, generate_interaction_code, parse_usize,
    pick_function, split_chosen_function, ChoiceError,
};

#[test]
fn parameters_counted_by_commas() {
    assert_eq!(count_parameters("(a: u32, b: u32)"), 2);
    assert_eq!(count_parameters(""), 1);
    assert_eq!(count_parameters("a,,b"), 3);
}

#[test]
fn parameters_extracted() {
    assert_eq!(extract_params("(a: u32, b: u32)"), vec!["a: u32".to_string(), "b: u32".to_string()]);
    assert_eq!(extract_params("fib"), vec!["".to_string()]);
    assert_eq!(extract_params("  f(x))  "), vec!["x".to_string()]);
    assert_eq!(extract_params("f(a)(b)"), vec!["a".to_string()]);
}

#[test]
fn as_many_parameters_as_counted() {
    for sig in ["fn f(a: u32, b: u64)", "  g( x ,y,  z )) ", "h()", "fn k(a: Vec<u8>,)"] {
        let params = extract_params(sig);
        assert_eq!(params.len(), count_parameters(sig));
        for p in &params {
            assert_eq!(p.trim(), p);
        }
    }
    // A comma before the parenthesis is counted but not extracted.
    assert_eq!(count_parameters("a, f(b)"), 2);
    assert_eq!(extract_params("a, f(b)").len(), 1);
}

#[test]
fn interaction_code_single_parameter() {
    let code = generate_interaction_code("fib", &vec!["n".to_string()]);
    assert_eq!(
        code,
        "pub fn main() {{\n        let (prove_fib, verify_fib) = guest::build_fib();\n\n        let (n) = (n_param);\n        let (output, proof) = Commands::ProveJolt((n_param));\n        let is_valid = verify_fib(proof);\n\n        println!(\"output: {{}}\", output);\n        println!(\"valid: {{}}\", is_valid);\n    }}"
    );
}

#[test]
fn interaction_code_two_parameters() {
    let code = generate_interaction_code("add", &vec!["a".to_string(), "b".to_string()]);
    assert!(code.contains("let (a, b) = (a_param, b_param);"));
    assert!(code.contains("let (output, proof) = Commands::ProveJolt((a_param, b_param));"));
    assert!(code.contains("guest::build_add();"));
}

#[test]
fn menu_of_functions() {
    let menu = function_menu("fib(n: u32)\n\n  add(a, b)  \r\n   \n");
    assert_eq!(menu, vec!["fib(n: u32)".to_string(), "add(a, b)".to_string()]);
    assert_eq!(function_menu(""), Vec::<String>::new());
}

#[test]
fn choosing_from_menu() {
    let menu = vec!["fib(n: u32)".to_string(), "add(a, b)".to_string()];
    assert_eq!(pick_function(&menu, " 2\n"), Ok("add(a, b)".to_string()));
    assert_eq!(pick_function(&menu, "+1"), Ok("fib(n: u32)".to_string()));
    assert_eq!(pick_function(&menu, "0"), Err(ChoiceError::InvalidChoice));
    assert_eq!(pick_function(&menu, "3"), Err(ChoiceError::InvalidChoice));
    assert_eq!(pick_function(&menu, "x"), Err(ChoiceError::NotANumber));
    assert_eq!(pick_function(&menu, ""), Err(ChoiceError::NotANumber));
    assert_eq!(pick_function(&menu, "-1"), Err(ChoiceError::NotANumber));
    assert_eq!(pick_function(&menu, "99999999999999999999999"), Err(ChoiceError::NotANumber));
}

#[test]
fn parse_matches_std() {
    for s in ["0", "7", "+42", "007", "", "+", "-3", "1a", "18446744073709551615", "18446744073709551616"] {
        let cs: Vec<char> = s.chars().collect();
        assert_eq!(parse_usize(&cs), s.parse::<usize>().ok(), "input {:?}", s);
    }
}

#[test]
fn decimal_text_parses_back() {
    for n in [0usize, 9, 10, 1234, usize::MAX] {
        let cs: Vec<char> = n.to_string().chars().collect();
        assert_eq!(parse_usize(&cs), Some(n));
    }
}

#[test]
fn chosen_function_split() {
    let (name, sig) = split_chosen_function("fib (n: u32,  m: u64)");
    assert_eq!(name, "fib");
    assert_eq!(sig, "(n: u32, m: u64)");
    let (name, sig) = split_chosen_function("  solo ");
    assert_eq!(name, "solo");
    assert_eq!(sig, "");
}

use wasi_code_executor::interpreter::{
    can_simulate, detect_language, evaluate_host_function, evaluate_host_function_at,
    interpreter_command, interpreter_language, interpreter_output, parse_args,
    parse_function_call, simulate_javascript, simulate_python, simulate_ruby,
};
use wasi_code_executor::types::Language;

fn strings(v: &[&str]) -> Vec<String> {
    v.iter().map(|s| s.to_string()).collect()
}

#[test]
fn simulated_python_prints_quoted_text() {
    assert_eq!(simulate_python("print('Hello from Python!')"), "Hello from Python!\n");
    assert_eq!(simulate_python("  print(\"double\")  \nx = 1\nprint('b')"), "double\nb\n");
}

#[test]
fn simulated_ruby_prints_quoted_text() {
    assert_eq!(simulate_ruby("puts 'Hello from Ruby!'"), "Hello from Ruby!\n");
}

#[test]
fn simulated_javascript_needs_the_closing_parenthesis_last() {
    assert_eq!(simulate_javascript("console.log(`tpl`)"), "tpl\n");
    assert_eq!(
        simulate_javascript("console.log('Hello from JavaScript!');"),
        "Code executed successfully in WASI sandbox (JavaScript)\n"
    );
}

#[test]
fn simulated_programs_that_print_nothing_report_success() {
    assert_eq!(simulate_python("x = 1"), "Code executed successfully in WASI sandbox (Python)\n");
    assert_eq!(simulate_ruby(""), "Code executed successfully in WASI sandbox (Ruby)\n");
}

#[test]
fn simulated_prints_evaluate_host_calls() {
    assert_eq!(simulate_python("print(add(2, 3))"), "5\n");
    assert_eq!(simulate_python("print(fibonacci(10))\nprint(is_prime(17))"), "55\ntrue\n");
    assert_eq!(simulate_ruby("puts multiply(6, 7)"), "42\n");
    assert_eq!(simulate_python("print(foo(1, 'a'))"), "foo(1, a)\n");
    assert_eq!(simulate_python("print(x)"), "x\n");
}

#[test]
fn cross_language_call_lines_name_their_calls() {
    let out = simulate_python(
        "print('fib(10) =', fibonacci(10))\nprint('2 + 3 =', add(2, 3))\nprint('is_prime(17) =', is_prime(17))",
    );
    assert!(out.contains("fib(10)"));
    assert!(out.contains("2 + 3"));
    assert!(out.contains("is_prime(17)"));
}

#[test]
fn host_functions_evaluate_their_integer_arguments() {
    assert_eq!(evaluate_host_function_at("add", &strings(&["2", "3"]), 0), "5");
    assert_eq!(evaluate_host_function_at("add", &strings(&["x", "2", "+3"]), 0), "5");
    assert_eq!(evaluate_host_function_at("multiply", &strings(&["-4", "5"]), 0), "-20");
    assert_eq!(evaluate_host_function_at("fibonacci", &strings(&["0"]), 0), "0");
    assert_eq!(evaluate_host_function_at("fibonacci", &strings(&["91"]), 0), "4660046610375530309");
    assert_eq!(evaluate_host_function_at("is_prime", &strings(&["1"]), 0), "false");
    assert_eq!(evaluate_host_function_at("is_prime", &strings(&["97"]), 0), "true");
    assert_eq!(evaluate_host_function_at("is_prime", &strings(&["91"]), 0), "false");
    assert_eq!(evaluate_host_function_at("add", &strings(&["1"]), 0), "add(1)");
    assert_eq!(evaluate_host_function_at("other", &strings(&["a", "b"]), 0), "other(a, b)");
}

#[test]
fn clock_driven_host_functions_use_the_reading() {
    assert_eq!(
        evaluate_host_function_at("get_timestamp", &[], 1_700_000_000_123_456_789),
        "1700000000123"
    );
    assert_eq!(evaluate_host_function_at("random_int", &strings(&["1", "6"]), 100), "5");
    assert_eq!(evaluate_host_function_at("random_int", &strings(&["1", "6"]), 6), "1");
    let now = evaluate_host_function("get_timestamp", &[]);
    assert!(now.parse::<u128>().unwrap() > 1_600_000_000_000);
    let r: i64 = evaluate_host_function("random_int", &strings(&["3", "4"])).parse().unwrap();
    assert!(r == 3 || r == 4);
}

#[test]
fn argument_lists_split_at_top_level_commas() {
    assert_eq!(
        parse_args("1, 'a, b', [2, 3], (x, y)"),
        strings(&["1", "a, b", "[2, 3]", "(x, y)"])
    );
    assert_eq!(parse_args("  "), Vec::<String>::new());
    assert_eq!(parse_args("a,,b"), strings(&["a", "", "b"]));
}

#[test]
fn calls_are_recognised_by_their_parentheses() {
    assert_eq!(
        parse_function_call("  add(2, 3)  "),
        Some(("add".to_string(), strings(&["2", "3"])))
    );
    assert_eq!(parse_function_call("f()"), Some(("f".to_string(), vec![])));
    assert_eq!(parse_function_call("add"), None);
    assert_eq!(parse_function_call("f(x"), None);
}

#[test]
fn language_detection_counts_patterns() {
    assert_eq!(detect_language("console.log('x'); const y = 1;"), Language::JavaScript);
    assert_eq!(detect_language("def f():\n    import os\n    print(1)"), Language::Python);
    assert_eq!(detect_language("require 'x'\n[1].each do |i|\nend\n"), Language::Ruby);
}

#[test]
fn interpreter_choice_follows_the_first_telltale() {
    assert_eq!(interpreter_language("puts 'hi'"), Language::Ruby);
    assert_eq!(interpreter_language("x => x"), Language::JavaScript);
    assert_eq!(interpreter_language("import os"), Language::Python);
    assert_eq!(interpreter_language("foo\nend"), Language::Ruby);
    assert_eq!(interpreter_command(Language::Python), ("python", "-c"));
    assert_eq!(interpreter_command(Language::JavaScript), ("node", "-e"));
    assert_eq!(interpreter_command(Language::Ruby), ("ruby", "-e"));
}

#[test]
fn interpreter_output_shows_stderr_after_stdout() {
    let code = "print('a')";
    assert_eq!(
        interpreter_output(Language::Python, code, Some(("out\n".to_string(), "err\n".to_string()))),
        "out\nerr\n"
    );
    assert_eq!(
        interpreter_output(Language::Python, code, Some(("out\n".to_string(), String::new()))),
        "out\n"
    );
    assert_eq!(
        interpreter_output(Language::Python, code, None),
        "[Python execution simulated]\na\n"
    );
}

#[test]
fn simulation_refuses_what_would_panic() {
    assert!(can_simulate(Language::Python, "print('ok')"));
    assert!(!can_simulate(Language::Python, "print(\")"));
    assert!(!can_simulate(Language::Ruby, "puts '"));
    assert!(!can_simulate(Language::Python, "print(add(9223372036854775807, 1))"));
    assert!(!can_simulate(Language::Python, "print(fibonacci(92))"));
    assert!(!can_simulate(Language::Python, "print(random_int(5, 4))"));
    assert!(can_simulate(Language::Python, "print(random_int(1, 6))"));
}

#[test]
fn split_arguments_are_trimmed() {
    for a in parse_args("  a ,  'b c' , (d, e)  ,f(g, [h, i]) ") {
        assert_eq!(a, a.trim());
    }
}

#[test]
fn random_int_stays_in_its_range() {
    for t in [0u128, 1, 5, 6, 7, 1_000_000_007, u128::MAX, 1 << 63] {
        let v: i64 = evaluate_host_function_at("random_int", &strings(&["-3", "4"]), t).parse().unwrap();
        assert!((-3..=4).contains(&v));
    }
}

#[test]
fn programs_without_prints_are_quiet() {
    assert_eq!(simulate_ruby("x = 1\ny = 2\n"), "Code executed successfully in WASI sandbox (Ruby)\n");
    assert_eq!(simulate_python("print('a')\nx = 1\nprint('b')"), "a\nb\n");
}

use wasi_code_executor::host_functions::{
    builtin_call_defined, call_builtin, call_builtin_at, BuiltinHostFn, HostFunctionRegistry,
    HostImplementation, HostValue, ValKind,
};
use wasi_code_executor::types::Language;
use HostValue::{I32, I64};

#[test]
fn builtins_compute_their_results() {
    assert_eq!(call_builtin_at(BuiltinHostFn::Add, &[I32(2), I32(3)], 0), vec![I32(5)]);
    assert_eq!(call_builtin_at(BuiltinHostFn::Multiply, &[I32(-6), I32(7)], 0), vec![I32(-42)]);
    assert_eq!(call_builtin_at(BuiltinHostFn::StringLength, &[I32(0), I32(7)], 0), vec![I32(7)]);
    assert_eq!(call_builtin_at(BuiltinHostFn::Fibonacci, &[I32(10)], 0), vec![I64(55)]);
    assert_eq!(call_builtin_at(BuiltinHostFn::Fibonacci, &[I32(-3)], 0), vec![I64(0)]);
    assert_eq!(call_builtin_at(BuiltinHostFn::IsPrime, &[I32(17)], 0), vec![I32(1)]);
    assert_eq!(call_builtin_at(BuiltinHostFn::IsPrime, &[I32(1)], 0), vec![I32(0)]);
    assert_eq!(call_builtin_at(BuiltinHostFn::IsPrime, &[I32(49)], 0), vec![I32(0)]);
    assert_eq!(call_builtin_at(BuiltinHostFn::ToUppercase, &[I32(1), I32(2), I32(3)], 0), vec![I32(0)]);
    assert_eq!(call_builtin_at(BuiltinHostFn::GetTimestamp, &[], 5_000_000), vec![I64(5)]);
    assert_eq!(call_builtin_at(BuiltinHostFn::RandomInt, &[I32(1), I32(6)], 100), vec![I32(5)]);
    match call_builtin(BuiltinHostFn::RandomInt, &[I32(10), I32(12)]).as_slice() {
        [I32(v)] => assert!(10 <= *v && *v <= 12),
        _ => panic!("one i32 expected"),
    }
}

#[test]
fn builtin_calls_that_would_panic_are_refused() {
    assert!(builtin_call_defined(BuiltinHostFn::Add, &[I32(1), I32(2)]));
    assert!(!builtin_call_defined(BuiltinHostFn::Add, &[I32(i32::MAX), I32(1)]));
    assert!(!builtin_call_defined(BuiltinHostFn::Add, &[I32(1)]));
    assert!(!builtin_call_defined(BuiltinHostFn::Add, &[I64(1), I32(1)]));
    assert!(!builtin_call_defined(BuiltinHostFn::Fibonacci, &[I32(93)]));
    assert!(!builtin_call_defined(BuiltinHostFn::RandomInt, &[I32(5), I32(4)]));
    assert!(builtin_call_defined(BuiltinHostFn::RandomInt, &[I32(0), I32(-5)]));
}

#[test]
fn registry_lists_the_builtins() {
    let r = HostFunctionRegistry::new();
    assert_eq!(r.len(), 8);
    let names = r.get_import_names();
    assert_eq!(
        names,
        vec!["add", "multiply", "string_length", "fibonacci", "is_prime", "to_uppercase", "get_timestamp", "random_int"]
    );
    let listed = r.get_available_functions();
    assert_eq!(listed[0], "add: Add two integers");
    assert_eq!(listed[7], "random_int: Generate random integer between min and max (inclusive)");
}

#[test]
fn callable_exports_define_stubs_per_language() {
    let r = HostFunctionRegistry::new();
    assert_eq!(
        r.get_callable_exports(Language::Python)[0],
        "def add(*args):\n    return __host_call__('add', *args)"
    );
    assert_eq!(
        r.get_callable_exports(Language::JavaScript)[1],
        "function multiply(...args) { return __host_call__('multiply', ...args); }"
    );
    assert_eq!(
        r.get_callable_exports(Language::Ruby)[3],
        "def fibonacci(*args)\n  __host_call__('fibonacci', *args)\nend"
    );
}

#[test]
fn registering_a_taken_name_replaces_the_function() {
    let mut r = HostFunctionRegistry::new();
    r.register("add", vec![ValKind::I64], vec![ValKind::I64], "Add wide", HostImplementation::External(7));
    assert_eq!(r.len(), 8);
    let info = r.lookup("add").unwrap();
    assert_eq!(info.description, "Add wide");
    assert_eq!(info.implementation, HostImplementation::External(7));
    r.register("square", vec![ValKind::I32], vec![ValKind::I32], "Square", HostImplementation::External(8));
    assert_eq!(r.len(), 9);
    assert_eq!(r.get_import_names()[8], "square");
    assert!(r.lookup("cube").is_none());
}

#[test]
fn random_int_draws_within_its_bounds() {
    for t in [0u128, 3, 99, 1_000_000_000_000, u128::MAX] {
        match call_builtin_at(BuiltinHostFn::RandomInt, &[I32(-5), I32(5)], t).as_slice() {
            [I32(v)] => assert!(-5 <= *v && *v <= 5),
            _ => panic!("one i32 expected"),
        }
    }
}

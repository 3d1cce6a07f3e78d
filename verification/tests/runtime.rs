use std::time::Duration;
use uuid::Uuid;
use wasi_code_executor::cache::{CacheKey, ExecutionCache};
use wasi_code_executor::host_functions::HostFunctionRegistry;
use wasi_code_executor::interpreter::{can_simulate, interpreter_output};
use wasi_code_executor::runtime::{
    build_response, effective_timeout, execution_time_ms, lookup_cached_run,
    lookup_cached_run_with_id, plan_run, preload_languages, script_file_name, store_run,
    warmup_stats, wrap_code_with_host_functions, CacheLookup,
    WarmupState, JAVASCRIPT_HOST_PRELUDE, PYTHON_HOST_PRELUDE, RUBY_HOST_PRELUDE,
};
use wasi_code_executor::sandbox::SandboxConfig;
use wasi_code_executor::types::{Language, SandboxLimits};

#[test]
fn wrapped_python_code_holds_prelude_stubs_and_code() {
    let registry = HostFunctionRegistry::new();
    let code = "print(add(2, 3))";
    let wrapped = wrap_code_with_host_functions(&registry, Language::Python, code);
    assert!(wrapped.starts_with(PYTHON_HOST_PRELUDE));
    assert!(wrapped.ends_with("\nprint(add(2, 3))\n"));
    assert!(wrapped.contains("def add(*args):\n    return __host_call__('add', *args)"));
    assert!(wrapped.contains("def random_int(*args):\n    return __host_call__('random_int', *args)"));
}

#[test]
fn wrapped_javascript_and_ruby_code_use_their_own_stubs() {
    let registry = HostFunctionRegistry::new();
    let js = wrap_code_with_host_functions(&registry, Language::JavaScript, "console.log(1);");
    assert!(js.starts_with(JAVASCRIPT_HOST_PRELUDE));
    assert!(js.contains("function fibonacci(...args) { return __host_call__('fibonacci', ...args); }"));
    assert!(js.ends_with("\nconsole.log(1);\n"));
    let rb = wrap_code_with_host_functions(&registry, Language::Ruby, "puts 1");
    assert!(rb.starts_with(RUBY_HOST_PRELUDE));
    assert!(rb.contains("def is_prime(*args)\n  __host_call__('is_prime', *args)\nend"));
    assert!(rb.ends_with("\nputs 1\n"));
}

#[test]
fn script_files_are_named_by_language() {
    assert_eq!(script_file_name(Language::Python), "script.py");
    assert_eq!(script_file_name(Language::JavaScript), "script.js");
    assert_eq!(script_file_name(Language::Ruby), "script.rb");
}

#[test]
fn timeout_defaults_to_the_sandbox_limit() {
    let config = SandboxConfig::new(SandboxLimits::default()).unwrap();
    assert_eq!(effective_timeout(&config, Some(1234)), 1234);
    assert_eq!(effective_timeout(&config, None), 5000);
}

#[test]
fn execution_time_is_in_whole_milliseconds() {
    assert_eq!(execution_time_ms(0), 0);
    assert_eq!(execution_time_ms(999_999), 0);
    assert_eq!(execution_time_ms(2_500_000), 2);
    assert_eq!(execution_time_ms(7_000_000_000), 7000);
}

#[test]
fn responses_report_success_and_error() {
    let id = Uuid::new_v4();
    let ok = build_response(id, Ok(()), "out".to_string(), String::new(), 12);
    assert_eq!(ok.execution_id, id);
    assert!(ok.success);
    assert_eq!(ok.stdout, "out");
    assert_eq!(ok.error, None);
    assert!(!ok.cached);
    let failed = build_response(id, Err("boom".to_string()), String::new(), "err".to_string(), 3);
    assert!(!failed.success);
    assert_eq!(failed.stderr, "err");
    assert_eq!(failed.execution_time_ms, 3);
    assert_eq!(failed.error.as_deref(), Some("boom"));
}

#[test]
fn a_successful_run_is_answered_from_the_cache_next_time() {
    let mut cache = ExecutionCache::new();
    let first_id = Uuid::new_v4();
    let key = match lookup_cached_run_with_id(&mut cache, Language::Python, "print(1)", Some(5000), first_id) {
        CacheLookup::Miss(key) => key,
        CacheLookup::Hit(_) => panic!("empty cache answered"),
    };
    assert_eq!(key, CacheKey::new(Language::Python, "print(1)", Some(5000)));
    let response = build_response(first_id, Ok(()), "1\n".to_string(), String::new(), 4);
    let stored = store_run(&mut cache, &key, response);
    assert_eq!(stored.execution_id, first_id);
    assert_eq!(cache.len(), 1);
    let second_id = Uuid::new_v4();
    match lookup_cached_run_with_id(&mut cache, Language::Python, "print(1)", Some(5000), second_id) {
        CacheLookup::Hit(r) => {
            assert_eq!(r.execution_id, second_id);
            assert!(r.cached);
            assert_eq!(r.stdout, "1\n");
            assert_eq!(r.execution_time_ms, 4);
        }
        CacheLookup::Miss(_) => panic!("stored run not found"),
    }
    let stats = cache.stats();
    assert_eq!(stats.hits, 1);
    assert_eq!(stats.misses, 1);
}

#[test]
fn a_failed_run_is_not_cached() {
    let mut cache = ExecutionCache::new();
    let key = CacheKey::new(Language::Ruby, "raise 'x'", None);
    let response = build_response(Uuid::new_v4(), Err("x".to_string()), String::new(), String::new(), 1);
    let _ = store_run(&mut cache, &key, response);
    assert!(cache.is_empty());
    match lookup_cached_run(&mut cache, Language::Ruby, "raise 'x'", None) {
        CacheLookup::Miss(k) => assert_eq!(k, key),
        CacheLookup::Hit(_) => panic!("failed run was cached"),
    }
}

#[test]
fn warmup_reports_what_was_loaded() {
    assert_eq!(preload_languages(), vec![Language::Python, Language::JavaScript, Language::Ruby]);
    let sizes = vec![(Language::Python, 10), (Language::Ruby, 30)];
    let stats = warmup_stats(sizes.clone(), Duration::from_millis(25));
    assert_eq!(stats.modules_loaded, 2);
    assert_eq!(stats.warmup_duration, Duration::from_millis(25));
    assert_eq!(stats.preloaded_languages, vec![Language::Python, Language::Ruby]);
    assert_eq!(stats.module_sizes, sizes);

    let mut state = WarmupState::new();
    assert!(!state.is_prewarmed());
    assert!(state.get_warmup_stats().is_none());
    state.complete(stats);
    assert!(state.is_prewarmed());
    let again = state.get_warmup_stats().unwrap();
    assert_eq!(again.modules_loaded, 2);
    assert_eq!(again.preloaded_languages, vec![Language::Python, Language::Ruby]);
}

#[test]
fn a_cache_hit_gets_a_fresh_id() {
    let mut cache = ExecutionCache::new();
    let key = CacheKey::new(Language::Python, "print(2)", None);
    let first = Uuid::new_v4();
    let _ = store_run(&mut cache, &key, build_response(first, Ok(()), "2\n".to_string(), String::new(), 1));
    match lookup_cached_run(&mut cache, Language::Python, "print(2)", None) {
        CacheLookup::Hit(r) => {
            assert_ne!(r.execution_id, first);
            assert!(r.cached);
            assert_eq!(r.stdout, "2\n");
        }
        CacheLookup::Miss(_) => panic!("stored run not found"),
    }
}

#[test]
fn a_run_is_planned_from_the_request_and_the_sandbox() {
    let registry = HostFunctionRegistry::new();
    let config = SandboxConfig::new(SandboxLimits::default()).unwrap();
    let a = plan_run(&registry, &config, Language::Ruby, "puts 1", None);
    assert_eq!(a.timeout_ms, 5000);
    assert_eq!(a.script_file, "script.rb");
    assert_eq!(a.program, wrap_code_with_host_functions(&registry, Language::Ruby, "puts 1"));
    let b = plan_run(&registry, &config, Language::Ruby, "puts 1", Some(10));
    assert_eq!(b.timeout_ms, 10);
    assert_ne!(a.execution_id, b.execution_id);
}

#[test]
fn a_run_uses_the_interpreter_of_its_language() {
    let registry = HostFunctionRegistry::new();
    let config = SandboxConfig::new(SandboxLimits::default()).unwrap();
    let cases = [
        (Language::Python, "print('Hello from Python!')", "python", "-c", "Hello from Python!"),
        (Language::JavaScript, "console.log(`Hello from JavaScript!`)", "node", "-e", "Hello from JavaScript!"),
        (Language::Ruby, "puts 'Hello from Ruby!'", "ruby", "-e", "Hello from Ruby!"),
    ];
    for (language, code, program, flag, greeting) in cases {
        let plan = plan_run(&registry, &config, language, code, Some(3000));
        assert_eq!((plan.interpreter, plan.interpreter_flag), (program, flag));
        assert!(can_simulate(language, &plan.program));
        let simulated = interpreter_output(language, &plan.program, None);
        assert!(simulated.contains(greeting), "{}", simulated);
        let native = interpreter_output(language, &plan.program, Some((format!("{}\n", greeting), String::new())));
        assert_eq!(native, format!("{}\n", greeting));
    }
}

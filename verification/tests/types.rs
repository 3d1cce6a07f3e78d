use wasi_code_executor::types::{Language, SandboxLimits};

#[test]
fn language_names_read_in_any_case() {
    assert_eq!(Language::from_str("python"), Some(Language::Python));
    assert_eq!(Language::from_str("PY"), Some(Language::Python));
    assert_eq!(Language::from_str("Js"), Some(Language::JavaScript));
    assert_eq!(Language::from_str("JavaScript"), Some(Language::JavaScript));
    assert_eq!(Language::from_str("RB"), Some(Language::Ruby));
    assert_eq!(Language::from_str("ruby"), Some(Language::Ruby));
    assert_eq!(Language::from_str("go"), None);
    assert_eq!(Language::from_str(""), None);
}

#[test]
fn language_names_round_trip() {
    for l in [Language::Python, Language::JavaScript, Language::Ruby] {
        assert_eq!(Language::from_str(l.as_str()), Some(l));
    }
    assert_eq!(Language::Python.as_str(), "python");
    assert_eq!(Language::JavaScript.as_str(), "javascript");
    assert_eq!(Language::Ruby.as_str(), "ruby");
}

#[test]
fn wasm_modules_are_named_by_language() {
    assert_eq!(Language::Python.wasm_module_name(), "python-wasi");
    assert_eq!(Language::JavaScript.wasm_module_name(), "quickjs-wasi");
    assert_eq!(Language::Ruby.wasm_module_name(), "ruby-wasi");
}

#[test]
fn default_limits() {
    let l = SandboxLimits::default();
    assert_eq!(l.max_memory_pages, 256);
    assert_eq!(l.max_execution_time_ms, 5000);
    assert!(!l.allow_network);
    assert!(l.allowed_domains.is_empty());
    assert!(!l.allow_file_write);
    assert_eq!(l.sandbox_dir, "./sandbox");
    let c = l.clone();
    assert_eq!(c.sandbox_dir, "./sandbox");
}

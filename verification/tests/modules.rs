use wasi_code_executor::modules::ModuleTable;
use wasi_code_executor::types::Language;
use wasmtime::Engine;

fn table(python: &str, javascript: &str, ruby: &str) -> ModuleTable {
    ModuleTable::new(Engine::default(), python.to_string(), javascript.to_string(), ruby.to_string())
}

#[test]
fn modules_load_once_and_are_kept_with_their_size() {
    let mut t = table("(module)", "(module (func))", "(module (memory 1))");
    assert!(!t.is_preloaded(Language::Python));
    assert_eq!(t.get_module_size(Language::Python), None);
    assert!(t.get_or_load(Language::Python).is_ok());
    assert!(t.is_preloaded(Language::Python));
    assert!(!t.is_preloaded(Language::Ruby));
    let size = t.get_module_size(Language::Python);
    assert!(size.is_some());
    assert!(t.get_or_load(Language::Python).is_ok());
    assert_eq!(t.get_module_size(Language::Python), size);
}

#[test]
fn preloading_loads_every_language_in_order() {
    let mut t = table("(module)", "(module (func))", "(module (memory 1))");
    let sizes = t.preload_all().unwrap();
    let languages: Vec<Language> = sizes.iter().map(|(l, _)| *l).collect();
    assert_eq!(languages, vec![Language::Python, Language::JavaScript, Language::Ruby]);
    for l in [Language::Python, Language::JavaScript, Language::Ruby] {
        assert!(t.is_preloaded(l));
    }
    assert_eq!(t.preload_all().unwrap().len(), 3);
    for (l, size) in sizes {
        assert_eq!(t.get_module_size(l), Some(size));
    }
}

#[test]
fn a_module_that_does_not_compile_is_not_kept() {
    let mut t = table("(module)", "(this is not wat", "(module)");
    assert!(t.get_or_load(Language::JavaScript).is_err());
    assert!(!t.is_preloaded(Language::JavaScript));
    assert!(t.preload_all().is_err());
    assert!(t.is_preloaded(Language::Python));
    assert!(!t.is_preloaded(Language::Ruby));
}

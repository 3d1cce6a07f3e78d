//! The compiled language modules: each language's stub module is compiled
//! once, on first use, and kept with its serialised size.
use vstd::prelude::*;
use wasmtime::{Engine, Module};
use crate::runtime::preload_order;
use crate::types::Language;

verus! {

#[verifier::external_type_specification]
#[verifier::external_body]
pub struct ExEngine(Engine);

#[verifier::external_type_specification]
#[verifier::external_body]
pub struct ExModule(Module);

/// `wasmtime::Module::new`: compiles the module text `wat` with `engine`,
/// or gives the error's message.  Whether it succeeds depends on the text
/// and on the engine's configuration; nothing is stated of it.
#[verifier::external_body]
fn compile_module(engine: &Engine, wat: &str) -> Result<Module, String> {
    match Module::new(engine, wat) {
        Ok(m) => Ok(m),
        Err(e) => Err(e.to_string()),
    }
}

/// `wasmtime::Module::serialize`, by its length: the size in bytes of the
/// serialised module, or nothing when it cannot be serialised.  The size
/// depends on the compiler; nothing is stated of it.
#[verifier::external_body]
fn serialized_len(m: &Module) -> Option<usize> {
    match m.serialize() {
        Ok(bytes) => Some(bytes.len()),
        Err(_) => None,
    }
}

/// The size kept for a module: its serialised size, or zero when it could
/// not be serialised.
pub open spec fn size_or_zero(serialized: Option<usize>) -> usize {
    match serialized {
        Some(n) => n,
        None => 0,
    }
}

/// `Module::clone`: another handle on the same compiled module.
#[verifier::external_body]
fn clone_module(m: &Module) -> (r: Module)
    ensures
        r == *m,
{
    m.clone()
}

/// A loaded module: its language, the module and its serialised size.
struct LoadedModule {
    language: Language,
    module: Module,
    size: usize,
}

/// The modules loaded so far, by language, with the stub module text of
/// each language.
pub struct ModuleTable {
    engine: Engine,
    python_wat: String,
    javascript_wat: String,
    ruby_wat: String,
    loaded: Vec<LoadedModule>,
}

/// The languages of `v`, in load order.
spec fn languages_of(v: Seq<LoadedModule>) -> Seq<Language> {
    v.map_values(|e: LoadedModule| e.language)
}

impl ModuleTable {
    #[verifier::type_invariant]
    spec fn each_language_once(self) -> bool {
        languages_of(self.loaded@).no_duplicates()
    }

    /// The modules loaded, by language.
    pub closed spec fn modules(&self) -> Map<Language, Module> {
        Map::new(
            |l: Language| languages_of(self.loaded@).contains(l),
            |l: Language| self.loaded@[languages_of(self.loaded@).index_of(l)].module,
        )
    }

    /// The serialised sizes of the modules loaded, by language.
    pub closed spec fn sizes(&self) -> Map<Language, usize> {
        Map::new(
            |l: Language| languages_of(self.loaded@).contains(l),
            |l: Language| self.loaded@[languages_of(self.loaded@).index_of(l)].size,
        )
    }

    /// The stub module text of `l`.
    pub closed spec fn stub_text(&self, l: Language) -> Seq<char> {
        match l {
            Language::Python => self.python_wat@,
            Language::JavaScript => self.javascript_wat@,
            Language::Ruby => self.ruby_wat@,
        }
    }

    /// A table with nothing loaded, compiling with `engine` the stub module
    /// texts given for each language.
    pub fn new(engine: Engine, python_wat: String, javascript_wat: String, ruby_wat: String) -> (t: Self)
        ensures
            t.modules() == Map::<Language, Module>::empty(),
            t.sizes() == Map::<Language, usize>::empty(),
            t.stub_text(Language::Python) == python_wat@,
            t.stub_text(Language::JavaScript) == javascript_wat@,
            t.stub_text(Language::Ruby) == ruby_wat@,
    {
        let t = ModuleTable { engine, python_wat, javascript_wat, ruby_wat, loaded: Vec::new() };
        assert(t.modules() =~= Map::<Language, Module>::empty());
        assert(t.sizes() =~= Map::<Language, usize>::empty());
        t
    }

    fn position(&self, language: Language) -> (r: Option<usize>)
        ensures
            match r {
                Some(i) => i < self.loaded@.len() && languages_of(self.loaded@).index_of(language) == i
                    && languages_of(self.loaded@).contains(language),
                None => !languages_of(self.loaded@).contains(language),
            },
    {
        proof {
            use_type_invariant(self);
        }
        let ghost ls = languages_of(self.loaded@);
        let mut i: usize = 0;
        while i < self.loaded.len()
            invariant
                i <= self.loaded@.len(),
                ls == languages_of(self.loaded@),
                ls.no_duplicates(),
                forall|j: int| 0 <= j < i ==> ls[j] != language,
            decreases self.loaded.len() - i,
        {
            if self.loaded[i].language == language {
                assert(ls[i as int] == language);
                proof {
                    ls.index_of_first_ensures(language);
                    assert(ls.index_of(language) == i) by {
                        let k = ls.index_of(language);
                        assert(ls[k] == language);
                        assert(k == i as int);
                    }
                }
                return Some(i);
            }
            i = i + 1;
        }
        proof {
            if ls.contains(language) {
                let k = choose|k: int| 0 <= k < ls.len() && ls[k] == language;
                assert(ls[k] != language);
            }
        }
        None
    }

    /// Whether the module of `language` is loaded.
    pub fn is_preloaded(&self, language: Language) -> (b: bool)
        ensures
            b == self.modules().contains_key(language),
    {
        self.position(language).is_some()
    }

    /// The serialised size of the module of `language`, if it is loaded.
    pub fn get_module_size(&self, language: Language) -> (r: Option<usize>)
        ensures
            r == (if self.sizes().contains_key(language) {
                Some(self.sizes()[language])
            } else {
                None
            }),
    {
        match self.position(language) {
            Some(i) => Some(self.loaded[i].size),
            None => None,
        }
    }

    /// The stub module text of `language`.
    pub fn stub_of(&self, language: Language) -> (s: &str)
        ensures
            s@ == self.stub_text(language),
    {
        match language {
            Language::Python => self.python_wat.as_str(),
            Language::JavaScript => self.javascript_wat.as_str(),
            Language::Ruby => self.ruby_wat.as_str(),
        }
    }

    /// Records the outcome of compiling the module of `language`, which is
    /// not loaded: a compiled module is kept with the size `serialized`
    /// gives (zero if none) and returned; an error is returned as it came,
    /// and the table is left as it was.
    pub fn record_load(
        &mut self,
        language: Language,
        compiled: Result<Module, String>,
        serialized: Option<usize>,
    ) -> (r: Result<Module, String>)
        requires
            !old(self).modules().contains_key(language),
        ensures
            r == compiled,
            forall|l: Language| #[trigger] final(self).stub_text(l) == old(self).stub_text(l),
            match compiled {
                Ok(m) => {
                    &&& final(self).modules() == old(self).modules().insert(language, m)
                    &&& final(self).sizes() == old(self).sizes().insert(language, size_or_zero(serialized))
                },
                Err(_) => final(self).modules() == old(self).modules() && final(self).sizes()
                    == old(self).sizes(),
            },
    {
        proof {
            use_type_invariant(&*self);
        }
        match compiled {
            Ok(module) => {
                let size = match serialized {
                    Some(n) => n,
                    None => 0,
                };
                let kept = clone_module(&module);
                let ghost mods = self.modules();
                let ghost szs = self.sizes();
                let mut loaded: Vec<LoadedModule> = Vec::new();
                std::mem::swap(&mut loaded, &mut self.loaded);
                let ghost before = loaded@;
                loaded.push(LoadedModule { language, module: kept, size });
                proof {
                    let ls0 = languages_of(before);
                    let ls1 = languages_of(loaded@);
                    assert(ls1 =~= ls0.push(language));
                    assert(!ls0.contains(language));
                    assert(ls1.no_duplicates()) by {
                        assert forall|a: int, b: int| 0 <= a < ls1.len() && 0 <= b < ls1.len() && a != b implies ls1[a] != ls1[b] by {
                            if a < ls0.len() && b < ls0.len() {
                            } else if a < ls0.len() {
                                assert(ls0[a] == ls1[a]);
                            } else {
                                assert(ls0[b] == ls1[b]);
                            }
                        }
                    }
                }
                self.loaded = loaded;
                proof {
                    let ls0 = languages_of(before);
                    let ls1 = languages_of(self.loaded@);
                    assert forall|l: Language| #[trigger] ls1.contains(l) <==> ls0.contains(l) || l == language by {
                        if ls1.contains(l) && l != language {
                            let k = choose|k: int| 0 <= k < ls1.len() && ls1[k] == l;
                            assert(k < ls0.len());
                            assert(ls0[k] == l);
                        }
                        if ls0.contains(l) {
                            let k = choose|k: int| 0 <= k < ls0.len() && ls0[k] == l;
                            assert(ls1[k] == l);
                        }
                        if l == language {
                            assert(ls1[ls0.len() as int] == l);
                        }
                    }
                    assert forall|l: Language| #[trigger] ls0.contains(l) implies ls1.index_of(l) == ls0.index_of(l) by {
                        ls0.index_of_first_ensures(l);
                        let k = ls0.index_of(l);
                        ls1.index_of_first_ensures(l);
                        let k1 = ls1.index_of(l);
                        assert(ls1[k] == l);
                        if k1 < k {
                            assert(ls0[k1] == l);
                        }
                    }
                    ls1.index_of_first_ensures(language);
                    assert(ls1.index_of(language) == ls0.len()) by {
                        let k1 = ls1.index_of(language);
                        if k1 < ls0.len() {
                            assert(ls0[k1] == language);
                        }
                    }
                    assert(self.modules() =~= mods.insert(language, module));
                    assert(self.sizes() =~= szs.insert(language, size_or_zero(serialized)));
                }
                Ok(module)
            },
            Err(e) => Err(e),
        }
    }

    /// The module of `language`: the loaded one, or else the stub module
    /// text of the language compiled now and kept, with its size.  A
    /// module that does not compile is not kept, and its error is given.
    pub fn get_or_load(&mut self, language: Language) -> (r: Result<Module, String>)
        ensures
            old(self).modules().contains_key(language) ==> {
                &&& r == Ok::<Module, String>(old(self).modules()[language])
                &&& final(self).modules() == old(self).modules()
                &&& final(self).sizes() == old(self).sizes()
            },
            !old(self).modules().contains_key(language) ==> match r {
                Ok(m) => {
                    &&& final(self).modules() == old(self).modules().insert(language, m)
                    &&& final(self).sizes().dom() == old(self).sizes().dom().insert(language)
                    &&& final(self).sizes().remove(language) == old(self).sizes()
                },
                Err(_) => final(self).modules() == old(self).modules() && final(self).sizes()
                    == old(self).sizes(),
            },
            forall|l: Language| #[trigger] final(self).stub_text(l) == old(self).stub_text(l),
            forall|l: Language| old(self).sizes().contains_key(l) ==> #[trigger] final(self).sizes().contains_key(l)
                && final(self).sizes()[l] == old(self).sizes()[l],
            r is Ok ==> final(self).modules().contains_key(language) && final(self).sizes().contains_key(language),
    {
        match self.position(language) {
            Some(i) => {
                return Ok(clone_module(&self.loaded[i].module));
            },
            None => {},
        }
        let compiled = compile_module(&self.engine, self.stub_of(language));
        let serialized = match &compiled {
            Ok(m) => serialized_len(m),
            Err(_) => None,
        };
        let ghost szs = self.sizes();
        let r = self.record_load(language, compiled, serialized);
        proof {
            if r is Ok {
                assert(self.sizes().remove(language) =~= szs);
            }
        }
        r
    }

    /// Loads the module of every language, in preload order, and gives each
    /// language with the serialised size of its module; stops at the first
    /// module that does not compile.  It succeeds exactly when every language
    /// ends up loaded, so always when every language was loaded already, and
    /// the sizes it gives are the sizes kept in the table.
    pub fn preload_all(&mut self) -> (r: Result<Vec<(Language, usize)>, String>)
        ensures
            forall|l: Language| #[trigger] final(self).stub_text(l) == old(self).stub_text(l),
            forall|l: Language| old(self).modules().contains_key(l) ==> #[trigger] final(self).modules().contains_key(l)
                && final(self).modules()[l] == old(self).modules()[l],
            r is Ok ==> {
                &&& r->Ok_0@.map_values(|p: (Language, usize)| p.0) == preload_order()
                &&& forall|l: Language| #[trigger] final(self).modules().contains_key(l)
                &&& forall|i: int| 0 <= i < r->Ok_0@.len() ==> final(self).sizes().contains_key(#[trigger] r->Ok_0@[i].0)
                    && r->Ok_0@[i].1 == final(self).sizes()[r->Ok_0@[i].0]
            },
            r is Err ==> exists|l: Language| !#[trigger] final(self).modules().contains_key(l),
            (forall|l: Language| #[trigger] old(self).modules().contains_key(l)) ==> r is Ok,
    {
        let order = crate::runtime::preload_languages();
        let mut sizes: Vec<(Language, usize)> = Vec::new();
        let mut i: usize = 0;
        while i < order.len()
            invariant
                i <= order@.len(),
                order@ == preload_order(),
                sizes@.map_values(|p: (Language, usize)| p.0) == preload_order().take(i as int),
                forall|l: Language| #[trigger] self.stub_text(l) == old(self).stub_text(l),
                forall|l: Language| old(self).modules().contains_key(l) ==> #[trigger] self.modules().contains_key(l)
                    && self.modules()[l] == old(self).modules()[l],
                forall|j: int| 0 <= j < i ==> self.modules().contains_key(#[trigger] preload_order()[j]),
                forall|j: int| 0 <= j < sizes@.len() ==> self.sizes().contains_key(#[trigger] sizes@[j].0)
                    && sizes@[j].1 == self.sizes()[sizes@[j].0],
            decreases order.len() - i,
        {
            let lang = order[i];
            let ghost before = self.modules();
            let ghost before_sizes = self.sizes();
            let module = match self.get_or_load(lang) {
                Ok(m) => m,
                Err(e) => {
                    assert(self.modules() == before);
                    assert(!before.contains_key(lang));
                    assert(!self.modules().contains_key(lang));
                    assert(!old(self).modules().contains_key(lang));
                    assert forall|l: Language| old(self).modules().contains_key(l) implies #[trigger] self.modules().contains_key(l)
                        && self.modules()[l] == old(self).modules()[l] by {
                        assert(before.contains_key(l));
                    }
                    return Err(e);
                },
            };
            let size = match self.get_module_size(lang) {
                Some(n) => n,
                None => 0,
            };
            let ghost prev = sizes@;
            sizes.push((lang, size));
            assert forall|j: int| 0 <= j < sizes@.len() implies self.sizes().contains_key(#[trigger] sizes@[j].0)
                && sizes@[j].1 == self.sizes()[sizes@[j].0] by {
                if j < prev.len() {
                    assert(sizes@[j] == prev[j]);
                    assert(before_sizes.contains_key(prev[j].0));
                }
            }
            proof {
                assert(lang == preload_order()[i as int]);
                assert(preload_order().take(i + 1) =~= preload_order().take(i as int).push(lang));
                assert(sizes@.map_values(|p: (Language, usize)| p.0) =~= prev.map_values(|p: (Language, usize)| p.0).push(lang));
            }
            assert forall|l: Language| before.contains_key(l) implies #[trigger] self.modules().contains_key(l)
                && self.modules()[l] == before[l] by {
                if l == lang {
                } else {
                    if !before.contains_key(lang) {
                        assert(self.modules() == before.insert(lang, module));
                    }
                }
            }
            i = i + 1;
        }
        proof {
            assert(preload_order().take(3) =~= preload_order());
            assert forall|l: Language| #[trigger] self.modules().contains_key(l) by {
                match l {
                    Language::Python => assert(self.modules().contains_key(preload_order()[0])),
                    Language::JavaScript => assert(self.modules().contains_key(preload_order()[1])),
                    Language::Ruby => assert(self.modules().contains_key(preload_order()[2])),
                }
            }
        }
        Ok(sizes)
    }
}

} // verus!

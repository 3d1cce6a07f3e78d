use vstd::prelude::*;
use uuid::Uuid;

verus! {

/// A source language that the executor accepts.
#[derive(Debug, Clone, Copy, PartialEq, Eq, Hash, Structural)]
pub enum Language {
    Python,
    JavaScript,
    Ruby,
}

pub open spec fn language_name(l: Language) -> Seq<char> {
    match l {
        Language::Python => seq!['p', 'y', 't', 'h', 'o', 'n'],
        Language::JavaScript => seq!['j', 'a', 'v', 'a', 's', 'c', 'r', 'i', 'p', 't'],
        Language::Ruby => seq!['r', 'u', 'b', 'y'],
    }
}

impl Language {
    pub fn as_str(&self) -> (s: &'static str)
        ensures
            s@ == language_name(*self),
    {
        proof {
            reveal_strlit("python");
            reveal_strlit("javascript");
            reveal_strlit("ruby");
        }
        match self {
            Language::Python => "python",
            Language::JavaScript => "javascript",
            Language::Ruby => "ruby",
        }
    }
}

/// The language that a lower-cased name stands for.
pub open spec fn language_from_lowercase(t: Seq<char>) -> Option<Language> {
    if t == "python"@ || t == "py"@ {
        Some(Language::Python)
    } else if t == "javascript"@ || t == "js"@ {
        Some(Language::JavaScript)
    } else if t == "ruby"@ || t == "rb"@ {
        Some(Language::Ruby)
    } else {
        None
    }
}

/// What `str::to_lowercase` makes of a string (the Unicode lower-case
/// mapping).
pub uninterp spec fn unicode_lowercase(s: Seq<char>) -> Seq<char>;

pub open spec fn is_ascii_text(s: Seq<char>) -> bool {
    forall|i: int| 0 <= i < s.len() ==> (#[trigger] s[i] as u32) < 128
}

/// ASCII upper-case letters made lower-case, other characters kept.
pub open spec fn ascii_lowercase(s: Seq<char>) -> Seq<char> {
    s.map_values(|c: char| if 'A' <= c <= 'Z' { ((c as u32) + 32) as char } else { c })
}

/// `str::to_lowercase`.  Its result is named; on ASCII text it is the ASCII
/// lower-case mapping, as the Unicode tables give it.
#[verifier::external_body]
fn to_lowercase(s: &str) -> (r: String)
    ensures
        r@ == unicode_lowercase(s@),
        is_ascii_text(s@) ==> r@ == ascii_lowercase(s@),
{
    s.to_lowercase()
}

impl Language {
    /// Reads a language name, in any case: "python" or "py", "javascript"
    /// or "js", "ruby" or "rb".
    pub fn from_str(s: &str) -> (r: Option<Language>)
        ensures
            r == language_from_lowercase(unicode_lowercase(s@)),
            is_ascii_text(s@) ==> r == language_from_lowercase(ascii_lowercase(s@)),
    {
        let low = to_lowercase(s);
        let t = low.as_str();
        proof {
            reveal_strlit("python");
            reveal_strlit("py");
            reveal_strlit("javascript");
            reveal_strlit("js");
            reveal_strlit("ruby");
            reveal_strlit("rb");
        }
        let cs = crate::text::chars_of(t);
        if crate::text::chars_eq_str(cs.as_slice(), "python") || crate::text::chars_eq_str(
            cs.as_slice(),
            "py",
        ) {
            Some(Language::Python)
        } else if crate::text::chars_eq_str(cs.as_slice(), "javascript")
            || crate::text::chars_eq_str(cs.as_slice(), "js") {
            Some(Language::JavaScript)
        } else if crate::text::chars_eq_str(cs.as_slice(), "ruby") || crate::text::chars_eq_str(
            cs.as_slice(),
            "rb",
        ) {
            Some(Language::Ruby)
        } else {
            None
        }
    }

    /// The name of the Wasm module that hosts the language's interpreter.
    pub fn wasm_module_name(&self) -> (s: &'static str)
        ensures
            s@ == wasm_module_name_of(*self),
    {
        match self {
            Language::Python => "python-wasi",
            Language::JavaScript => "quickjs-wasi",
            Language::Ruby => "ruby-wasi",
        }
    }
}

pub open spec fn wasm_module_name_of(l: Language) -> Seq<char> {
    match l {
        Language::Python => "python-wasi"@,
        Language::JavaScript => "quickjs-wasi"@,
        Language::Ruby => "ruby-wasi"@,
    }
}

/// Each language's name reads back as that language.
pub proof fn lemma_language_name_round_trip(l: Language)
    ensures
        is_ascii_text(language_name(l)),
        language_from_lowercase(ascii_lowercase(language_name(l))) == Some(l),
{
    reveal_strlit("python");
    reveal_strlit("javascript");
    reveal_strlit("ruby");
    reveal_strlit("py");
    reveal_strlit("js");
    let n = language_name(l);
    assert(ascii_lowercase(n) =~= n);
    match l {
        Language::Python => {
            assert(n =~= "python"@);
        },
        Language::JavaScript => {
            assert(n =~= "javascript"@);
            assert(n != "python"@);
            assert(n != "py"@);
        },
        Language::Ruby => {
            assert(n =~= "ruby"@);
            assert(n != "python"@);
            assert(n != "py"@);
            assert(n != "javascript"@);
            assert(n != "js"@);
        },
    }
}

#[verifier::external_type_specification]
#[verifier::external_body]
pub struct ExUuid(Uuid);

/// A request to run code.
#[derive(Debug)]
pub struct ExecuteRequest {
    pub language: Language,
    pub code: String,
    pub timeout_ms: Option<u64>,
    pub use_cache: Option<bool>,
}

/// The outcome of running code.
#[derive(Debug)]
pub struct ExecuteResponse {
    pub execution_id: Uuid,
    pub success: bool,
    pub stdout: String,
    pub stderr: String,
    pub execution_time_ms: u64,
    pub error: Option<String>,
    pub cached: bool,
}

impl Clone for ExecuteResponse {
    fn clone(&self) -> (r: Self)
        ensures
            r == *self,
    {
        let error = match &self.error {
            Some(e) => Some(e.clone()),
            None => None,
        };
        ExecuteResponse {
            execution_id: self.execution_id,
            success: self.success,
            stdout: self.stdout.clone(),
            stderr: self.stderr.clone(),
            execution_time_ms: self.execution_time_ms,
            error,
            cached: self.cached,
        }
    }
}

/// The limits that a sandbox enforces.
#[derive(Debug)]
pub struct SandboxLimits {
    pub max_memory_pages: u32,
    pub max_execution_time_ms: u64,
    pub allow_network: bool,
    pub allowed_domains: Vec<String>,
    pub allow_file_write: bool,
    pub sandbox_dir: String,
}

impl Clone for SandboxLimits {
    fn clone(&self) -> (r: Self)
        ensures
            r.max_memory_pages == self.max_memory_pages,
            r.max_execution_time_ms == self.max_execution_time_ms,
            r.allow_network == self.allow_network,
            crate::text::string_views(r.allowed_domains@) == crate::text::string_views(
                self.allowed_domains@,
            ),
            r.allow_file_write == self.allow_file_write,
            r.sandbox_dir@ == self.sandbox_dir@,
    {
        let mut domains: Vec<String> = Vec::new();
        let mut i: usize = 0;
        while i < self.allowed_domains.len()
            invariant
                i <= self.allowed_domains@.len(),
                domains@.len() == i,
                forall|j: int| 0 <= j < i ==> domains@[j]@ == #[trigger] self.allowed_domains@[j]@,
            decreases self.allowed_domains.len() - i,
        {
            domains.push(self.allowed_domains[i].clone());
            i = i + 1;
        }
        assert(crate::text::string_views(domains@) =~= crate::text::string_views(
            self.allowed_domains@,
        ));
        SandboxLimits {
            max_memory_pages: self.max_memory_pages,
            max_execution_time_ms: self.max_execution_time_ms,
            allow_network: self.allow_network,
            allowed_domains: domains,
            allow_file_write: self.allow_file_write,
            sandbox_dir: self.sandbox_dir.clone(),
        }
    }
}

impl Default for SandboxLimits {
    /// 256 pages of memory, 5 s, no network, no domains, no writes, and the
    /// directory "./sandbox".
    fn default() -> (r: Self)
        ensures
            r.max_memory_pages == 256,
            r.max_execution_time_ms == 5000,
            !r.allow_network,
            r.allowed_domains@.len() == 0,
            !r.allow_file_write,
            r.sandbox_dir@ == "./sandbox"@,
    {
        SandboxLimits {
            max_memory_pages: 256,
            max_execution_time_ms: 5000,
            allow_network: false,
            allowed_domains: Vec::new(),
            allow_file_write: false,
            sandbox_dir: String::from_str("./sandbox"),
        }
    }
}

} // verus!

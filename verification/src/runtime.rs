//! The decisions around a run: the code that a run executes, its timeout,
//! what it answers, and how the execution cache is consulted and filled.
use vstd::prelude::*;
use std::time::Duration;
use uuid::Uuid;
use crate::cache::{CacheKey, CacheView, ExecutionCache, code_hash_of, inserted, key_digest, looked_up};
use crate::host_functions::{HostFunctionRegistry, HostFunctionSpec, export_stub};
use crate::interpreter::{interpreter_command, interpreter_flag, interpreter_program};
use crate::sandbox::SandboxConfig;
use crate::text::{
    chars_of, contains_seq, ends_with, join, lemma_join_neighbours, occurs_at, push_all, push_str,
    starts_with, string_from_chars, string_views,
};
use crate::types::{ExecuteResponse, Language};

verus! {

/// The definitions that Python code runs after: `__host_call__` and its
/// simulated host functions.
pub const PYTHON_HOST_PRELUDE: &'static str = r#"
import sys, io, json

def __host_call__(func_name, *args):
    try:
        args_str = json.dumps(args)
        result_str = _host_invoke(func_name, args_str)
        return json.loads(result_str) if result_str else None
    except Exception as e:
        raise RuntimeError(f"Host function call failed: {e}")

def _host_invoke(func_name, args_str):
    import ctypes
    try:
        lib = ctypes.CDLL(None)
        func = getattr(lib, func_name)
        return str(func(*json.loads(args_str)))
    except:
        return simulate_host_func(func_name, args_str)

def simulate_host_func(func_name, args_str):
    args = json.loads(args_str)
    if func_name == 'add':
        return str(args[0] + args[1])
    elif func_name == 'multiply':
        return str(args[0] * args[1])
    elif func_name == 'fibonacci':
        n = args[0]
        a, b = 0, 1
        for _ in range(n):
            a, b = b, a + b
        return str(a)
    elif func_name == 'is_prime':
        n = args[0]
        if n <= 1: return '0'
        for i in range(2, int(n**0.5) + 1):
            if n % i == 0: return '0'
        return '1'
    elif func_name == 'get_timestamp':
        import time
        return str(int(time.time() * 1000))
    elif func_name == 'random_int':
        import random
        return str(random.randint(args[0], args[1]))
    return ''

class HostRedirect:
    def __init__(self, func_name):
        self.func_name = func_name
    def __call__(self, *args):
        return __host_call__(self.func_name, *args)

"#;

/// The definitions that JavaScript code runs after.
pub const JAVASCRIPT_HOST_PRELUDE: &'static str = r#"
function __host_call__(funcName, ...args) {
    try {
        const argsStr = JSON.stringify(args);
        const resultStr = _host_invoke(funcName, argsStr);
        return resultStr ? JSON.parse(resultStr) : null;
    } catch (e) {
        throw new Error(`Host function call failed: ${e.message}`);
    }
}

function _host_invoke(funcName, argsStr) {
    const args = JSON.parse(argsStr);
    return simulateHostFunc(funcName, args);
}

function simulateHostFunc(funcName, args) {
    switch(funcName) {
        case 'add': return String(args[0] + args[1]);
        case 'multiply': return String(args[0] * args[1]);
        case 'fibonacci':
            let n = args[0], a = 0, b = 1;
            for (let i = 0; i < n; i++) [a, b] = [b, a + b];
            return String(a);
        case 'is_prime':
            let num = args[0];
            if (num <= 1) return '0';
            for (let i = 2; i <= Math.sqrt(num); i++) if (num % i === 0) return '0';
            return '1';
        case 'get_timestamp':
            return String(Date.now());
        case 'random_int':
            return String(Math.floor(Math.random() * (args[1] - args[0] + 1)) + args[0]);
        default: return '';
    }
}

"#;

/// The definitions that Ruby code runs after.
pub const RUBY_HOST_PRELUDE: &'static str = r#"
require 'json'

def __host_call__(func_name, *args)
  begin
    args_str = JSON.generate(args)
    result_str = _host_invoke(func_name, args_str)
    result_str ? JSON.parse(result_str) : nil
  rescue => e
    raise "Host function call failed: #{e.message}"
  end
end

def _host_invoke(func_name, args_str)
  args = JSON.parse(args_str)
  simulate_host_func(func_name, args)
end

def simulate_host_func(func_name, args)
  case func_name
  when 'add' then (args[0] + args[1]).to_s
  when 'multiply' then (args[0] * args[1]).to_s
  when 'fibonacci'
    n = args[0].to_i
    a, b = 0, 1
    n.times { a, b = b, a + b }
    a.to_s
  when 'is_prime'
    num = args[0].to_i
    return '0' if num <= 1
    (2..Math.sqrt(num).to_i).each { |i| return '0' if num % i == 0 }
    '1'
  when 'get_timestamp' then (Time.now.to_f * 1000).to_i.to_s
  when 'random_int'
    rand(args[0]..args[1]).to_s
  else ''
  end
end

"#;

pub open spec fn host_prelude(l: Language) -> Seq<char> {
    match l {
        Language::Python => PYTHON_HOST_PRELUDE@,
        Language::JavaScript => JAVASCRIPT_HOST_PRELUDE@,
        Language::Ruby => RUBY_HOST_PRELUDE@,
    }
}

/// The program that a run executes: the prelude, the stubs of the host
/// functions one per line, then the code, each part followed by a newline.
pub open spec fn wrapped_code(l: Language, fs: Seq<HostFunctionSpec>, code: Seq<char>) -> Seq<char> {
    host_prelude(l) + "\n"@ + join(fs.map_values(|f: HostFunctionSpec| export_stub(l, f.name)), "\n"@)
        + "\n"@ + code + "\n"@
}

/// Each stub stands on lines of its own: the stub of every registered
/// function is followed by a newline and then the stub of the function
/// registered after it.  The program starts with the prelude and a
/// newline, and ends with a newline, the code and a newline.
pub proof fn lemma_wrapped_code_layout(l: Language, fs: Seq<HostFunctionSpec>, code: Seq<char>)
    ensures
        forall|i: int| 0 <= i && i + 1 < fs.len() ==> contains_seq(
            wrapped_code(l, fs, code),
            export_stub(l, #[trigger] fs[i].name) + "\n"@ + export_stub(l, fs[i + 1].name),
        ),
        starts_with(wrapped_code(l, fs, code), host_prelude(l) + "\n"@),
        ends_with(wrapped_code(l, fs, code), "\n"@ + code + "\n"@),
{
    let stubs = fs.map_values(|f: HostFunctionSpec| export_stub(l, f.name));
    let head = host_prelude(l) + "\n"@;
    let body = join(stubs, "\n"@);
    let tail = "\n"@ + code + "\n"@;
    let w = wrapped_code(l, fs, code);
    assert(w =~= head + body + tail);
    assert forall|i: int| 0 <= i && i + 1 < fs.len() implies contains_seq(
        w,
        export_stub(l, #[trigger] fs[i].name) + "\n"@ + export_stub(l, fs[i + 1].name),
    ) by {
        lemma_join_neighbours(stubs, "\n"@, i);
        let p = stubs[i] + "\n"@ + stubs[i + 1];
        let k = choose|k: int| occurs_at(body, p, k);
        assert(w.subrange(head.len() + k, head.len() + k + p.len()) =~= body.subrange(k, k + p.len()));
        assert(occurs_at(w, p, head.len() + k));
    }
    assert(w.subrange(0, head.len() as int) =~= head);
    assert(w.subrange(w.len() - tail.len(), w.len() as int) =~= tail);
}

/// Wraps `code` so that it can call the registered host functions.
pub fn wrap_code_with_host_functions(registry: &HostFunctionRegistry, language: Language, code: &str) -> (r: String)
    ensures
        r@ == wrapped_code(language, registry@, code@),
{
    let wrappers = registry.get_callable_exports(language);
    let mut t: Vec<char> = match language {
        Language::Python => chars_of(PYTHON_HOST_PRELUDE),
        Language::JavaScript => chars_of(JAVASCRIPT_HOST_PRELUDE),
        Language::Ruby => chars_of(RUBY_HOST_PRELUDE),
    };
    push_str(&mut t, "\n");
    let joined = crate::text::join_strings(wrappers.as_slice(), "\n");
    push_all(&mut t, joined.as_slice());
    push_str(&mut t, "\n");
    push_str(&mut t, code);
    push_str(&mut t, "\n");
    string_from_chars(t.as_slice())
}

/// The file a run's code is written to.
pub fn script_file_name(language: Language) -> (s: &'static str)
    ensures
        s@ == match language {
            Language::Python => "script.py"@,
            Language::JavaScript => "script.js"@,
            Language::Ruby => "script.rb"@,
        },
{
    match language {
        Language::Python => "script.py",
        Language::JavaScript => "script.js",
        Language::Ruby => "script.rb",
    }
}

/// The timeout of a run: the requested one, or the sandbox's limit.
pub fn effective_timeout(config: &SandboxConfig, timeout_ms: Option<u64>) -> (t: u64)
    ensures
        t == match timeout_ms {
            Some(t) => t,
            None => config.spec_limits().max_execution_time_ms,
        },
{
    match timeout_ms {
        Some(t) => t,
        None => config.limits().max_execution_time_ms,
    }
}

/// A run's duration in whole milliseconds, from its duration in
/// nanoseconds (cut to 64 bits, as `as u64` does).
pub fn execution_time_ms(elapsed_nanos: u128) -> (ms: u64)
    ensures
        ms == (elapsed_nanos / 1_000_000) as u64,
{
    (elapsed_nanos / 1_000_000) as u64
}

/// The response to a run: it succeeded unless `outcome` holds an error,
/// whose message becomes the response's error.
pub fn build_response(
    execution_id: Uuid,
    outcome: Result<(), String>,
    stdout: String,
    stderr: String,
    execution_time_ms: u64,
) -> (r: ExecuteResponse)
    ensures
        r.execution_id == execution_id,
        r.success == (outcome is Ok),
        r.stdout == stdout,
        r.stderr == stderr,
        r.execution_time_ms == execution_time_ms,
        r.error == match outcome {
            Ok(()) => None::<String>,
            Err(e) => Some(e),
        },
        !r.cached,
{
    let (success, error) = match outcome {
        Ok(()) => (true, None),
        Err(e) => (false, Some(e)),
    };
    ExecuteResponse { execution_id, success, stdout, stderr, execution_time_ms, error, cached: false }
}

/// What the cache says about a run before it is executed.
pub enum CacheLookup {
    /// A cached response, under the run's new id and marked as cached.
    Hit(ExecuteResponse),
    /// No usable entry; the key to store the run's response under.
    Miss(CacheKey),
}

/// Consults the cache for running `code` in `language` with `timeout_ms`:
/// a hit answers with the cached response under `fresh_id`, marked as
/// cached.
pub fn lookup_cached_run_with_id(
    cache: &mut ExecutionCache,
    language: Language,
    code: &str,
    timeout_ms: Option<u64>,
    fresh_id: Uuid,
) -> (r: CacheLookup)
    requires
        old(cache)@.hits < u64::MAX,
        old(cache)@.misses < u64::MAX,
    ensures
        exists|now: u64, found: Option<ExecuteResponse>, key: CacheKey|
            {
                &&& key.language == language
                &&& key.code_hash@ == code_hash_of(code@)
                &&& key.timeout_ms == timeout_ms
                &&& looked_up(old(cache)@, key_digest(key), now, found, final(cache)@)
                &&& match found {
                    Some(resp) => r matches CacheLookup::Hit(h) && h == (ExecuteResponse { execution_id: fresh_id, cached: true, ..resp }),
                    None => r matches CacheLookup::Miss(k) && k == key,
                }
            },
{
    let key = CacheKey::new(language, code, timeout_ms);
    let found = cache.get(&key);
    let ghost g = found;
    match found {
        Some(cached) => {
            let mut response = cached;
            response.execution_id = fresh_id;
            response.cached = true;
            CacheLookup::Hit(response)
        },
        None => CacheLookup::Miss(key),
    }
}

/// `uuid::Uuid::new_v4`: a fresh random id.  Nothing is stated of it.
#[verifier::external_body]
fn new_execution_id() -> Uuid {
    Uuid::new_v4()
}

/// Consults the cache for running `code` in `language` with `timeout_ms`:
/// a hit answers with the cached response under a fresh random id, marked
/// as cached.
pub fn lookup_cached_run(
    cache: &mut ExecutionCache,
    language: Language,
    code: &str,
    timeout_ms: Option<u64>,
) -> (r: CacheLookup)
    requires
        old(cache)@.hits < u64::MAX,
        old(cache)@.misses < u64::MAX,
    ensures
        exists|now: u64, found: Option<ExecuteResponse>, key: CacheKey|
            {
                &&& key.language == language
                &&& key.code_hash@ == code_hash_of(code@)
                &&& key.timeout_ms == timeout_ms
                &&& looked_up(old(cache)@, key_digest(key), now, found, final(cache)@)
                &&& match found {
                    Some(resp) => r matches CacheLookup::Hit(h) && h == (ExecuteResponse { execution_id: h.execution_id, cached: true, ..resp }),
                    None => r matches CacheLookup::Miss(k) && k == key,
                }
            },
{
    let fresh_id = new_execution_id();
    lookup_cached_run_with_id(cache, language, code, timeout_ms, fresh_id)
}

/// What a run is set up with: its id, its timeout, the file its code is
/// written to, the program it executes, and the interpreter (program and
/// flag) that executes it.
pub struct RunPlan {
    pub execution_id: Uuid,
    pub timeout_ms: u64,
    pub script_file: &'static str,
    pub program: String,
    pub interpreter: &'static str,
    pub interpreter_flag: &'static str,
}

/// Sets up a run of `code` in `language` under a fresh random id: the
/// timeout requested or the sandbox's, the script file of the language,
/// the code wrapped with the registered host functions, and the
/// interpreter of the requested language (never one guessed from the
/// wrapped program, whose prelude would mislead a guess).
pub fn plan_run(
    registry: &HostFunctionRegistry,
    config: &SandboxConfig,
    language: Language,
    code: &str,
    timeout_ms: Option<u64>,
) -> (p: RunPlan)
    ensures
        p.timeout_ms == match timeout_ms {
            Some(t) => t,
            None => config.spec_limits().max_execution_time_ms,
        },
        p.script_file@ == match language {
            Language::Python => "script.py"@,
            Language::JavaScript => "script.js"@,
            Language::Ruby => "script.rb"@,
        },
        p.program@ == wrapped_code(language, registry@, code@),
        p.interpreter@ == interpreter_program(language),
        p.interpreter_flag@ == interpreter_flag(language),
{
    let execution_id = new_execution_id();
    let timeout_ms = effective_timeout(config, timeout_ms);
    let script_file = script_file_name(language);
    let program = wrap_code_with_host_functions(registry, language, code);
    let (interpreter, interpreter_flag) = interpreter_command(language);
    RunPlan { execution_id, timeout_ms, script_file, program, interpreter, interpreter_flag }
}

/// Records a finished run in the cache: a successful response is stored
/// under `key`, a failed one is not.  The response is returned.
pub fn store_run(cache: &mut ExecutionCache, key: &CacheKey, response: ExecuteResponse) -> (r: ExecuteResponse)
    ensures
        r == response,
        response.success ==> exists|now: u64| inserted(old(cache)@, key_digest(*key), response, None, now, final(cache)@),
        !response.success ==> final(cache)@ == old(cache)@,
{
    if response.success {
        cache.insert(key, response.clone());
    }
    response
}

/// What preloading the language modules reports.
pub struct WarmupStats {
    pub modules_loaded: usize,
    pub warmup_duration: Duration,
    pub preloaded_languages: Vec<Language>,
    pub module_sizes: Vec<(Language, usize)>,
}

/// The languages whose modules are preloaded, in order.
pub open spec fn preload_order() -> Seq<Language> {
    seq![Language::Python, Language::JavaScript, Language::Ruby]
}

/// The languages, in the order they are preloaded.
pub fn preload_languages() -> (r: Vec<Language>)
    ensures
        r@ == preload_order(),
{
    let r = vec![Language::Python, Language::JavaScript, Language::Ruby];
    assert(r@ =~= preload_order());
    r
}

/// The report of a preload that loaded `module_sizes` in `warmup_duration`.
pub fn warmup_stats(module_sizes: Vec<(Language, usize)>, warmup_duration: Duration) -> (s: WarmupStats)
    ensures
        s.modules_loaded == module_sizes@.len(),
        s.warmup_duration == warmup_duration,
        s.preloaded_languages@ == module_sizes@.map_values(|p: (Language, usize)| p.0),
        s.module_sizes@ == module_sizes@,
{
    let mut languages: Vec<Language> = Vec::new();
    let mut i: usize = 0;
    while i < module_sizes.len()
        invariant
            i <= module_sizes@.len(),
            languages@ == module_sizes@.map_values(|p: (Language, usize)| p.0).take(i as int),
        decreases module_sizes.len() - i,
    {
        languages.push(module_sizes[i].0);
        assert(languages@ =~= module_sizes@.map_values(|p: (Language, usize)| p.0).take(i + 1));
        i = i + 1;
    }
    assert(module_sizes@.map_values(|p: (Language, usize)| p.0).take(module_sizes@.len() as int) =~= module_sizes@.map_values(|p: (Language, usize)| p.0));
    WarmupStats {
        modules_loaded: module_sizes.len(),
        warmup_duration,
        preloaded_languages: languages,
        module_sizes,
    }
}

/// The two reports say the same.
pub open spec fn same_stats(a: WarmupStats, b: WarmupStats) -> bool {
    &&& a.modules_loaded == b.modules_loaded
    &&& a.warmup_duration == b.warmup_duration
    &&& a.preloaded_languages@ == b.preloaded_languages@
    &&& a.module_sizes@ == b.module_sizes@
}

impl Clone for WarmupStats {
    fn clone(&self) -> (r: Self)
        ensures
            same_stats(r, *self),
    {
        let mut languages: Vec<Language> = Vec::new();
        let mut i: usize = 0;
        while i < self.preloaded_languages.len()
            invariant
                i <= self.preloaded_languages@.len(),
                languages@ == self.preloaded_languages@.take(i as int),
            decreases self.preloaded_languages.len() - i,
        {
            languages.push(self.preloaded_languages[i]);
            assert(languages@ =~= self.preloaded_languages@.take(i + 1));
            i = i + 1;
        }
        let mut sizes: Vec<(Language, usize)> = Vec::new();
        let mut j: usize = 0;
        while j < self.module_sizes.len()
            invariant
                j <= self.module_sizes@.len(),
                sizes@ == self.module_sizes@.take(j as int),
            decreases self.module_sizes.len() - j,
        {
            sizes.push(self.module_sizes[j]);
            assert(sizes@ =~= self.module_sizes@.take(j + 1));
            j = j + 1;
        }
        assert(languages@ =~= self.preloaded_languages@);
        assert(sizes@ =~= self.module_sizes@);
        WarmupStats {
            modules_loaded: self.modules_loaded,
            warmup_duration: self.warmup_duration,
            preloaded_languages: languages,
            module_sizes: sizes,
        }
    }
}

/// Whether the modules are preloaded, and the report of the preload.
pub struct WarmupState {
    is_prewarmed: bool,
    stats: Option<WarmupStats>,
}

impl WarmupState {
    pub closed spec fn prewarmed(&self) -> bool {
        self.is_prewarmed
    }

    pub closed spec fn report(&self) -> Option<WarmupStats> {
        self.stats
    }

    /// Nothing preloaded yet.
    pub fn new() -> (s: Self)
        ensures
            !s.prewarmed(),
            s.report() is None,
    {
        WarmupState { is_prewarmed: false, stats: None }
    }

    /// A preload finished with the report `stats`.
    pub fn complete(&mut self, stats: WarmupStats)
        ensures
            final(self).prewarmed(),
            final(self).report() == Some(stats),
    {
        self.is_prewarmed = true;
        self.stats = Some(stats);
    }

    pub fn is_prewarmed(&self) -> (b: bool)
        ensures
            b == self.prewarmed(),
    {
        self.is_prewarmed
    }

    /// The report of the preload, if there was one.
    pub fn get_warmup_stats(&self) -> (r: Option<WarmupStats>)
        ensures
            match (r, self.report()) {
                (Some(a), Some(b)) => same_stats(a, b),
                (None, None) => true,
                _ => false,
            },
    {
        match &self.stats {
            Some(s) => Some(s.clone()),
            None => None,
        }
    }
}

} // verus!

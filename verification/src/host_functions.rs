//! The host functions that sandboxed code may call, and their registry.
use vstd::prelude::*;
use crate::clock::unix_time_nanos;
use crate::interpreter::{fib, is_prime, is_prime_exec, lemma_fib_bound};
use crate::text::{chars_eq, chars_of, push_all, push_str, string_from_chars, string_views};
use crate::types::Language;

verus! {

/// The type of a Wasm value.
#[derive(Debug, Clone, Copy, PartialEq, Eq, Structural)]
pub enum ValKind {
    I32,
    I64,
    F32,
    F64,
    V128,
    FuncRef,
    ExternRef,
}

/// An integer Wasm value, as the built-in host functions take and give
/// them.
#[derive(Debug, Clone, Copy, PartialEq, Eq, Structural)]
pub enum HostValue {
    I32(i32),
    I64(i64),
}

/// The host functions that the executor provides itself.
#[derive(Debug, Clone, Copy, PartialEq, Eq, Structural)]
pub enum BuiltinHostFn {
    Add,
    Multiply,
    StringLength,
    Fibonacci,
    IsPrime,
    ToUppercase,
    GetTimestamp,
    RandomInt,
}

/// How a registered host function is carried out: by a built-in, or by an
/// implementation that the embedding program supplied, by its number.
#[derive(Debug, Clone, Copy, PartialEq, Eq, Structural)]
pub enum HostImplementation {
    Builtin(BuiltinHostFn),
    External(u64),
}

/// A registered host function.
pub struct HostFunctionInfo {
    pub name: String,
    pub params: Vec<ValKind>,
    pub results: Vec<ValKind>,
    pub implementation: HostImplementation,
    pub description: String,
}

/// What a registered function looks like from outside.
pub struct HostFunctionSpec {
    pub name: Seq<char>,
    pub params: Seq<ValKind>,
    pub results: Seq<ValKind>,
    pub implementation: HostImplementation,
    pub description: Seq<char>,
}

pub open spec fn info_view(i: HostFunctionInfo) -> HostFunctionSpec {
    HostFunctionSpec {
        name: i.name@,
        params: i.params@,
        results: i.results@,
        implementation: i.implementation,
        description: i.description@,
    }
}

/// No two functions share a name.
pub open spec fn names_unique(fs: Seq<HostFunctionSpec>) -> bool {
    forall|i: int, j: int| 0 <= i < j < fs.len() ==> #[trigger] fs[i].name != #[trigger] fs[j].name
}

/// The functions after registering `f`: it replaces the function of the
/// same name, or else comes last.
pub open spec fn registered(fs: Seq<HostFunctionSpec>, f: HostFunctionSpec) -> Seq<HostFunctionSpec> {
    if exists|i: int| 0 <= i < fs.len() && fs[i].name == f.name {
        fs.update(choose|i: int| 0 <= i < fs.len() && fs[i].name == f.name, f)
    } else {
        fs.push(f)
    }
}

/// The registry of host functions, in the order they were first
/// registered.
pub struct HostFunctionRegistry {
    functions: Vec<HostFunctionInfo>,
}

impl View for HostFunctionRegistry {
    type V = Seq<HostFunctionSpec>;

    closed spec fn view(&self) -> Seq<HostFunctionSpec> {
        self.functions@.map_values(|i: HostFunctionInfo| info_view(i))
    }
}

pub open spec fn spec_of(name: Seq<char>, params: Seq<ValKind>, results: Seq<ValKind>, description: Seq<char>, implementation: HostImplementation) -> HostFunctionSpec {
    HostFunctionSpec { name, params, results, implementation, description }
}

/// The built-in functions, in the order they are registered.
pub open spec fn default_functions() -> Seq<HostFunctionSpec> {
    seq![
        spec_of("add"@, seq![ValKind::I32, ValKind::I32], seq![ValKind::I32], "Add two integers"@, HostImplementation::Builtin(BuiltinHostFn::Add)),
        spec_of("multiply"@, seq![ValKind::I32, ValKind::I32], seq![ValKind::I32], "Multiply two integers"@, HostImplementation::Builtin(BuiltinHostFn::Multiply)),
        spec_of("string_length"@, seq![ValKind::I32, ValKind::I32], seq![ValKind::I32], "Get string length (ptr, len) -> len"@, HostImplementation::Builtin(BuiltinHostFn::StringLength)),
        spec_of("fibonacci"@, seq![ValKind::I32], seq![ValKind::I64], "Compute Fibonacci number"@, HostImplementation::Builtin(BuiltinHostFn::Fibonacci)),
        spec_of("is_prime"@, seq![ValKind::I32], seq![ValKind::I32], "Check if number is prime (returns 1 or 0)"@, HostImplementation::Builtin(BuiltinHostFn::IsPrime)),
        spec_of("to_uppercase"@, seq![ValKind::I32, ValKind::I32, ValKind::I32], seq![ValKind::I32], "Convert string to uppercase (in_ptr, in_len, out_ptr) -> out_len"@, HostImplementation::Builtin(BuiltinHostFn::ToUppercase)),
        spec_of("get_timestamp"@, seq![], seq![ValKind::I64], "Get current Unix timestamp in milliseconds"@, HostImplementation::Builtin(BuiltinHostFn::GetTimestamp)),
        spec_of("random_int"@, seq![ValKind::I32, ValKind::I32], seq![ValKind::I32], "Generate random integer between min and max (inclusive)"@, HostImplementation::Builtin(BuiltinHostFn::RandomInt)),
    ]
}

/// The `i`-th argument, if it is an `i32`.
pub open spec fn arg_i32(args: Seq<HostValue>, i: int) -> Option<i32> {
    if 0 <= i < args.len() {
        match args[i] {
            HostValue::I32(v) => Some(v),
            _ => None,
        }
    } else {
        None
    }
}

/// The range that `random_int(min, max)` draws from.
pub open spec fn draw_range(min: i32, max: i32) -> int {
    max - min + 1
}

/// `random_int(min, max)` computes without overflow or a division by zero
/// for every clock reading.
pub open spec fn draw_defined(min: i32, max: i32) -> bool {
    let range = draw_range(min, max);
    &&& i32::MIN <= max - min <= i32::MAX
    &&& i32::MIN <= range <= i32::MAX
    &&& range != 0
    &&& (range > 0 || min == 0)
}

/// The number `random_int(min, max)` draws from the clock reading `t`
/// (nanoseconds since the Unix epoch).
pub open spec fn draw(min: i32, max: i32, t: u128) -> int {
    let seed = t as u64;
    let modulus = (draw_range(min, max) as i32) as u64;
    ((seed % modulus) as i32) + min
}

/// `random_int(min, max)` draws a number from `min` to `max`, whatever the
/// clock reads, when `min <= max` and the draw is defined.
pub proof fn lemma_draw_in_range(min: i32, max: i32, t: u128)
    requires
        min <= max,
        draw_defined(min, max),
    ensures
        min <= draw(min, max, t) <= max,
{
    let range = draw_range(min, max);
    let seed = t as u64;
    let modulus = (range as i32) as u64;
    assert(modulus == range);
    vstd::arithmetic::div_mod::lemma_mod_pos_bound(seed as int, modulus as int);
    let m = seed % modulus;
    assert(m < 0x8000_0000);
    assert((m as i32) == m);
}

/// The call computes without a panic: the arguments it reads are `i32`s,
/// and the arithmetic stays in range.
pub open spec fn builtin_defined(f: BuiltinHostFn, args: Seq<HostValue>) -> bool {
    match f {
        BuiltinHostFn::Add => arg_i32(args, 0) is Some && arg_i32(args, 1) is Some && i32::MIN
            <= arg_i32(args, 0)->0 + arg_i32(args, 1)->0 <= i32::MAX,
        BuiltinHostFn::Multiply => arg_i32(args, 0) is Some && arg_i32(args, 1) is Some && i32::MIN
            <= arg_i32(args, 0)->0 * arg_i32(args, 1)->0 <= i32::MAX,
        BuiltinHostFn::StringLength => arg_i32(args, 1) is Some,
        BuiltinHostFn::Fibonacci => arg_i32(args, 0) is Some && arg_i32(args, 0)->0 <= 92,
        BuiltinHostFn::IsPrime => arg_i32(args, 0) is Some,
        BuiltinHostFn::ToUppercase => true,
        BuiltinHostFn::GetTimestamp => true,
        BuiltinHostFn::RandomInt => arg_i32(args, 0) is Some && arg_i32(args, 1) is Some
            && draw_defined(arg_i32(args, 0)->0, arg_i32(args, 1)->0),
    }
}

/// What a built-in gives for `args` at the clock reading `t` (nanoseconds
/// since the Unix epoch).
pub open spec fn builtin_result(f: BuiltinHostFn, args: Seq<HostValue>, t: u128) -> Seq<HostValue> {
    let a = arg_i32(args, 0)->0;
    let b = arg_i32(args, 1)->0;
    match f {
        BuiltinHostFn::Add => seq![HostValue::I32((a + b) as i32)],
        BuiltinHostFn::Multiply => seq![HostValue::I32((a * b) as i32)],
        BuiltinHostFn::StringLength => seq![HostValue::I32(b)],
        BuiltinHostFn::Fibonacci => seq![
            HostValue::I64(if a <= 0 {
                0
            } else {
                fib(a as nat) as i64
            }),
        ],
        BuiltinHostFn::IsPrime => seq![
            HostValue::I32(if is_prime(a as int) {
                1
            } else {
                0
            }),
        ],
        BuiltinHostFn::ToUppercase => seq![HostValue::I32(0)],
        BuiltinHostFn::GetTimestamp => seq![HostValue::I64((t / 1_000_000) as i64)],
        BuiltinHostFn::RandomInt => seq![HostValue::I32(draw(a, b, t) as i32)],
    }
}

/// `get_timestamp` gives the clock reading in whole milliseconds since the
/// Unix epoch, whenever that count fits an `i64`.
pub proof fn lemma_timestamp_in_milliseconds(args: Seq<HostValue>, t: u128)
    requires
        t / 1_000_000 <= i64::MAX,
    ensures
        builtin_result(BuiltinHostFn::GetTimestamp, args, t).len() == 1,
        builtin_result(BuiltinHostFn::GetTimestamp, args, t)[0] matches HostValue::I64(v) && v as int
            == t / 1_000_000,
{
}

fn get_i32(args: &[HostValue], i: usize) -> (r: Option<i32>)
    ensures
        r == arg_i32(args@, i as int),
{
    if i < args.len() {
        match args[i] {
            HostValue::I32(v) => Some(v),
            _ => None,
        }
    } else {
        None
    }
}

fn fibonacci_i64(n: i32) -> (r: i64)
    requires
        n <= 92,
    ensures
        r == (if n <= 0 {
            0
        } else {
            fib(n as nat) as i64
        }),
{
    if n <= 0 {
        return 0;
    }
    if n == 1 {
        return 1;
    }
    let mut a: i64 = 0;
    let mut b: i64 = 1;
    let mut k: i32 = 2;
    while k <= n
        invariant
            2 <= k <= n + 1,
            n <= 92,
            a == fib((k - 2) as nat),
            b == fib((k - 1) as nat),
        decreases n + 1 - k,
    {
        proof {
            lemma_fib_bound(k as nat);
            assert(fib(k as nat) == fib((k - 1) as nat) + fib((k - 2) as nat));
        }
        let temp = a + b;
        a = b;
        b = temp;
        k = k + 1;
    }
    b
}

/// Carries out the built-in `f` on `args` at the clock reading `now_nanos`.
pub fn call_builtin_at(f: BuiltinHostFn, args: &[HostValue], now_nanos: u128) -> (r: Vec<HostValue>)
    requires
        builtin_defined(f, args@),
    ensures
        r@ == builtin_result(f, args@, now_nanos),
{
    let r = match f {
        BuiltinHostFn::Add => {
            let a = get_i32(args, 0).unwrap();
            let b = get_i32(args, 1).unwrap();
            vec![HostValue::I32(a + b)]
        },
        BuiltinHostFn::Multiply => {
            let a = get_i32(args, 0).unwrap();
            let b = get_i32(args, 1).unwrap();
            vec![HostValue::I32(a * b)]
        },
        BuiltinHostFn::StringLength => {
            let len = get_i32(args, 1).unwrap();
            vec![HostValue::I32(len)]
        },
        BuiltinHostFn::Fibonacci => {
            let n = get_i32(args, 0).unwrap();
            vec![HostValue::I64(fibonacci_i64(n))]
        },
        BuiltinHostFn::IsPrime => {
            let n = get_i32(args, 0).unwrap();
            let p = is_prime_exec(n as i64);
            vec![HostValue::I32(if p { 1 } else { 0 })]
        },
        BuiltinHostFn::ToUppercase => vec![HostValue::I32(0)],
        BuiltinHostFn::GetTimestamp => vec![HostValue::I64((now_nanos / 1_000_000) as i64)],
        BuiltinHostFn::RandomInt => {
            let min = get_i32(args, 0).unwrap();
            let max = get_i32(args, 1).unwrap();
            let seed = now_nanos as u64;
            let range = max - min + 1;
            let modulus = range as u64;
            assert(modulus != 0) by (bit_vector)
                requires
                    modulus == range as u64,
                    range != 0,
            ;
            let m = seed % modulus;
            let picked = m as i32;
            proof {
                if range > 0 {
                    assert(modulus == range) by (bit_vector)
                        requires
                            modulus == range as u64,
                            range > 0,
                    ;
                    assert(m < modulus);
                    assert(picked == m) by (bit_vector)
                        requires
                            picked == m as i32,
                            m < 0x8000_0000u64,
                    ;
                }
            }
            vec![HostValue::I32(picked + min)]
        },
    };
    assert(r@ =~= builtin_result(f, args@, now_nanos));
    r
}

/// Carries out the built-in `f` on `args`, reading the system clock for
/// `get_timestamp` and `random_int`.
pub fn call_builtin(f: BuiltinHostFn, args: &[HostValue]) -> (r: Vec<HostValue>)
    requires
        builtin_defined(f, args@),
    ensures
        exists|t: u128| r@ == builtin_result(f, args@, t),
{
    let t = unix_time_nanos();
    call_builtin_at(f, args, t)
}

/// Whether `call_builtin` may be called on `args`.
pub fn builtin_call_defined(f: BuiltinHostFn, args: &[HostValue]) -> (b: bool)
    ensures
        b == builtin_defined(f, args@),
{
    let a = get_i32(args, 0);
    let b = get_i32(args, 1);
    match f {
        BuiltinHostFn::Add => match (a, b) {
            (Some(x), Some(y)) => {
                let s = x as i64 + y as i64;
                s >= i32::MIN as i64 && s <= i32::MAX as i64
            },
            _ => false,
        },
        BuiltinHostFn::Multiply => match (a, b) {
            (Some(x), Some(y)) => {
                assert(-0x4000_0000_0000_0000 <= (x as int) * (y as int) <= 0x4000_0000_0000_0000)
                    by (nonlinear_arith)
                    requires
                        i32::MIN <= x <= i32::MAX,
                        i32::MIN <= y <= i32::MAX,
                ;
                let p = x as i64 * y as i64;
                p >= i32::MIN as i64 && p <= i32::MAX as i64
            },
            _ => false,
        },
        BuiltinHostFn::StringLength => b.is_some(),
        BuiltinHostFn::Fibonacci => match a {
            Some(x) => x <= 92,
            None => false,
        },
        BuiltinHostFn::IsPrime => a.is_some(),
        BuiltinHostFn::ToUppercase => true,
        BuiltinHostFn::GetTimestamp => true,
        BuiltinHostFn::RandomInt => match (a, b) {
            (Some(min), Some(max)) => {
                let d = max as i64 - min as i64;
                let range = d + 1;
                d >= i32::MIN as i64 && d <= i32::MAX as i64 && range >= i32::MIN as i64 && range
                    <= i32::MAX as i64 && range != 0 && (range > 0 || min == 0)
            },
            _ => false,
        },
    }
}


/// The line that lists a function: its name, a colon, and its description.
pub open spec fn listing(f: HostFunctionSpec) -> Seq<char> {
    f.name + ": "@ + f.description
}

/// The definition that makes the host function `name` callable from code
/// in language `l`, by way of `__host_call__`.
pub open spec fn export_stub(l: Language, name: Seq<char>) -> Seq<char> {
    match l {
        Language::Python => "def "@ + name + "(*args):\n    return __host_call__('"@ + name
            + "', *args)"@,
        Language::JavaScript => "function "@ + name + "(...args) { return __host_call__('"@ + name
            + "', ...args); }"@,
        Language::Ruby => "def "@ + name + "(*args)\n  __host_call__('"@ + name
            + "', *args)\nend"@,
    }
}

proof fn lemma_default_names_unique()
    ensures
        names_unique(default_functions()),
{
    reveal_strlit("add");
    reveal_strlit("multiply");
    reveal_strlit("string_length");
    reveal_strlit("fibonacci");
    reveal_strlit("is_prime");
    reveal_strlit("to_uppercase");
    reveal_strlit("get_timestamp");
    reveal_strlit("random_int");
    let d = default_functions();
    assert forall|i: int, j: int| 0 <= i < j < d.len() implies #[trigger] d[i].name != #[trigger] d[j].name by {
        assert(d[i].name.len() != d[j].name.len() || d[i].name[0] != d[j].name[0]);
    }
}

impl HostFunctionRegistry {
    #[verifier::type_invariant]
    spec fn names_are_unique(self) -> bool {
        names_unique(self@)
    }

    /// The registry with the built-in functions.
    pub fn new() -> (r: Self)
        ensures
            r@ == default_functions(),
    {
        let mut registry = HostFunctionRegistry { functions: Vec::new() };
        assert(registry@ =~= Seq::<HostFunctionSpec>::empty());
        registry.register_default_functions();
        registry
    }

    fn register_default_functions(&mut self)
        requires
            old(self)@.len() == 0,
        ensures
            final(self)@ == default_functions(),
    {
        proof {
            reveal_strlit("add");
            reveal_strlit("multiply");
            reveal_strlit("string_length");
            reveal_strlit("fibonacci");
            reveal_strlit("is_prime");
            reveal_strlit("to_uppercase");
            reveal_strlit("get_timestamp");
            reveal_strlit("random_int");
        }
        let ghost d = default_functions();
        proof {
            lemma_default_names_unique();
        }
        let params = vec![ValKind::I32, ValKind::I32];
        assert(params@ =~= d[0].params);
        let results = vec![ValKind::I32];
        assert(results@ =~= d[0].results);
        let ghost before = self@;
        assert(before =~= d.take(0));
        assert forall|i: int| 0 <= i < before.len() implies before[i].name != d[0].name by {
            assert(before[i] == d[i]);
        }
        self.register("add", params, results, "Add two integers", HostImplementation::Builtin(BuiltinHostFn::Add));
        assert(self@ =~= d.take(1));
        let params = vec![ValKind::I32, ValKind::I32];
        assert(params@ =~= d[1].params);
        let results = vec![ValKind::I32];
        assert(results@ =~= d[1].results);
        let ghost before = self@;
        assert(before =~= d.take(1));
        assert forall|i: int| 0 <= i < before.len() implies before[i].name != d[1].name by {
            assert(before[i] == d[i]);
        }
        self.register("multiply", params, results, "Multiply two integers", HostImplementation::Builtin(BuiltinHostFn::Multiply));
        assert(self@ =~= d.take(2));
        let params = vec![ValKind::I32, ValKind::I32];
        assert(params@ =~= d[2].params);
        let results = vec![ValKind::I32];
        assert(results@ =~= d[2].results);
        let ghost before = self@;
        assert(before =~= d.take(2));
        assert forall|i: int| 0 <= i < before.len() implies before[i].name != d[2].name by {
            assert(before[i] == d[i]);
        }
        self.register("string_length", params, results, "Get string length (ptr, len) -> len", HostImplementation::Builtin(BuiltinHostFn::StringLength));
        assert(self@ =~= d.take(3));
        let params = vec![ValKind::I32];
        assert(params@ =~= d[3].params);
        let results = vec![ValKind::I64];
        assert(results@ =~= d[3].results);
        let ghost before = self@;
        assert(before =~= d.take(3));
        assert forall|i: int| 0 <= i < before.len() implies before[i].name != d[3].name by {
            assert(before[i] == d[i]);
        }
        self.register("fibonacci", params, results, "Compute Fibonacci number", HostImplementation::Builtin(BuiltinHostFn::Fibonacci));
        assert(self@ =~= d.take(4));
        let params = vec![ValKind::I32];
        assert(params@ =~= d[4].params);
        let results = vec![ValKind::I32];
        assert(results@ =~= d[4].results);
        let ghost before = self@;
        assert(before =~= d.take(4));
        assert forall|i: int| 0 <= i < before.len() implies before[i].name != d[4].name by {
            assert(before[i] == d[i]);
        }
        self.register("is_prime", params, results, "Check if number is prime (returns 1 or 0)", HostImplementation::Builtin(BuiltinHostFn::IsPrime));
        assert(self@ =~= d.take(5));
        let params = vec![ValKind::I32, ValKind::I32, ValKind::I32];
        assert(params@ =~= d[5].params);
        let results = vec![ValKind::I32];
        assert(results@ =~= d[5].results);
        let ghost before = self@;
        assert(before =~= d.take(5));
        assert forall|i: int| 0 <= i < before.len() implies before[i].name != d[5].name by {
            assert(before[i] == d[i]);
        }
        self.register("to_uppercase", params, results, "Convert string to uppercase (in_ptr, in_len, out_ptr) -> out_len", HostImplementation::Builtin(BuiltinHostFn::ToUppercase));
        assert(self@ =~= d.take(6));
        let params = vec![];
        assert(params@ =~= d[6].params);
        let results = vec![ValKind::I64];
        assert(results@ =~= d[6].results);
        let ghost before = self@;
        assert(before =~= d.take(6));
        assert forall|i: int| 0 <= i < before.len() implies before[i].name != d[6].name by {
            assert(before[i] == d[i]);
        }
        self.register("get_timestamp", params, results, "Get current Unix timestamp in milliseconds", HostImplementation::Builtin(BuiltinHostFn::GetTimestamp));
        assert(self@ =~= d.take(7));
        let params = vec![ValKind::I32, ValKind::I32];
        assert(params@ =~= d[7].params);
        let results = vec![ValKind::I32];
        assert(results@ =~= d[7].results);
        let ghost before = self@;
        assert(before =~= d.take(7));
        assert forall|i: int| 0 <= i < before.len() implies before[i].name != d[7].name by {
            assert(before[i] == d[i]);
        }
        self.register("random_int", params, results, "Generate random integer between min and max (inclusive)", HostImplementation::Builtin(BuiltinHostFn::RandomInt));
        assert(self@ =~= d.take(8));
        assert(d.take(8) =~= d);
    }

    /// Registers a function under `name`, replacing one of the same name.
    pub fn register(
        &mut self,
        name: &str,
        params: Vec<ValKind>,
        results: Vec<ValKind>,
        description: &str,
        implementation: HostImplementation,
    )
        ensures
            final(self)@ == registered(old(self)@, spec_of(name@, params@, results@, description@, implementation)),
    {
        proof {
            use_type_invariant(&*self);
        }
        let info = HostFunctionInfo {
            name: String::from_str(name),
            params,
            results,
            implementation,
            description: String::from_str(description),
        };
        let ghost f = info_view(info);
        assert(f == spec_of(name@, params@, results@, description@, implementation));
        let ghost fs = self@;
        let n = chars_of(name);
        let mut i: usize = 0;
        while i < self.functions.len()
            invariant
                i <= self.functions@.len(),
                fs == self@,
                fs == old(self)@,
                names_unique(fs),
                f == info_view(info),
                f == spec_of(name@, params@, results@, description@, implementation),
                f.name == name@,
                n@ == name@,
                forall|j: int| 0 <= j < i ==> #[trigger] fs[j].name != name@,
            decreases self.functions.len() - i,
        {
            let existing = chars_of(self.functions[i].name.as_str());
            assert(fs[i as int] == info_view(self.functions@[i as int]));
            if chars_eq(existing.as_slice(), n.as_slice()) {
                assert(fs[i as int].name == name@);
                let ghost k = choose|k: int| 0 <= k < fs.len() && fs[k].name == f.name;
                assert(k == i) by {
                    if k != i {
                        if k < i {
                            assert(fs[k].name != name@);
                        } else {
                            assert(fs[i as int].name != fs[k].name);
                        }
                    }
                }
                let mut functions: Vec<HostFunctionInfo> = Vec::new();
                std::mem::swap(&mut functions, &mut self.functions);
                let ghost old_functions = functions@;
                assert(fs == old_functions.map_values(|x: HostFunctionInfo| info_view(x)));
                functions.set(i, info);
                assert(functions@ == old_functions.update(i as int, info));
                assert(functions@.map_values(|x: HostFunctionInfo| info_view(x)) =~= fs.update(i as int, f));
                proof {
                    assert forall|a: int, b: int| 0 <= a < b < fs.len() implies #[trigger] fs.update(i as int, f)[a].name != #[trigger] fs.update(i as int, f)[b].name by {
                        if a != i && b != i {
                            assert(fs[a].name != fs[b].name);
                        } else if a == i {
                            assert(fs[b].name != fs[i as int].name);
                        } else {
                            assert(fs[a].name != fs[i as int].name);
                        }
                    }
                }
                self.functions = functions;
                return;
            }
            i = i + 1;
        }
        let mut functions: Vec<HostFunctionInfo> = Vec::new();
        std::mem::swap(&mut functions, &mut self.functions);
        let ghost old_functions = functions@;
        assert(fs == old_functions.map_values(|x: HostFunctionInfo| info_view(x)));
        functions.push(info);
        assert(functions@.map_values(|x: HostFunctionInfo| info_view(x)) =~= fs.push(f));
        proof {
            assert forall|a: int, b: int| 0 <= a < b < fs.push(f).len() implies #[trigger] fs.push(f)[a].name != #[trigger] fs.push(f)[b].name by {
                if b == fs.len() {
                    assert(fs[a].name != name@);
                } else {
                    assert(fs[a].name != fs[b].name);
                }
            }
        }
        self.functions = functions;
    }

    /// Each function as "name: description", in registration order.
    pub fn get_available_functions(&self) -> (r: Vec<String>)
        ensures
            string_views(r@) == self@.map_values(|f: HostFunctionSpec| listing(f)),
    {
        let mut r: Vec<String> = Vec::new();
        let mut i: usize = 0;
        while i < self.functions.len()
            invariant
                i <= self.functions@.len(),
                string_views(r@) == self@.map_values(|f: HostFunctionSpec| listing(f)).take(i as int),
            decreases self.functions.len() - i,
        {
            let mut t = chars_of(self.functions[i].name.as_str());
            push_str(&mut t, ": ");
            let d = chars_of(self.functions[i].description.as_str());
            push_all(&mut t, d.as_slice());
            assert(self@[i as int] == info_view(self.functions@[i as int]));
            assert(t@ =~= listing(self@[i as int]));
            let ghost r0 = string_views(r@);
            let ghost x = self@.map_values(|f: HostFunctionSpec| listing(f));
            r.push(string_from_chars(t.as_slice()));
            assert(string_views(r@) =~= r0.push(t@));
            assert(x.take(i + 1) =~= x.take(i as int).push(x[i as int]));
            assert(string_views(r@) =~= self@.map_values(|f: HostFunctionSpec| listing(f)).take(i + 1));
            i = i + 1;
        }
        assert(self@.map_values(|f: HostFunctionSpec| listing(f)).take(self@.len() as int) =~= self@.map_values(|f: HostFunctionSpec| listing(f)));
        r
    }

    /// The names of the functions, in registration order.
    pub fn get_import_names(&self) -> (r: Vec<String>)
        ensures
            string_views(r@) == self@.map_values(|f: HostFunctionSpec| f.name),
    {
        let mut r: Vec<String> = Vec::new();
        let mut i: usize = 0;
        while i < self.functions.len()
            invariant
                i <= self.functions@.len(),
                string_views(r@) == self@.map_values(|f: HostFunctionSpec| f.name).take(i as int),
            decreases self.functions.len() - i,
        {
            assert(self@[i as int] == info_view(self.functions@[i as int]));
            let ghost r0 = string_views(r@);
            let ghost x = self@.map_values(|f: HostFunctionSpec| f.name);
            r.push(self.functions[i].name.clone());
            assert(string_views(r@) =~= r0.push(self@[i as int].name));
            assert(x.take(i + 1) =~= x.take(i as int).push(x[i as int]));
            assert(string_views(r@) =~= self@.map_values(|f: HostFunctionSpec| f.name).take(i + 1));
            i = i + 1;
        }
        assert(self@.map_values(|f: HostFunctionSpec| f.name).take(self@.len() as int) =~= self@.map_values(|f: HostFunctionSpec| f.name));
        r
    }

    /// For each function, the definition that makes it callable from code
    /// in `language`.
    pub fn get_callable_exports(&self, language: Language) -> (r: Vec<String>)
        ensures
            string_views(r@) == self@.map_values(|f: HostFunctionSpec| export_stub(language, f.name)),
    {
        let mut r: Vec<String> = Vec::new();
        let mut i: usize = 0;
        while i < self.functions.len()
            invariant
                i <= self.functions@.len(),
                string_views(r@) == self@.map_values(|f: HostFunctionSpec| export_stub(language, f.name)).take(i as int),
            decreases self.functions.len() - i,
        {
            let n = chars_of(self.functions[i].name.as_str());
            let mut t: Vec<char> = Vec::new();
            match language {
                Language::Python => {
                    push_str(&mut t, "def ");
                    push_all(&mut t, n.as_slice());
                    push_str(&mut t, "(*args):\n    return __host_call__('");
                    push_all(&mut t, n.as_slice());
                    push_str(&mut t, "', *args)");
                },
                Language::JavaScript => {
                    push_str(&mut t, "function ");
                    push_all(&mut t, n.as_slice());
                    push_str(&mut t, "(...args) { return __host_call__('");
                    push_all(&mut t, n.as_slice());
                    push_str(&mut t, "', ...args); }");
                },
                Language::Ruby => {
                    push_str(&mut t, "def ");
                    push_all(&mut t, n.as_slice());
                    push_str(&mut t, "(*args)\n  __host_call__('");
                    push_all(&mut t, n.as_slice());
                    push_str(&mut t, "', *args)\nend");
                },
            }
            assert(self@[i as int] == info_view(self.functions@[i as int]));
            assert(t@ =~= export_stub(language, self@[i as int].name));
            let ghost r0 = string_views(r@);
            let ghost x = self@.map_values(|f: HostFunctionSpec| export_stub(language, f.name));
            r.push(string_from_chars(t.as_slice()));
            assert(string_views(r@) =~= r0.push(t@));
            assert(x.take(i + 1) =~= x.take(i as int).push(x[i as int]));
            assert(string_views(r@) =~= self@.map_values(|f: HostFunctionSpec| export_stub(language, f.name)).take(i + 1));
            i = i + 1;
        }
        assert(self@.map_values(|f: HostFunctionSpec| export_stub(language, f.name)).take(self@.len() as int) =~= self@.map_values(|f: HostFunctionSpec| export_stub(language, f.name)));
        r
    }

    /// The function registered under `name`.
    pub fn lookup(&self, name: &str) -> (r: Option<&HostFunctionInfo>)
        ensures
            match r {
                Some(info) => exists|k: int| 0 <= k < self@.len() && self@[k] == info_view(*info) && self@[k].name == name@,
                None => forall|k: int| 0 <= k < self@.len() ==> #[trigger] self@[k].name != name@,
            },
    {
        let n = chars_of(name);
        let mut i: usize = 0;
        while i < self.functions.len()
            invariant
                i <= self.functions@.len(),
                n@ == name@,
                forall|j: int| 0 <= j < i ==> #[trigger] self@[j].name != name@,
            decreases self.functions.len() - i,
        {
            let existing = chars_of(self.functions[i].name.as_str());
            if chars_eq(existing.as_slice(), n.as_slice()) {
                assert(self@[i as int] == info_view(self.functions@[i as int]));
                return Some(&self.functions[i]);
            }
            i = i + 1;
        }
        None
    }

    /// The number of registered functions.
    pub fn len(&self) -> (n: usize)
        ensures
            n == self@.len(),
    {
        self.functions.len()
    }
}

impl Default for HostFunctionRegistry {
    fn default() -> (r: Self)
        ensures
            r@ == default_functions(),
    {
        Self::new()
    }
}

/// Registering a function under a name that is already taken replaces
/// that function and keeps the count; a new name adds one function.
pub proof fn lemma_register_replaces(fs: Seq<HostFunctionSpec>, f: HostFunctionSpec)
    requires
        names_unique(fs),
    ensures
        names_unique(registered(fs, f)),
        registered(fs, f).contains(f),
        (exists|i: int| 0 <= i < fs.len() && fs[i].name == f.name) ==> registered(fs, f).len() == fs.len(),
        !(exists|i: int| 0 <= i < fs.len() && fs[i].name == f.name) ==> registered(fs, f).len() == fs.len() + 1,
        forall|g: HostFunctionSpec| fs.contains(g) && g.name != f.name ==> registered(fs, f).contains(g),
{
    let r = registered(fs, f);
    if exists|i: int| 0 <= i < fs.len() && fs[i].name == f.name {
        let k = choose|i: int| 0 <= i < fs.len() && fs[i].name == f.name;
        assert(r[k] == f);
        assert forall|a: int, b: int| 0 <= a < b < r.len() implies #[trigger] r[a].name != #[trigger] r[b].name by {
            if a != k && b != k {
                assert(fs[a].name != fs[b].name);
            } else if a == k {
                assert(fs[b].name != fs[k].name);
            } else {
                assert(fs[a].name != fs[k].name);
            }
        }
        assert forall|g: HostFunctionSpec| fs.contains(g) && g.name != f.name implies r.contains(g) by {
            let j = choose|j: int| 0 <= j < fs.len() && fs[j] == g;
            assert(r[j] == g);
        }
    } else {
        assert(r[fs.len() as int] == f);
        assert forall|a: int, b: int| 0 <= a < b < r.len() implies #[trigger] r[a].name != #[trigger] r[b].name by {
            if b == fs.len() {
                assert(fs[a].name != f.name);
            } else {
                assert(fs[a].name != fs[b].name);
            }
        }
        assert forall|g: HostFunctionSpec| fs.contains(g) && g.name != f.name implies r.contains(g) by {
            let j = choose|j: int| 0 <= j < fs.len() && fs[j] == g;
            assert(r[j] == g);
        }
    }
}

} // verus!

//! The fallback interpreter: when no native interpreter can be started,
//! the executor simulates the program by echoing what its print
//! statements print, evaluating calls of the host functions on the way.
use vstd::prelude::*;
use crate::clock::unix_time_nanos;
use crate::types::Language;
use crate::text::{
    contains_exec, contains_seq, is_white_space_char,
    chars_eq, chars_eq_str, ends_with, lemma_find_char, lemma_trim_idempotent, trim_end, trim_start, line_scan, is_white_space, strip_cr, occurs_at, ends_with_exec, find_char, find_char_exec, lines, lines_of,
    slice_vec, starts_with, starts_with_exec, trim, trim_bounds, trimmed, views_of, chars_of, i64_decimal, int_decimal, join, join_strings, nat_decimal, parse_i64,
    parse_i64_exec, push_all, push_str, string_from_chars, string_views, u128_in_base,
};

verus! {

// ---------------------------------------------------------------- numbers

/// The integers among `args`, in order: each argument that parses as an
/// `i64`, the others left out.
pub open spec fn parsed_ints(args: Seq<Seq<char>>) -> Seq<i64>
    decreases args.len(),
{
    if args.len() == 0 {
        seq![]
    } else {
        let rest = parsed_ints(args.drop_last());
        match parse_i64(args.last()) {
            Some(v) => rest.push(v),
            None => rest,
        }
    }
}

/// The Fibonacci numbers, from `fib(0) == 0` and `fib(1) == 1`.
pub open spec fn fib(n: nat) -> nat
    decreases n,
{
    if n == 0 {
        0
    } else if n == 1 {
        1
    } else {
        fib((n - 1) as nat) + fib((n - 2) as nat)
    }
}

pub open spec fn is_prime(n: int) -> bool {
    n > 1 && forall|d: int| 2 <= d < n ==> #[trigger] (n % d) != 0
}

/// The remainder of Rust's `%` on integers: it has the sign of `a` and a
/// magnitude below that of `b`.
pub open spec fn trunc_rem(a: int, b: int) -> int {
    let m = if b < 0 {
        -b
    } else {
        b
    };
    if a < 0 {
        -((-a) % m)
    } else {
        a % m
    }
}

/// The number that `random_int(lo, hi)` picks from the clock reading `t`
/// (nanoseconds since the Unix epoch, taken as an `i64`).
pub open spec fn random_pick(lo: i64, hi: i64, t: u128) -> int {
    let range = hi - lo + 1;
    let seed = (t as i64) as int;
    trunc_rem(trunc_rem(seed, range) + range, range) + lo
}

/// `random_int(lo, hi)` computes without overflow for every clock reading.
pub open spec fn random_range_ok(lo: i64, hi: i64) -> bool {
    let range = hi - lo + 1;
    -0x4000_0000_0000_0000 <= range <= 0x4000_0000_0000_0000 && range != 0 && range != -1
}

/// For a positive modulus, Rust's remainder lies strictly between the
/// negated modulus and the modulus, and is not negative for a dividend
/// that is not negative.
pub proof fn lemma_trunc_rem_bounds(a: int, m: int)
    requires
        m > 0,
    ensures
        -m < trunc_rem(a, m) < m,
        a >= 0 ==> 0 <= trunc_rem(a, m),
{
    if a < 0 {
        vstd::arithmetic::div_mod::lemma_mod_pos_bound(-a, m);
    } else {
        vstd::arithmetic::div_mod::lemma_mod_pos_bound(a, m);
    }
}

/// `random_int(lo, hi)` picks a number from `lo` to `hi`, whatever the
/// clock reads, when `lo <= hi` and the call is defined.
pub proof fn lemma_random_pick_in_range(lo: i64, hi: i64, t: u128)
    requires
        lo <= hi,
        random_range_ok(lo, hi),
    ensures
        lo <= random_pick(lo, hi, t) <= hi,
{
    let range = hi - lo + 1;
    let seed = (t as i64) as int;
    lemma_trunc_rem_bounds(seed, range);
    let x = trunc_rem(seed, range) + range;
    lemma_trunc_rem_bounds(x, range);
}

/// What the host function `f` gives for `args` at clock reading `t`
/// (nanoseconds since the Unix epoch).
pub open spec fn host_eval(f: Seq<char>, args: Seq<Seq<char>>, t: u128) -> Seq<char> {
    let p = parsed_ints(args);
    if f == "add"@ && p.len() >= 2 {
        int_decimal(p[0] + p[1])
    } else if f == "multiply"@ && p.len() >= 2 {
        int_decimal(p[0] * p[1])
    } else if f == "fibonacci"@ && p.len() >= 1 {
        nat_decimal(fib(p[0] as nat))
    } else if f == "is_prime"@ && p.len() >= 1 {
        if is_prime(p[0] as int) {
            "true"@
        } else {
            "false"@
        }
    } else if f == "get_timestamp"@ {
        nat_decimal((t / 1_000_000) as nat)
    } else if f == "random_int"@ && p.len() >= 2 {
        int_decimal(random_pick(p[0], p[1], t))
    } else {
        f + "("@ + join(args, ", "@) + ")"@
    }
}

/// The host call computes without overflow, whatever the clock reads.
pub open spec fn host_call_defined(f: Seq<char>, args: Seq<Seq<char>>) -> bool {
    let p = parsed_ints(args);
    &&& (f == "add"@ && p.len() >= 2) ==> i64::MIN <= p[0] + p[1] <= i64::MAX
    &&& (f == "multiply"@ && p.len() >= 2) ==> i64::MIN <= p[0] * p[1] <= i64::MAX
    &&& (f == "fibonacci"@ && p.len() >= 1) ==> 0 <= p[0] <= 91
    &&& (f == "random_int"@ && p.len() >= 2) ==> random_range_ok(p[0], p[1])
}

fn parse_ints(args: &[String]) -> (p: Vec<i64>)
    ensures
        p@ == parsed_ints(string_views(args@)),
{
    let mut p: Vec<i64> = Vec::new();
    let mut i: usize = 0;
    while i < args.len()
        invariant
            i <= args@.len(),
            p@ == parsed_ints(string_views(args@).take(i as int)),
        decreases args.len() - i,
    {
        let ghost vs = string_views(args@);
        assert(vs.take(i + 1).drop_last() =~= vs.take(i as int));
        assert(vs.take(i + 1).last() == args@[i as int]@);
        let cs = chars_of(args[i].as_str());
        match parse_i64_exec(cs.as_slice()) {
            Some(v) => p.push(v),
            None => {},
        }
        i = i + 1;
    }
    assert(string_views(args@).take(args@.len() as int) =~= string_views(args@));
    p
}

fn fib_exec(n: i64) -> (r: i64)
    requires
        0 <= n <= 91,
    ensures
        r == fib(n as nat),
{
    let mut a: i64 = 0;
    let mut b: i64 = 1;
    let mut k: i64 = 0;
    while k < n
        invariant
            0 <= k <= n <= 91,
            a == fib(k as nat),
            b == fib((k + 1) as nat),
        decreases n - k,
    {
        proof {
            lemma_fib_bound((k + 2) as nat);
        }
        let temp = a + b;
        a = b;
        b = temp;
        k = k + 1;
    }
    a
}

/// `fib(92)`, the largest Fibonacci number that fits in an `i64`.
proof fn lemma_fib_92()
    ensures
        fib(92) == 7540113804746346429,
{
    assert(fib(0) == 0);
    assert(fib(1) == 1);
    assert(fib(2) == 1);
    assert(fib(3) == 2);
    assert(fib(4) == 3);
    assert(fib(5) == 5);
    assert(fib(6) == 8);
    assert(fib(7) == 13);
    assert(fib(8) == 21);
    assert(fib(9) == 34);
    assert(fib(10) == 55);
    assert(fib(11) == 89);
    assert(fib(12) == 144);
    assert(fib(13) == 233);
    assert(fib(14) == 377);
    assert(fib(15) == 610);
    assert(fib(16) == 987);
    assert(fib(17) == 1597);
    assert(fib(18) == 2584);
    assert(fib(19) == 4181);
    assert(fib(20) == 6765);
    assert(fib(21) == 10946);
    assert(fib(22) == 17711);
    assert(fib(23) == 28657);
    assert(fib(24) == 46368);
    assert(fib(25) == 75025);
    assert(fib(26) == 121393);
    assert(fib(27) == 196418);
    assert(fib(28) == 317811);
    assert(fib(29) == 514229);
    assert(fib(30) == 832040);
    assert(fib(31) == 1346269);
    assert(fib(32) == 2178309);
    assert(fib(33) == 3524578);
    assert(fib(34) == 5702887);
    assert(fib(35) == 9227465);
    assert(fib(36) == 14930352);
    assert(fib(37) == 24157817);
    assert(fib(38) == 39088169);
    assert(fib(39) == 63245986);
    assert(fib(40) == 102334155);
    assert(fib(41) == 165580141);
    assert(fib(42) == 267914296);
    assert(fib(43) == 433494437);
    assert(fib(44) == 701408733);
    assert(fib(45) == 1134903170);
    assert(fib(46) == 1836311903);
    assert(fib(47) == 2971215073);
    assert(fib(48) == 4807526976);
    assert(fib(49) == 7778742049);
    assert(fib(50) == 12586269025);
    assert(fib(51) == 20365011074);
    assert(fib(52) == 32951280099);
    assert(fib(53) == 53316291173);
    assert(fib(54) == 86267571272);
    assert(fib(55) == 139583862445);
    assert(fib(56) == 225851433717);
    assert(fib(57) == 365435296162);
    assert(fib(58) == 591286729879);
    assert(fib(59) == 956722026041);
    assert(fib(60) == 1548008755920);
    assert(fib(61) == 2504730781961);
    assert(fib(62) == 4052739537881);
    assert(fib(63) == 6557470319842);
    assert(fib(64) == 10610209857723);
    assert(fib(65) == 17167680177565);
    assert(fib(66) == 27777890035288);
    assert(fib(67) == 44945570212853);
    assert(fib(68) == 72723460248141);
    assert(fib(69) == 117669030460994);
    assert(fib(70) == 190392490709135);
    assert(fib(71) == 308061521170129);
    assert(fib(72) == 498454011879264);
    assert(fib(73) == 806515533049393);
    assert(fib(74) == 1304969544928657);
    assert(fib(75) == 2111485077978050);
    assert(fib(76) == 3416454622906707);
    assert(fib(77) == 5527939700884757);
    assert(fib(78) == 8944394323791464);
    assert(fib(79) == 14472334024676221);
    assert(fib(80) == 23416728348467685);
    assert(fib(81) == 37889062373143906);
    assert(fib(82) == 61305790721611591);
    assert(fib(83) == 99194853094755497);
    assert(fib(84) == 160500643816367088);
    assert(fib(85) == 259695496911122585);
    assert(fib(86) == 420196140727489673);
    assert(fib(87) == 679891637638612258);
    assert(fib(88) == 1100087778366101931);
    assert(fib(89) == 1779979416004714189);
    assert(fib(90) == 2880067194370816120);
    assert(fib(91) == 4660046610375530309);
    assert(fib(92) == 7540113804746346429);
}

pub(crate) proof fn lemma_fib_bound(n: nat)
    requires
        n <= 92,
    ensures
        fib(n) <= 7540113804746346429,
{
    lemma_fib_92();
    lemma_fib_monotone(n, 92);
}

proof fn lemma_fib_monotone(m: nat, n: nat)
    requires
        m <= n,
    ensures
        fib(m) <= fib(n),
    decreases n - m,
{
    if m < n {
        lemma_fib_monotone(m, (n - 1) as nat);
        if n >= 2 {
            assert(fib(n) == fib((n - 1) as nat) + fib((n - 2) as nat));
        }
    }
}

proof fn lemma_small_factor(n: int, d: int)
    requires
        2 <= d < n,
        n % d == 0,
    ensures
        exists|e: int| 2 <= e && e * e <= n && #[trigger] (n % e) == 0,
{
    let q = n / d;
    vstd::arithmetic::div_mod::lemma_fundamental_div_mod(n, d);
    assert(n == d * q);
    if d * d <= n {
        assert(2 <= d && d * d <= n && n % d == 0);
    } else {
        assert(q >= 2) by (nonlinear_arith)
            requires
                n == d * q,
                d < n,
                d >= 2,
        ;
        assert(q * q <= n) by (nonlinear_arith)
            requires
                n == d * q,
                d * d > n,
                q >= 2,
                d >= 2,
        ;
        vstd::arithmetic::div_mod::lemma_mod_multiples_basic(d, q);
        assert((d * q) % q == 0);
        assert(2 <= q && q * q <= n && n % q == 0);
    }
}

pub(crate) fn is_prime_exec(n: i64) -> (r: bool)
    ensures
        r == is_prime(n as int),
{
    if n <= 1 {
        return false;
    }
    let mut i: i64 = 2;
    while i <= n / i
        invariant
            2 <= i,
            n > 1,
            forall|d: int| 2 <= d < i ==> #[trigger] ((n as int) % d) != 0,
            (i - 1) * (i - 1) <= n,
        decreases n - i,
    {
        assert(i * i <= n) by (nonlinear_arith)
            requires
                i <= n / i,
                i >= 2,
                n > 1,
        ;
        assert(2 <= i < n) by (nonlinear_arith)
            requires
                i * i <= n,
                i >= 2,
        ;
        if n % i == 0 {
            return false;
        }
        i = i + 1;
    }
    proof {
        assert(i * i > n) by (nonlinear_arith)
            requires
                i > n / i,
                i >= 2,
                n > 1,
        ;
        assert forall|d: int| 2 <= d < n implies #[trigger] ((n as int) % d) != 0 by {
            if (n as int) % d == 0 {
                lemma_small_factor(n as int, d);
                let e = choose|e: int| 2 <= e && e * e <= n && #[trigger] ((n as int) % e) == 0;
                assert(e < i) by (nonlinear_arith)
                    requires
                        e * e <= n,
                        i * i > n,
                        e >= 2,
                        i >= 2,
                ;
            }
        }
    }
    true
}

fn rem_exec(a: i64, b: i64) -> (r: i64)
    requires
        b != 0,
        !(a == i64::MIN && b == -1),
    ensures
        r == trunc_rem(a as int, b as int),
{
    let ua: u128 = if a < 0 {
        (0i128 - a as i128) as u128
    } else {
        a as u128
    };
    let ub: u128 = if b < 0 {
        (0i128 - b as i128) as u128
    } else {
        b as u128
    };
    let m = ua % ub;
    if a < 0 {
        (0i128 - m as i128) as i64
    } else {
        m as i64
    }
}

fn random_pick_exec(lo: i64, hi: i64, t: u128) -> (r: i64)
    requires
        random_range_ok(lo, hi),
    ensures
        r == random_pick(lo, hi, t),
{
    let seed = t as i64;
    let range = hi - lo + 1;
    let r1 = rem_exec(seed, range);
    let x = r1 + range;
    assert(x != 0 || range > 0);
    let r2 = rem_exec(x, range);
    r2 + lo
}

/// What the host function `func_name` gives for `args` at the clock
/// reading `now_nanos` (nanoseconds since the Unix epoch).
pub fn evaluate_host_function_at(func_name: &str, args: &[String], now_nanos: u128) -> (r: String)
    requires
        host_call_defined(func_name@, string_views(args@)),
    ensures
        r@ == host_eval(func_name@, string_views(args@), now_nanos),
{
    let f = chars_of(func_name);
    let p = parse_ints(args);
    let out: Vec<char> = if chars_eq_str(f.as_slice(), "add") && p.len() >= 2 {
        i64_decimal(p[0] + p[1])
    } else if chars_eq_str(f.as_slice(), "multiply") && p.len() >= 2 {
        i64_decimal(p[0] * p[1])
    } else if chars_eq_str(f.as_slice(), "fibonacci") && p.len() >= 1 {
        let v = fib_exec(p[0]);
        i64_decimal(v)
    } else if chars_eq_str(f.as_slice(), "is_prime") && p.len() >= 1 {
        if is_prime_exec(p[0]) {
            chars_of("true")
        } else {
            chars_of("false")
        }
    } else if chars_eq_str(f.as_slice(), "get_timestamp") {
        u128_in_base(now_nanos / 1_000_000, 10)
    } else if chars_eq_str(f.as_slice(), "random_int") && p.len() >= 2 {
        let v = random_pick_exec(p[0], p[1], now_nanos);
        i64_decimal(v)
    } else {
        let mut o = f.clone();
        push_str(&mut o, "(");
        let joined = join_strings(args, ", ");
        push_all(&mut o, joined.as_slice());
        push_str(&mut o, ")");
        o
    };
    string_from_chars(out.as_slice())
}

/// Evaluates a call of the host function `func_name` on `args`, reading
/// the system clock for `get_timestamp` and `random_int`.
pub fn evaluate_host_function(func_name: &str, args: &[String]) -> (r: String)
    requires
        host_call_defined(func_name@, string_views(args@)),
    ensures
        exists|t: u128| r@ == host_eval(func_name@, string_views(args@), t),
{
    let t = unix_time_nanos();
    evaluate_host_function_at(func_name, args, t)
}


// ---------------------------------------------------------------- calls

/// The state of the argument scanner after reading a prefix: the finished
/// arguments, the argument being read, whether a quoted string is open and
/// with which quote, and the bracket depth.
pub struct ArgScan {
    pub args: Seq<Seq<char>>,
    pub current: Seq<char>,
    pub in_string: bool,
    pub quote: char,
    pub depth: int,
}

/// Reads one character: quotes open and close strings (and are dropped),
/// brackets change the depth, and a comma outside strings and brackets
/// ends an argument, which is kept trimmed.
pub open spec fn arg_step(st: ArgScan, c: char) -> ArgScan {
    if st.in_string {
        if c == st.quote {
            ArgScan { in_string: false, ..st }
        } else {
            ArgScan { current: st.current.push(c), ..st }
        }
    } else if c == '"' || c == '\'' {
        ArgScan { in_string: true, quote: c, ..st }
    } else if c == '(' || c == '[' {
        ArgScan { depth: st.depth + 1, current: st.current.push(c), ..st }
    } else if c == ')' || c == ']' {
        ArgScan { depth: st.depth - 1, current: st.current.push(c), ..st }
    } else if c == ',' && st.depth == 0 {
        ArgScan { args: st.args.push(trim(st.current)), current: seq![], ..st }
    } else {
        ArgScan { current: st.current.push(c), ..st }
    }
}

pub open spec fn arg_scan(s: Seq<char>) -> ArgScan
    decreases s.len(),
{
    if s.len() == 0 {
        ArgScan { args: seq![], current: seq![], in_string: false, quote: ' ', depth: 0 }
    } else {
        arg_step(arg_scan(s.drop_last()), s.last())
    }
}

/// The arguments of a call's argument list: split at top-level commas,
/// quotes removed, each trimmed; a last argument that is empty once
/// trimmed is dropped.
pub open spec fn split_args(s: Seq<char>) -> Seq<Seq<char>> {
    let st = arg_scan(s);
    if trim(st.current).len() > 0 {
        st.args.push(trim(st.current))
    } else {
        st.args
    }
}

proof fn lemma_arg_scan_trimmed(s: Seq<char>)
    ensures
        forall|i: int| 0 <= i < arg_scan(s).args.len() ==> trim(#[trigger] arg_scan(s).args[i]) == arg_scan(s).args[i],
    decreases s.len(),
{
    if s.len() > 0 {
        lemma_arg_scan_trimmed(s.drop_last());
        let st = arg_scan(s.drop_last());
        lemma_trim_idempotent(st.current);
    }
}

/// Every argument that the splitter gives is trimmed.
pub proof fn lemma_split_args_trimmed(s: Seq<char>)
    ensures
        forall|i: int| 0 <= i < split_args(s).len() ==> trim(#[trigger] split_args(s)[i]) == split_args(s)[i],
{
    lemma_arg_scan_trimmed(s);
    lemma_trim_idempotent(arg_scan(s).current);
}

/// The bracket depth stays within `i32` while the arguments are read.
pub open spec fn args_depth_fits(s: Seq<char>) -> bool {
    forall|k: int| 0 <= k <= s.len() ==> i32::MIN <= #[trigger] arg_scan(s.take(k)).depth <= i32::MAX
}

/// Splits an argument list into arguments.
pub fn parse_args(args_str: &str) -> (r: Vec<String>)
    requires
        args_depth_fits(args_str@),
    ensures
        string_views(r@) == split_args(args_str@),
{
    let cs = chars_of(args_str);
    parse_args_chars(cs.as_slice())
}

fn parse_args_chars(s: &[char]) -> (r: Vec<String>)
    requires
        args_depth_fits(s@),
    ensures
        string_views(r@) == split_args(s@),
{
    let mut args: Vec<String> = Vec::new();
    let mut current: Vec<char> = Vec::new();
    let mut in_string = false;
    let mut string_char = ' ';
    let mut depth: i32 = 0;
    let mut i: usize = 0;
    assert(s@.take(0) =~= Seq::<char>::empty());
    assert(string_views(args@) =~= Seq::<Seq<char>>::empty());
    assert(current@ =~= Seq::<char>::empty());
    while i < s.len()
        invariant
            i <= s@.len(),
            args_depth_fits(s@),
            arg_scan(s@.take(i as int)) == (ArgScan {
                args: string_views(args@),
                current: current@,
                in_string,
                quote: string_char,
                depth: depth as int,
            }),
        decreases s.len() - i,
    {
        let c = s[i];
        assert(s@.take(i + 1).drop_last() =~= s@.take(i as int));
        assert(s@.take(i + 1).last() == c);
        proof {
            assert(i32::MIN <= arg_scan(s@.take(i + 1)).depth <= i32::MAX);
        }
        if in_string {
            if c == string_char {
                in_string = false;
            } else {
                current.push(c);
            }
        } else if c == '"' || c == '\'' {
            in_string = true;
            string_char = c;
        } else if c == '(' || c == '[' {
            depth = depth + 1;
            current.push(c);
        } else if c == ')' || c == ']' {
            depth = depth - 1;
            current.push(c);
        } else if c == ',' && depth == 0 {
            let t = trimmed(current.as_slice());
            let ghost before = args@;
            args.push(string_from_chars(t.as_slice()));
            assert(string_views(args@) =~= string_views(before).push(t@));
            current = Vec::new();
        } else {
            current.push(c);
        }
        i = i + 1;
    }
    assert(s@.take(s@.len() as int) =~= s@);
    let t = trimmed(current.as_slice());
    if t.len() > 0 {
        let ghost before = args@;
        args.push(string_from_chars(t.as_slice()));
        assert(string_views(args@) =~= string_views(before).push(t@));
    }
    args
}

/// A call `name(args)`: the expression, trimmed, holds a `(` and ends with
/// `)`; the name is what stands before the first `(`, trimmed, and the
/// arguments are what stands between it and the last character.
pub open spec fn split_call(expr: Seq<char>) -> Option<(Seq<char>, Seq<char>)> {
    let e = trim(expr);
    match find_char(e, '(') {
        Some(p) => if ends_with(e, ")"@) {
            Some((trim(e.subrange(0, p)), e.subrange(p + 1, e.len() - 1)))
        } else {
            None
        },
        None => None,
    }
}

/// The call that `expr` writes, with its arguments split.
pub open spec fn function_call(expr: Seq<char>) -> Option<(Seq<char>, Seq<Seq<char>>)> {
    match split_call(expr) {
        Some((name, args)) => Some((name, split_args(args))),
        None => None,
    }
}

/// Reading `expr` as a call keeps the bracket depth within `i32`.
pub open spec fn call_depth_fits(expr: Seq<char>) -> bool {
    match split_call(expr) {
        Some((_, args)) => args_depth_fits(args),
        None => true,
    }
}

proof fn lemma_find_before_end(e: Seq<char>, p: int)
    requires
        find_char(e, '(') == Some(p),
        ends_with(e, ")"@),
    ensures
        0 <= p < e.len() - 1,
{
    reveal_strlit(")");
    lemma_find_char(e, '(');
    assert(")"@.len() == 1);
    assert(e.subrange(e.len() - 1, e.len() as int)[0] == ")"@[0]);
}

fn function_call_chars(expr: &[char]) -> (r: Option<(Vec<char>, Vec<String>)>)
    requires
        call_depth_fits(expr@),
    ensures
        match (r, function_call(expr@)) {
            (Some((n, a)), Some((sn, sa))) => n@ == sn && string_views(a@) == sa,
            (None, None) => true,
            _ => false,
        },
{
    let (lo, hi) = trim_bounds(expr);
    let e = slice_vec(expr, lo, hi);
    match find_char_exec(e.as_slice(), '(') {
        Some(p) => {
            let close = chars_of(")");
            if ends_with_exec(e.as_slice(), close.as_slice()) {
                proof {
                    lemma_find_before_end(e@, p as int);
                }
                let before = slice_vec(e.as_slice(), 0, p);
                let name = trimmed(before.as_slice());
                let inner = slice_vec(e.as_slice(), p + 1, e.len() - 1);
                let args = parse_args_chars(inner.as_slice());
                Some((name, args))
            } else {
                None
            }
        },
        None => None,
    }
}

/// Reads `expr` as a call of a named function.
pub fn parse_function_call(expr: &str) -> (r: Option<(String, Vec<String>)>)
    requires
        call_depth_fits(expr@),
    ensures
        match (r, function_call(expr@)) {
            (Some((n, a)), Some((sn, sa))) => n@ == sn && string_views(a@) == sa,
            (None, None) => true,
            _ => false,
        },
{
    let cs = chars_of(expr);
    match function_call_chars(cs.as_slice()) {
        Some((n, a)) => Some((string_from_chars(n.as_slice()), a)),
        None => None,
    }
}


// ---------------------------------------------------------------- simulation

/// How a print statement starts in each language.
pub open spec fn print_prefix(l: Language) -> Seq<char> {
    match l {
        Language::Python => "print("@,
        Language::JavaScript => "console.log("@,
        Language::Ruby => "puts "@,
    }
}

/// How a print statement ends in each language.
pub open spec fn print_suffix(l: Language) -> Seq<char> {
    match l {
        Language::Python => ")"@,
        Language::JavaScript => ")"@,
        Language::Ruby => seq![],
    }
}

/// The characters that quote a string literal in each language.
pub open spec fn quote_chars(l: Language) -> Seq<char> {
    match l {
        Language::JavaScript => seq!['"', '\'', '`'],
        _ => seq!['"', '\''],
    }
}

/// What the simulation prints for a program that prints nothing.
pub open spec fn quiet_message(l: Language) -> Seq<char> {
    match l {
        Language::Python => "Code executed successfully in WASI sandbox (Python)\n"@,
        Language::JavaScript => "Code executed successfully in WASI sandbox (JavaScript)\n"@,
        Language::Ruby => "Code executed successfully in WASI sandbox (Ruby)\n"@,
    }
}

/// What a line prints, if it is a print statement: the line, trimmed,
/// is the prefix, the printed expression, then the suffix.
pub open spec fn printed_expr(l: Language, line: Seq<char>) -> Option<Seq<char>> {
    let t = trim(line);
    let p = print_prefix(l);
    let q = print_suffix(l);
    if starts_with(t, p) && ends_with(t, q) && t.len() >= p.len() + q.len() {
        Some(t.subrange(p.len() as int, t.len() - q.len()))
    } else {
        None
    }
}

/// The expression starts and ends with the same quote character.
pub open spec fn is_quoted(l: Language, e: Seq<char>) -> bool {
    e.len() >= 1 && quote_chars(l).contains(e[0]) && e.last() == e[0]
}

/// What one line prints at clock reading `t`: a quoted literal prints
/// without its quotes, a call of a host function prints its result, and
/// any other expression prints as written; each is followed by a newline.
/// Lines that are not print statements print nothing.
pub open spec fn line_output(l: Language, line: Seq<char>, t: u128) -> Seq<char> {
    match printed_expr(l, line) {
        None => seq![],
        Some(e) => (if is_quoted(l, e) {
            e.subrange(1, e.len() - 1)
        } else {
            match function_call(e) {
                Some((f, a)) => host_eval(f, a, t),
                None => e,
            }
        }) + seq!['\n'],
    }
}

/// Simulating the line computes without a panic or an overflow: a quoted
/// literal has both quotes, and a host call is defined.
pub open spec fn line_defined(l: Language, line: Seq<char>) -> bool {
    match printed_expr(l, line) {
        None => true,
        Some(e) => if is_quoted(l, e) {
            e.len() >= 2
        } else {
            &&& call_depth_fits(e)
            &&& match function_call(e) {
                Some((f, a)) => host_call_defined(f, a),
                None => true,
            }
        },
    }
}

/// What the lines `ls` print, line `i` at clock reading `ts[i]`.
pub open spec fn lines_output(l: Language, ls: Seq<Seq<char>>, ts: Seq<u128>) -> Seq<char>
    decreases ls.len(),
{
    if ls.len() == 0 {
        seq![]
    } else {
        lines_output(l, ls.drop_last(), ts) + line_output(l, ls.last(), ts[ls.len() - 1])
    }
}

/// What the simulation of `code` prints, line `i` being simulated at clock
/// reading `ts[i]`.
pub open spec fn simulation(l: Language, code: Seq<char>, ts: Seq<u128>) -> Seq<char> {
    let o = lines_output(l, lines(code), ts);
    if o.len() == 0 {
        quiet_message(l)
    } else {
        o
    }
}

/// Every line of `code` simulates without a panic or an overflow.
pub open spec fn simulation_defined(l: Language, code: Seq<char>) -> bool {
    forall|i: int| 0 <= i < lines(code).len() ==> line_defined(l, #[trigger] lines(code)[i])
}

proof fn lemma_line_scan_no_newline(x: Seq<char>)
    requires
        forall|i: int| 0 <= i < x.len() ==> x[i] != '\n',
    ensures
        line_scan(x) == (Seq::<Seq<char>>::empty(), x),
    decreases x.len(),
{
    if x.len() > 0 {
        lemma_line_scan_no_newline(x.drop_last());
        assert(x.drop_last().push(x.last()) =~= x);
    }
}

/// The print line `prefix q s q suffix` of `l`, with `q` a quote of `l`,
/// prints `s` and a newline.
proof fn lemma_quoted_print_line(l: Language, qc: char, s: Seq<char>, ts: Seq<u128>)
    requires
        qc == '"' || qc == '\'' || (qc == '`' && l == Language::JavaScript),
        forall|i: int| 0 <= i < s.len() ==> s[i] != '\n',
    ensures
        simulation(l, print_prefix(l) + seq![qc] + s + seq![qc] + print_suffix(l), ts) == s + seq!['\n'],
{
    reveal_strlit("print(");
    reveal_strlit("console.log(");
    reveal_strlit("puts ");
    reveal_strlit(")");
    let p = print_prefix(l);
    let q = print_suffix(l);
    let e = seq![qc] + s + seq![qc];
    let c = p + e + q;
    assert(c =~= print_prefix(l) + seq![qc] + s + seq![qc] + print_suffix(l));
    // The line holds no line break, so it is the program's only line.
    assert forall|i: int| 0 <= i < c.len() implies c[i] != '\n' by {
        if i < p.len() {
            assert(c[i] == p[i]);
        } else if i < p.len() + e.len() {
            assert(c[i] == e[i - p.len()]);
            if 1 <= i - p.len() < e.len() - 1 {
                assert(e[i - p.len()] == s[i - p.len() - 1]);
            }
        } else {
            assert(c[i] == q[i - p.len() - e.len()]);
        }
    }
    lemma_line_scan_no_newline(c);
    assert(lines(c) == seq![c]);
    // It starts and ends with characters that are not white space.
    assert(c[0] == p[0]);
    assert(!is_white_space(c[0]));
    assert(c.last() == if q.len() > 0 { q.last() } else { qc });
    assert(!is_white_space(c.last()));
    assert(trim_start(c) == c);
    assert(trim_end(c) == c);
    assert(trim(c) == c);
    assert(c.subrange(0, p.len() as int) =~= p);
    assert(c.subrange(c.len() - q.len(), c.len() as int) =~= q);
    assert(starts_with(c, p));
    assert(ends_with(c, q));
    assert(c.subrange(p.len() as int, c.len() - q.len()) =~= e);
    assert(printed_expr(l, c) == Some(e));
    if qc == '"' {
        assert(quote_chars(l)[0] == qc);
    } else if qc == '\'' {
        assert(quote_chars(l)[1] == qc);
    } else {
        assert(quote_chars(l)[2] == qc);
    }
    assert(quote_chars(l).contains(qc));
    assert(is_quoted(l, e));
    assert(e.subrange(1, e.len() - 1) =~= s);
    assert(line_output(l, c, ts[0]) == s + seq!['\n']);
    let ls = lines(c);
    assert(ls.drop_last() =~= Seq::<Seq<char>>::empty());
    assert(lines_output(l, ls.drop_last(), ts) == Seq::<char>::empty());
    assert(lines_output(l, ls, ts) =~= s + seq!['\n']);
}

/// A print line whose expression is a literal in double quotes prints the
/// literal without its quotes, in every language: for a text `s` with no
/// line break, `puts "s"`, `print("s")` and `console.log("s")` print `s`
/// and a newline.
pub proof fn lemma_double_quoted_print(s: Seq<char>, ts: Seq<u128>)
    requires
        forall|i: int| 0 <= i < s.len() ==> s[i] != '\n',
    ensures
        simulation(Language::Ruby, "puts \""@ + s + "\""@, ts) == s + "\n"@,
        simulation(Language::Python, "print(\""@ + s + "\")"@, ts) == s + "\n"@,
        simulation(Language::JavaScript, "console.log(\""@ + s + "\")"@, ts) == s + "\n"@,
{
    reveal_strlit("puts \"");
    reveal_strlit("\"");
    reveal_strlit("print(\"");
    reveal_strlit("\")");
    reveal_strlit("console.log(\"");
    reveal_strlit("\n");
    reveal_strlit("print(");
    reveal_strlit("console.log(");
    reveal_strlit("puts ");
    reveal_strlit(")");
    lemma_quoted_print_line(Language::Ruby, '"', s, ts);
    lemma_quoted_print_line(Language::Python, '"', s, ts);
    lemma_quoted_print_line(Language::JavaScript, '"', s, ts);
    assert("puts \""@ + s + "\""@ =~= print_prefix(Language::Ruby) + seq!['"'] + s + seq!['"'] + print_suffix(Language::Ruby));
    assert("print(\""@ + s + "\")"@ =~= print_prefix(Language::Python) + seq!['"'] + s + seq!['"'] + print_suffix(Language::Python));
    assert("console.log(\""@ + s + "\")"@ =~= print_prefix(Language::JavaScript) + seq!['"'] + s + seq!['"'] + print_suffix(Language::JavaScript));
    assert("\n"@ =~= seq!['\n']);
}

/// Likewise for a literal in single quotes, in every language, and for a
/// template literal in backticks in JavaScript: `puts 's'`, `print('s')`,
/// `console.log('s')` and ``console.log(`s`)`` print `s` and a newline.
pub proof fn lemma_single_quoted_print(s: Seq<char>, ts: Seq<u128>)
    requires
        forall|i: int| 0 <= i < s.len() ==> s[i] != '\n',
    ensures
        simulation(Language::Ruby, "puts '"@ + s + "'"@, ts) == s + "\n"@,
        simulation(Language::Python, "print('"@ + s + "')"@, ts) == s + "\n"@,
        simulation(Language::JavaScript, "console.log('"@ + s + "')"@, ts) == s + "\n"@,
        simulation(Language::JavaScript, "console.log(`"@ + s + "`)"@, ts) == s + "\n"@,
{
    reveal_strlit("puts '");
    reveal_strlit("'");
    reveal_strlit("print('");
    reveal_strlit("')");
    reveal_strlit("console.log('");
    reveal_strlit("console.log(`");
    reveal_strlit("`)");
    reveal_strlit("\n");
    reveal_strlit("print(");
    reveal_strlit("console.log(");
    reveal_strlit("puts ");
    reveal_strlit(")");
    lemma_quoted_print_line(Language::Ruby, '\'', s, ts);
    lemma_quoted_print_line(Language::Python, '\'', s, ts);
    lemma_quoted_print_line(Language::JavaScript, '\'', s, ts);
    lemma_quoted_print_line(Language::JavaScript, '`', s, ts);
    assert("puts '"@ + s + "'"@ =~= print_prefix(Language::Ruby) + seq!['\''] + s + seq!['\''] + print_suffix(Language::Ruby));
    assert("print('"@ + s + "')"@ =~= print_prefix(Language::Python) + seq!['\''] + s + seq!['\''] + print_suffix(Language::Python));
    assert("console.log('"@ + s + "')"@ =~= print_prefix(Language::JavaScript) + seq!['\''] + s + seq!['\''] + print_suffix(Language::JavaScript));
    assert("console.log(`"@ + s + "`)"@ =~= print_prefix(Language::JavaScript) + seq!['`'] + s + seq!['`'] + print_suffix(Language::JavaScript));
    assert("\n"@ =~= seq!['\n']);
}

proof fn lemma_lines_output_empty(l: Language, ls: Seq<Seq<char>>, ts: Seq<u128>)
    ensures
        lines_output(l, ls, ts).len() == 0 <==> forall|i: int| 0 <= i < ls.len() ==> #[trigger] printed_expr(l, ls[i]) is None,
    decreases ls.len(),
{
    if ls.len() > 0 {
        lemma_lines_output_empty(l, ls.drop_last(), ts);
        let rest = ls.drop_last();
        if forall|i: int| 0 <= i < ls.len() ==> #[trigger] printed_expr(l, ls[i]) is None {
            assert forall|i: int| 0 <= i < rest.len() implies #[trigger] printed_expr(l, rest[i]) is None by {
                assert(rest[i] == ls[i]);
            }
        }
        if forall|i: int| 0 <= i < rest.len() ==> #[trigger] printed_expr(l, rest[i]) is None {
            if printed_expr(l, ls.last()) is None {
                assert forall|i: int| 0 <= i < ls.len() implies #[trigger] printed_expr(l, ls[i]) is None by {
                    if i < rest.len() {
                        assert(rest[i] == ls[i]);
                    }
                }
            }
        }
    }
}

/// The simulation prints the quiet message exactly for a program with no
/// print statement; otherwise it prints what its print statements print,
/// each followed by a newline.
pub proof fn lemma_simulation_quiet(l: Language, code: Seq<char>, ts: Seq<u128>)
    ensures
        (forall|i: int| 0 <= i < lines(code).len() ==> #[trigger] printed_expr(l, lines(code)[i]) is None)
            ==> simulation(l, code, ts) == quiet_message(l),
        (exists|i: int| 0 <= i < lines(code).len() && #[trigger] printed_expr(l, lines(code)[i]) is Some)
            ==> simulation(l, code, ts) == lines_output(l, lines(code), ts) && simulation(l, code, ts).len() > 0,
{
    lemma_lines_output_empty(l, lines(code), ts);
}

proof fn lemma_lines_output_extend(l: Language, ls: Seq<Seq<char>>, ts: Seq<u128>, t: u128)
    requires
        ts.len() >= ls.len(),
    ensures
        lines_output(l, ls, ts.push(t)) == lines_output(l, ls, ts),
    decreases ls.len(),
{
    if ls.len() > 0 {
        lemma_lines_output_extend(l, ls.drop_last(), ts, t);
    }
}

fn prefix_chars(l: Language) -> (r: Vec<char>)
    ensures
        r@ == print_prefix(l),
{
    match l {
        Language::Python => chars_of("print("),
        Language::JavaScript => chars_of("console.log("),
        Language::Ruby => chars_of("puts "),
    }
}

fn suffix_chars(l: Language) -> (r: Vec<char>)
    ensures
        r@ == print_suffix(l),
{
    match l {
        Language::Ruby => Vec::new(),
        _ => chars_of(")"),
    }
}

fn is_quote_char(l: Language, c: char) -> (b: bool)
    ensures
        b == quote_chars(l).contains(c),
{
    let q = c == '"' || c == '\'' || (c == '`' && l == Language::JavaScript);
    proof {
        let qs = quote_chars(l);
        if q {
            if c == '"' {
                assert(qs[0] == c);
            } else if c == '\'' {
                assert(qs[1] == c);
            } else {
                assert(qs[2] == c);
            }
        } else {
            assert forall|i: int| 0 <= i < qs.len() implies qs[i] != c by {}
        }
    }
    q
}

fn quiet_message_string(l: Language) -> (r: String)
    ensures
        r@ == quiet_message(l),
{
    match l {
        Language::Python => String::from_str("Code executed successfully in WASI sandbox (Python)\n"),
        Language::JavaScript => String::from_str(
            "Code executed successfully in WASI sandbox (JavaScript)\n",
        ),
        Language::Ruby => String::from_str("Code executed successfully in WASI sandbox (Ruby)\n"),
    }
}

fn printed_expr_exec(l: Language, line: &[char]) -> (r: Option<Vec<char>>)
    ensures
        match (r, printed_expr(l, line@)) {
            (Some(e), Some(se)) => e@ == se,
            (None, None) => true,
            _ => false,
        },
{
    let t = trimmed(line);
    let p = prefix_chars(l);
    let q = suffix_chars(l);
    if starts_with_exec(t.as_slice(), p.as_slice()) && ends_with_exec(t.as_slice(), q.as_slice())
        && t.len() - p.len() >= q.len() {
        Some(slice_vec(t.as_slice(), p.len(), t.len() - q.len()))
    } else {
        None
    }
}

fn line_output_exec(l: Language, line: &[char]) -> (r: Vec<char>)
    requires
        line_defined(l, line@),
    ensures
        exists|t: u128| r@ == line_output(l, line@, t),
{
    match printed_expr_exec(l, line) {
        None => {
            let r: Vec<char> = Vec::new();
            assert(r@ =~= line_output(l, line@, 0));
            r
        },
        Some(e) => {
            let quoted = e.len() >= 1 && is_quote_char(l, e[0]) && e[e.len() - 1] == e[0];
            let mut out: Vec<char>;
            if quoted {
                out = slice_vec(e.as_slice(), 1, e.len() - 1);
                out.push('\n');
                assert(out@ =~= line_output(l, line@, 0));
            } else {
                match function_call_chars(e.as_slice()) {
                    Some((f, a)) => {
                        let fname = string_from_chars(f.as_slice());
                        let v = evaluate_host_function(fname.as_str(), a.as_slice());
                        let ghost t = choose|t: u128| v@ == host_eval(fname@, string_views(a@), t);
                        out = chars_of(v.as_str());
                        out.push('\n');
                        assert(out@ =~= line_output(l, line@, t));
                    },
                    None => {
                        out = e;
                        let ghost e0 = out@;
                        out.push('\n');
                        assert(out@ =~= line_output(l, line@, 0));
                    },
                }
            }
            out
        },
    }
}

fn simulate(l: Language, code: &str) -> (r: String)
    requires
        simulation_defined(l, code@),
    ensures
        exists|ts: Seq<u128>| r@ == simulation(l, code@, ts),
{
    let cs = chars_of(code);
    let ls = lines_of(cs.as_slice());
    let mut out: Vec<char> = Vec::new();
    let ghost mut ts: Seq<u128> = seq![];
    let mut i: usize = 0;
    while i < ls.len()
        invariant
            i <= ls@.len(),
            views_of(ls@) == lines(code@),
            simulation_defined(l, code@),
            ts.len() == i,
            out@ == lines_output(l, views_of(ls@).take(i as int), ts),
        decreases ls.len() - i,
    {
        let ghost vs = views_of(ls@);
        assert(vs[i as int] == ls@[i as int]@);
        assert(line_defined(l, vs[i as int]));
        let o = line_output_exec(l, ls[i].as_slice());
        let ghost t = choose|t: u128| o@ == line_output(l, ls@[i as int]@, t);
        proof {
            lemma_lines_output_extend(l, vs.take(i as int), ts, t);
            assert(vs.take(i + 1).drop_last() =~= vs.take(i as int));
            ts = ts.push(t);
        }
        push_all(&mut out, o.as_slice());
        i = i + 1;
    }
    assert(views_of(ls@).take(ls@.len() as int) =~= views_of(ls@));
    let r = if out.len() == 0 {
        quiet_message_string(l)
    } else {
        string_from_chars(out.as_slice())
    };
    assert(r@ == simulation(l, code@, ts));
    r
}

/// Simulates a Python program: every `print(...)` line prints.
pub fn simulate_python(code: &str) -> (r: String)
    requires
        simulation_defined(Language::Python, code@),
    ensures
        exists|ts: Seq<u128>| r@ == simulation(Language::Python, code@, ts),
{
    simulate(Language::Python, code)
}

/// Simulates a JavaScript program: every `console.log(...)` line prints.
pub fn simulate_javascript(code: &str) -> (r: String)
    requires
        simulation_defined(Language::JavaScript, code@),
    ensures
        exists|ts: Seq<u128>| r@ == simulation(Language::JavaScript, code@, ts),
{
    simulate(Language::JavaScript, code)
}

/// Simulates a Ruby program: every `puts ...` line prints.
pub fn simulate_ruby(code: &str) -> (r: String)
    requires
        simulation_defined(Language::Ruby, code@),
    ensures
        exists|ts: Seq<u128>| r@ == simulation(Language::Ruby, code@, ts),
{
    simulate(Language::Ruby, code)
}


// ---------------------------------------------------------------- checks

fn arg_depths_fit_exec(s: &[char]) -> (b: bool)
    ensures
        b == args_depth_fits(s@),
{
    let mut in_string = false;
    let mut quote = ' ';
    let mut depth: i64 = 0;
    let mut i: usize = 0;
    assert(s@.take(0) =~= Seq::<char>::empty());
    while i < s.len()
        invariant
            i <= s@.len(),
            -(i as int) <= depth <= i,
            arg_scan(s@.take(i as int)).in_string == in_string,
            arg_scan(s@.take(i as int)).quote == quote,
            arg_scan(s@.take(i as int)).depth == depth as int,
            forall|k: int| 0 <= k <= i ==> i32::MIN <= #[trigger] arg_scan(s@.take(k)).depth <= i32::MAX,
        decreases s.len() - i,
    {
        let c = s[i];
        assert(s@.take(i + 1).drop_last() =~= s@.take(i as int));
        assert(s@.take(i + 1).last() == c);
        if in_string {
            if c == quote {
                in_string = false;
            }
        } else if c == '"' || c == '\'' {
            in_string = true;
            quote = c;
        } else if c == '(' || c == '[' {
            depth = depth + 1;
        } else if c == ')' || c == ']' {
            depth = depth - 1;
        }
        if depth < i32::MIN as i64 || depth > i32::MAX as i64 {
            assert(!(i32::MIN <= arg_scan(s@.take(i + 1)).depth <= i32::MAX));
            return false;
        }
        i = i + 1;
    }
    assert(s@.take(s@.len() as int) =~= s@);
    true
}

fn host_call_defined_exec(f: &[char], args: &[String]) -> (b: bool)
    ensures
        b == host_call_defined(f@, string_views(args@)),
{
    let p = parse_ints(args);
    if chars_eq_str(f, "add") && p.len() >= 2 {
        let v = p[0] as i128 + p[1] as i128;
        if v < i64::MIN as i128 || v > i64::MAX as i128 {
            return false;
        }
    }
    if chars_eq_str(f, "multiply") && p.len() >= 2 {
        assert((p[0] as int) * (p[1] as int) <= 0x4000_0000_0000_0000_0000_0000_0000_0000)
            by (nonlinear_arith)
            requires
                i64::MIN <= p[0] <= i64::MAX,
                i64::MIN <= p[1] <= i64::MAX,
        ;
        assert((p[0] as int) * (p[1] as int) >= -0x4000_0000_0000_0000_0000_0000_0000_0000)
            by (nonlinear_arith)
            requires
                i64::MIN <= p[0] <= i64::MAX,
                i64::MIN <= p[1] <= i64::MAX,
        ;
        let v = p[0] as i128 * p[1] as i128;
        if v < i64::MIN as i128 || v > i64::MAX as i128 {
            return false;
        }
    }
    if chars_eq_str(f, "fibonacci") && p.len() >= 1 {
        if p[0] < 0 || p[0] > 91 {
            return false;
        }
    }
    if chars_eq_str(f, "random_int") && p.len() >= 2 {
        let range = p[1] as i128 - p[0] as i128 + 1;
        if range < -0x4000_0000_0000_0000 || range > 0x4000_0000_0000_0000 || range == 0 || range
            == -1 {
            return false;
        }
    }
    true
}

fn call_depth_fits_exec(e: &[char]) -> (b: bool)
    ensures
        b == call_depth_fits(e@),
{
    let (lo, hi) = trim_bounds(e);
    let t = slice_vec(e, lo, hi);
    match find_char_exec(t.as_slice(), '(') {
        Some(p) => {
            let close = chars_of(")");
            if ends_with_exec(t.as_slice(), close.as_slice()) {
                proof {
                    lemma_find_before_end(t@, p as int);
                }
                let inner = slice_vec(t.as_slice(), p + 1, t.len() - 1);
                arg_depths_fit_exec(inner.as_slice())
            } else {
                true
            }
        },
        None => true,
    }
}

fn line_defined_exec(l: Language, line: &[char]) -> (b: bool)
    ensures
        b == line_defined(l, line@),
{
    match printed_expr_exec(l, line) {
        None => true,
        Some(e) => {
            let quoted = e.len() >= 1 && is_quote_char(l, e[0]) && e[e.len() - 1] == e[0];
            if quoted {
                e.len() >= 2
            } else {
                let fits = call_depth_fits_exec(e.as_slice());
                if !fits {
                    return false;
                }
                match function_call_chars(e.as_slice()) {
                    Some((f, a)) => host_call_defined_exec(f.as_slice(), a.as_slice()),
                    None => true,
                }
            }
        },
    }
}

/// Whether the simulation of `code` in `l` computes without a panic or an
/// overflow, that is, whether `simulate_*` may be called on it.
pub fn can_simulate(l: Language, code: &str) -> (b: bool)
    ensures
        b == simulation_defined(l, code@),
{
    let cs = chars_of(code);
    let ls = lines_of(cs.as_slice());
    let mut i: usize = 0;
    while i < ls.len()
        invariant
            i <= ls@.len(),
            views_of(ls@) == lines(code@),
            forall|j: int| 0 <= j < i ==> line_defined(l, #[trigger] lines(code@)[j]),
        decreases ls.len() - i,
    {
        assert(views_of(ls@)[i as int] == ls@[i as int]@);
        if !line_defined_exec(l, ls[i].as_slice()) {
            return false;
        }
        i = i + 1;
    }
    true
}

// ---------------------------------------------------------------- languages

pub open spec fn python_patterns() -> Seq<Seq<char>> {
    seq!["print("@, "def "@, "import "@, "class "@, "elif "@, "try:"@, "except "@]
}

pub open spec fn javascript_patterns() -> Seq<Seq<char>> {
    seq!["console.log"@, "function "@, "=>"@, "const "@, "let "@, "var "@, "typeof "@]
}

pub open spec fn ruby_patterns() -> Seq<Seq<char>> {
    seq!["puts "@, "def "@, "end\n"@, "require "@, "attr_"@, "||="@, ".each do"@]
}

pub open spec fn language_patterns(l: Language) -> Seq<Seq<char>> {
    match l {
        Language::Python => python_patterns(),
        Language::JavaScript => javascript_patterns(),
        Language::Ruby => ruby_patterns(),
    }
}

/// How many of `pats` occur in `code`.
pub open spec fn pattern_count(code: Seq<char>, pats: Seq<Seq<char>>) -> nat
    decreases pats.len(),
{
    if pats.len() == 0 {
        0
    } else {
        pattern_count(code, pats.drop_last()) + if contains_seq(code, pats.last()) {
            1nat
        } else {
            0nat
        }
    }
}

/// The score of a language for `code`: how many of its telltale patterns
/// occur in it.
pub open spec fn language_score(l: Language, code: Seq<char>) -> nat {
    pattern_count(code, language_patterns(l))
}

fn pattern_list(l: Language) -> (r: Vec<&'static str>)
    ensures
        r@.map_values(|s: &str| s@) == language_patterns(l),
{
    let r = match l {
        Language::Python => vec!["print(", "def ", "import ", "class ", "elif ", "try:", "except "],
        Language::JavaScript => vec![
            "console.log",
            "function ",
            "=>",
            "const ",
            "let ",
            "var ",
            "typeof ",
        ],
        Language::Ruby => vec!["puts ", "def ", "end\n", "require ", "attr_", "||=", ".each do"],
    };
    assert(r@.map_values(|s: &str| s@) =~= language_patterns(l));
    r
}

fn score_exec(l: Language, code: &[char]) -> (n: u64)
    ensures
        n == language_score(l, code@),
{
    let pats = pattern_list(l);
    let ghost ps = pats@.map_values(|s: &str| s@);
    let mut n: u64 = 0;
    let mut i: usize = 0;
    while i < pats.len()
        invariant
            i <= pats@.len(),
            ps == language_patterns(l),
            ps.len() == pats@.len(),
            forall|j: int| 0 <= j < pats@.len() ==> ps[j] == #[trigger] pats@[j]@,
            n == pattern_count(code@, ps.take(i as int)),
            n <= i,
        decreases pats.len() - i,
    {
        assert(ps.take(i + 1).drop_last() =~= ps.take(i as int));
        let p = chars_of(pats[i]);
        if contains_exec(code, p.as_slice()) {
            n = n + 1;
        }
        i = i + 1;
    }
    assert(ps.take(ps.len() as int) =~= ps);
    n
}

/// Guesses the language of `code` by counting telltale patterns: the
/// language returned has the highest score.
pub fn detect_language(code: &str) -> (l: Language)
    ensures
        forall|m: Language| language_score(l, code@) >= language_score(m, code@),
{
    let cs = chars_of(code);
    let py = score_exec(Language::Python, cs.as_slice());
    let js = score_exec(Language::JavaScript, cs.as_slice());
    let rb = score_exec(Language::Ruby, cs.as_slice());
    let l = if rb >= py && rb >= js {
        Language::Ruby
    } else if js >= py {
        Language::JavaScript
    } else {
        Language::Python
    };
    assert forall|m: Language| language_score(l, code@) >= language_score(m, code@) by {
        match m {
            Language::Python => {},
            Language::JavaScript => {},
            Language::Ruby => {},
        }
    }
    l
}

/// The first line of `code`, or nothing.
pub open spec fn first_line(code: Seq<char>) -> Seq<char> {
    if lines(code).len() > 0 {
        lines(code)[0]
    } else {
        seq![]
    }
}

/// The interpreter that runs `code`: Python when the first line defines a
/// function or the code imports or prints; else JavaScript when it defines
/// a function, logs or holds an arrow; else Ruby when it defines, puts or
/// ends with `end`; else the language that `detect_language` picks.
pub open spec fn interpreter_choice(code: Seq<char>) -> Option<Language> {
    if contains_seq(first_line(code), "def "@) || contains_seq(code, "import "@) || contains_seq(
        code,
        "print("@,
    ) {
        Some(Language::Python)
    } else if contains_seq(code, "function "@) || contains_seq(code, "console.log"@)
        || contains_seq(code, "=>"@) {
        Some(Language::JavaScript)
    } else if contains_seq(code, "def "@) || contains_seq(code, "puts "@) || ends_with(
        code,
        "end"@,
    ) {
        Some(Language::Ruby)
    } else {
        None
    }
}

proof fn lemma_line_scan_first(s: Seq<char>)
    ensures
        line_scan(s).0.len() > 0 ==> line_scan(s).0[0].len() <= s.len() && s.subrange(0, line_scan(s).0[0].len() as int)
            == line_scan(s).0[0],
        line_scan(s).0.len() == 0 ==> line_scan(s).1 == s,
    decreases s.len(),
{
    if s.len() > 0 {
        let s0 = s.drop_last();
        lemma_line_scan_first(s0);
        let (done, cur) = line_scan(s0);
        if done.len() > 0 {
            assert(s.subrange(0, done[0].len() as int) =~= s0.subrange(0, done[0].len() as int));
        } else if s.last() == '\n' {
            let l = strip_cr(cur);
            assert(s.subrange(0, l.len() as int) =~= l);
        } else {
            assert(cur.push(s.last()) =~= s);
        }
    }
}

/// The first line of the code is where the code starts.
proof fn lemma_first_line_prefix(code: Seq<char>)
    ensures
        first_line(code).len() <= code.len(),
        code.subrange(0, first_line(code).len() as int) == first_line(code),
{
    lemma_line_scan_first(code);
    let f = first_line(code);
    if lines(code).len() == 0 {
        assert(code.subrange(0, 0) =~= f);
    }
}

/// A "def " decides for Python only on the first line: code whose first
/// line defines nothing, that neither imports nor prints, and that shows
/// none of JavaScript's telltales runs as Ruby when it defines or puts
/// anywhere; code whose first line defines runs as Python.
pub proof fn lemma_interpreter_choice_def(code: Seq<char>)
    ensures
        contains_seq(first_line(code), "def "@) ==> interpreter_choice(code) == Some(Language::Python),
        (!contains_seq(first_line(code), "def "@) && !contains_seq(code, "import "@) && !contains_seq(code, "print("@)
            && !contains_seq(code, "function "@) && !contains_seq(code, "console.log"@) && !contains_seq(code, "=>"@)
            && (contains_seq(code, "def "@) || contains_seq(code, "puts "@)))
            ==> interpreter_choice(code) == Some(Language::Ruby),
        (contains_seq(code, "import "@) || contains_seq(code, "print("@)) ==> interpreter_choice(code) == Some(
            Language::Python,
        ),
        (!contains_seq(first_line(code), "def "@) && !contains_seq(code, "import "@) && !contains_seq(code, "print("@)
            && (contains_seq(code, "function "@) || contains_seq(code, "console.log"@) || contains_seq(code, "=>"@)))
            ==> interpreter_choice(code) == Some(Language::JavaScript),
        (!contains_seq(first_line(code), "def "@) && !contains_seq(code, "import "@) && !contains_seq(code, "print("@)
            && !contains_seq(code, "function "@) && !contains_seq(code, "console.log"@) && !contains_seq(code, "=>"@)
            && ends_with(code, "end"@)) ==> interpreter_choice(code) == Some(Language::Ruby),
        (!contains_seq(code, "def "@) && !contains_seq(code, "import "@) && !contains_seq(code, "print("@)
            && !contains_seq(code, "function "@) && !contains_seq(code, "console.log"@) && !contains_seq(code, "=>"@)
            && !contains_seq(code, "puts "@) && !ends_with(code, "end"@)) ==> interpreter_choice(code) is None,
{
    if !contains_seq(code, "def "@) {
        // A line of the code holds no "def " when the code holds none.
        if contains_seq(first_line(code), "def "@) {
            lemma_first_line_prefix(code);
            let f = first_line(code);
            let k = choose|k: int| occurs_at(f, "def "@, k);
            assert(code.subrange(k, k + "def "@.len()) =~= f.subrange(k, k + "def "@.len()));
            assert(occurs_at(code, "def "@, k));
        }
    }
}

fn contains_str(s: &[char], lit: &str) -> (b: bool)
    ensures
        b == contains_seq(s@, lit@),
{
    let p = chars_of(lit);
    contains_exec(s, p.as_slice())
}

/// The language whose interpreter runs `code`.
pub fn interpreter_language(code: &str) -> (l: Language)
    ensures
        match interpreter_choice(code@) {
            Some(c) => l == c,
            None => forall|m: Language| language_score(l, code@) >= language_score(m, code@),
        },
{
    let cs = chars_of(code);
    let ls = lines_of(cs.as_slice());
    let first: Vec<char> = if ls.len() > 0 {
        assert(views_of(ls@)[0] == ls@[0]@);
        ls[0].clone()
    } else {
        Vec::new()
    };
    assert(first@ =~= first_line(code@));
    let c = cs.as_slice();
    let end = chars_of("end");
    if contains_str(first.as_slice(), "def ") || contains_str(c, "import ") || contains_str(
        c,
        "print(",
    ) {
        Language::Python
    } else if contains_str(c, "function ") || contains_str(c, "console.log") || contains_str(
        c,
        "=>",
    ) {
        Language::JavaScript
    } else if contains_str(c, "def ") || contains_str(c, "puts ") || ends_with_exec(
        c,
        end.as_slice(),
    ) {
        Language::Ruby
    } else {
        detect_language(code)
    }
}

/// The program that runs code in each language.
pub open spec fn interpreter_program(l: Language) -> Seq<char> {
    match l {
        Language::Python => "python"@,
        Language::JavaScript => "node"@,
        Language::Ruby => "ruby"@,
    }
}

/// The flag that hands that program its code.
pub open spec fn interpreter_flag(l: Language) -> Seq<char> {
    match l {
        Language::Python => "-c"@,
        _ => "-e"@,
    }
}

/// The program and flag that run code in each language.
pub fn interpreter_command(l: Language) -> (r: (&'static str, &'static str))
    ensures
        r.0@ == interpreter_program(l),
        r.1@ == interpreter_flag(l),
{
    match l {
        Language::Python => ("python", "-c"),
        Language::JavaScript => ("node", "-e"),
        Language::Ruby => ("ruby", "-e"),
    }
}

/// The note that precedes a simulated run's output.
pub open spec fn simulated_banner(l: Language) -> Seq<char> {
    match l {
        Language::Python => "[Python execution simulated]\n"@,
        Language::JavaScript => "[JavaScript execution simulated]\n"@,
        Language::Ruby => "[Ruby execution simulated]\n"@,
    }
}

/// What an interpreter run shows: its standard output, then its standard
/// error if it wrote any.
pub open spec fn native_output(stdout: Seq<char>, stderr: Seq<char>) -> Seq<char> {
    if stderr.len() > 0 {
        stdout + stderr
    } else {
        stdout
    }
}

/// The output of running `code` with the interpreter of `l`: `run` holds
/// what the interpreter wrote to standard output and standard error, or
/// nothing when it could not be started, in which case the run is
/// simulated.
pub fn interpreter_output(l: Language, code: &str, run: Option<(String, String)>) -> (r: String)
    requires
        run is None ==> simulation_defined(l, code@),
    ensures
        match run {
            Some((o, e)) => r@ == native_output(o@, e@),
            None => exists|ts: Seq<u128>| r@ == simulated_banner(l) + simulation(l, code@, ts),
        },
{
    match run {
        Some((o, e)) => {
            let mut out = chars_of(o.as_str());
            let ec = chars_of(e.as_str());
            if ec.len() > 0 {
                push_all(&mut out, ec.as_slice());
            }
            string_from_chars(out.as_slice())
        },
        None => {
            let sim = simulate(l, code);
            let ghost ts = choose|ts: Seq<u128>| sim@ == simulation(l, code@, ts);
            let mut out: Vec<char> = match l {
                Language::Python => chars_of("[Python execution simulated]\n"),
                Language::JavaScript => chars_of("[JavaScript execution simulated]\n"),
                Language::Ruby => chars_of("[Ruby execution simulated]\n"),
            };
            let sc = chars_of(sim.as_str());
            push_all(&mut out, sc.as_slice());
            let r = string_from_chars(out.as_slice());
            assert(r@ == simulated_banner(l) + simulation(l, code@, ts));
            r
        },
    }
}

} // verus!

//! The execution cache: responses of successful runs, keyed by language,
//! code and timeout, each kept for a time to live, with a bounded number of
//! entries.
use vstd::prelude::*;
use sha2::{Digest, Sha256};
use std::collections::HashMap;
use std::collections::hash_map::DefaultHasher;
use std::hash::Hasher;
use vstd::std_specs::hash::DefaultHasherAdditionalSpecFns;
use vstd::std_specs::iter::IteratorSpec;
use std::time::Instant;
use crate::clock::{instant_now, nanos_elapsed_since};
use crate::text::{digit_chars, lemma_hex_shape, nat_in_base, pow16, string_from_chars, u128_in_base};
use crate::types::{ExecuteResponse, Language};

verus! {

broadcast use vstd::std_specs::hash::group_hash_axioms;

pub const DEFAULT_CACHE_TTL_SECONDS: u64 = 300;

pub const DEFAULT_CACHE_CAPACITY: usize = 1000;

/// The SHA-256 digest of `data`.
pub uninterp spec fn sha256(data: Seq<u8>) -> Seq<u8>;

/// `sha2::Sha256::digest`: the digest of `data` is named, and is 32 bytes
/// long (the output size of SHA-256).
#[verifier::external_body]
fn sha256_digest(data: &[u8]) -> (d: Vec<u8>)
    ensures
        d@ == sha256(data@),
        d@.len() == 32,
{
    Sha256::digest(data).to_vec()
}

/// Each byte as two lower-case hexadecimal digits, as `{:x}` writes a
/// digest.
pub open spec fn hex_bytes(b: Seq<u8>) -> Seq<char>
    decreases b.len(),
{
    if b.len() == 0 {
        seq![]
    } else {
        hex_bytes(b.drop_last()) + seq![
            digit_chars()[(b.last() / 16) as int],
            digit_chars()[(b.last() % 16) as int],
        ]
    }
}

/// Two hexadecimal digits per byte.
pub proof fn lemma_hex_bytes_len(b: Seq<u8>)
    ensures
        hex_bytes(b).len() == 2 * b.len(),
    decreases b.len(),
{
    if b.len() > 0 {
        lemma_hex_bytes_len(b.drop_last());
    }
}

fn hex_bytes_exec(b: &[u8]) -> (s: Vec<char>)
    ensures
        s@ == hex_bytes(b@),
{
    let digits = ['0', '1', '2', '3', '4', '5', '6', '7', '8', '9', 'a', 'b', 'c', 'd', 'e', 'f'];
    assert(digits@ =~= digit_chars());
    let mut s: Vec<char> = Vec::new();
    let mut i: usize = 0;
    while i < b.len()
        invariant
            i <= b@.len(),
            digits@ == digit_chars(),
            s@ == hex_bytes(b@.take(i as int)),
        decreases b.len() - i,
    {
        let x = b[i];
        assert(b@.take(i + 1).drop_last() =~= b@.take(i as int));
        s.push(digits[(x / 16) as usize]);
        s.push(digits[(x % 16) as usize]);
        assert(s@ =~= hex_bytes(b@.take(i + 1)));
        i = i + 1;
    }
    assert(b@.take(b@.len() as int) =~= b@);
    s
}

/// The code hash of a cache key: the SHA-256 digest of the code's UTF-8
/// bytes, in lower-case hexadecimal.
pub open spec fn code_hash_of(code: Seq<char>) -> Seq<char> {
    hex_bytes(sha256(vstd::utf8::encode_utf8(code)))
}

/// What identifies a cached run: the language, the code's digest and the
/// requested timeout.
#[derive(Debug, Clone, PartialEq, Eq, Hash)]
pub struct CacheKey {
    pub language: Language,
    pub code_hash: String,
    pub timeout_ms: Option<u64>,
}

/// The discriminant of each language.
pub open spec fn language_tag(l: Language) -> u64 {
    match l {
        Language::Python => 0,
        Language::JavaScript => 1,
        Language::Ruby => 2,
    }
}

/// The byte strings that hashing a key writes: the language's
/// discriminant, the code hash followed by `0xff`, the timeout's
/// discriminant and, if present, the timeout, integers as 8 little-endian
/// bytes (the writes of `#[derive(Hash)]` on a 64-bit little-endian target).
pub open spec fn key_writes(language: Language, code_hash: Seq<char>, timeout_ms: Option<u64>) -> Seq<
    Seq<u8>,
> {
    let head = seq![
        vstd::bytes::spec_u64_to_le_bytes(language_tag(language)),
        vstd::utf8::encode_utf8(code_hash),
        seq![0xffu8],
    ];
    match timeout_ms {
        None => head.push(vstd::bytes::spec_u64_to_le_bytes(0)),
        Some(t) => head.push(vstd::bytes::spec_u64_to_le_bytes(1)).push(
            vstd::bytes::spec_u64_to_le_bytes(t),
        ),
    }
}

/// The 64-bit `DefaultHasher` digest of a key.
pub open spec fn key_digest(k: CacheKey) -> u64 {
    DefaultHasher::spec_finish(key_writes(k.language, k.code_hash@, k.timeout_ms))
}

impl CacheKey {
    /// The key of running `code` in `language` with `timeout_ms`.
    pub fn new(language: Language, code: &str, timeout_ms: Option<u64>) -> (k: Self)
        ensures
            k.language == language,
            k.code_hash@ == code_hash_of(code@),
            k.code_hash@.len() == 64,
            k.timeout_ms == timeout_ms,
    {
        let digest = sha256_digest(code.as_bytes());
        proof {
            lemma_hex_bytes_len(digest@);
        }
        let hex = hex_bytes_exec(digest.as_slice());
        CacheKey { language, code_hash: string_from_chars(hex.as_slice()), timeout_ms }
    }

    /// The key's 64-bit digest.
    pub fn digest(&self) -> (d: u64)
        ensures
            d == key_digest(*self),
    {
        let tag: u64 = match self.language {
            Language::Python => 0,
            Language::JavaScript => 1,
            Language::Ruby => 2,
        };
        assert(tag == language_tag(self.language));
        let mut h = DefaultHasher::new();
        let b = vstd::bytes::u64_to_le_bytes(tag);
        h.write(b.as_slice());
        h.write(self.code_hash.as_str().as_bytes());
        let ff: Vec<u8> = vec![0xff];
        assert(ff@ =~= seq![0xffu8]);
        h.write(ff.as_slice());
        match self.timeout_ms {
            None => {
                let z = vstd::bytes::u64_to_le_bytes(0);
                h.write(z.as_slice());
            },
            Some(t) => {
                let one = vstd::bytes::u64_to_le_bytes(1);
                h.write(one.as_slice());
                let tb = vstd::bytes::u64_to_le_bytes(t);
                h.write(tb.as_slice());
            },
        }
        assert(h@ =~= key_writes(self.language, self.code_hash@, self.timeout_ms));
        h.finish()
    }

    /// The key's digest in lower-case hexadecimal, as `{:x}` writes it.
    pub fn to_hash_string(&self) -> (s: String)
        ensures
            s@ == nat_in_base(key_digest(*self) as nat, 16),
    {
        let d = self.digest();
        let cs = u128_in_base(d as u128, 16);
        string_from_chars(cs.as_slice())
    }
}


/// A cached response, the time it was stored and how long it lives, in
/// nanoseconds of the cache's clock.
pub struct CacheEntry {
    pub response: ExecuteResponse,
    pub created_at: u64,
    pub ttl: u64,
}

/// The time an entry has lived at `now` (zero if `now` is earlier).
pub open spec fn entry_age(e: CacheEntry, now: u64) -> int {
    if now >= e.created_at {
        now - e.created_at
    } else {
        0
    }
}

/// An entry is expired once it has lived longer than its time to live.
pub open spec fn is_expired(e: CacheEntry, now: u64) -> bool {
    entry_age(e, now) > e.ttl
}

/// The entries of `m` that are not expired at `now`.
pub open spec fn live_entries(m: Map<u64, CacheEntry>, now: u64) -> Map<u64, CacheEntry> {
    m.filter_keys(|k: u64| !is_expired(m[k], now))
}

/// `m2` is `m` without one of its oldest entries, if that entry was
/// stored before `now`; otherwise `m2` is `m`.
pub open spec fn evicted_oldest(m: Map<u64, CacheEntry>, m2: Map<u64, CacheEntry>, now: u64) -> bool {
    ||| exists|k: u64|
        {
            &&& m.contains_key(k)
            &&& m[k].created_at < now
            &&& forall|j: u64| #[trigger] m.contains_key(j) ==> m[k].created_at <= m[j].created_at
            &&& m2 == m.remove(k)
        }
    ||| (forall|j: u64| #[trigger] m.contains_key(j) ==> m[j].created_at >= now) && m2 == m
}

/// The entries after storing `e` under `h` at `now` in a cache holding
/// `m` with room for `capacity`: when the cache is full the expired
/// entries go first, and if it is still full, one of the oldest.
pub open spec fn stored(
    m: Map<u64, CacheEntry>,
    capacity: nat,
    now: u64,
    h: u64,
    e: CacheEntry,
    m_final: Map<u64, CacheEntry>,
) -> bool {
    let m1 = if m.len() >= capacity {
        live_entries(m, now)
    } else {
        m
    };
    exists|m2: Map<u64, CacheEntry>|
        {
            &&& if m1.len() >= capacity {
                evicted_oldest(m1, m2, now)
            } else {
                m2 == m1
            }
            &&& m_final == m2.insert(h, e)
        }
}

#[verifier::ext_equal]
/// The state of a cache: its entries by key digest, its capacity, the
/// default time to live (nanoseconds), and the hit and miss counts.
pub struct CacheView {
    pub entries: Map<u64, CacheEntry>,
    pub capacity: nat,
    pub default_ttl: nat,
    pub hits: nat,
    pub misses: nat,
}

/// A bounded cache of execution responses with a time to live.
pub struct ExecutionCache {
    entries: HashMap<u64, CacheEntry>,
    capacity: usize,
    default_ttl: u64,
    hits: u64,
    misses: u64,
    origin: Instant,
}

impl View for ExecutionCache {
    type V = CacheView;

    closed spec fn view(&self) -> CacheView {
        CacheView {
            entries: self.entries@,
            capacity: self.capacity as nat,
            default_ttl: self.default_ttl as nat,
            hits: self.hits as nat,
            misses: self.misses as nat,
        }
    }
}

/// Counters of a cache.
pub struct CacheStats {
    pub size: usize,
    pub capacity: usize,
    pub hits: u64,
    pub misses: u64,
    pub default_ttl_seconds: u64,
}

fn keys_of(m: &HashMap<u64, CacheEntry>) -> (v: Vec<u64>)
    ensures
        v@.to_set() == m@.dom(),
        v@.no_duplicates(),
{
    let mut v: Vec<u64> = Vec::new();
    let ghost all = vstd::std_specs::hash::spec_keys_iter(m).remaining();
    for k in it: m.keys()
        invariant
            it.seq() == all,
            v@ == all.take(it.index() as int).unref(),
    {
        v.push(*k);
        assert(v@ =~= all.take(it.index() + 1).unref());
    }
    assert(all.take(all.len() as int) =~= all);
    assert(v@ =~= all.unref());
    assert(all.no_duplicates());
    v
}


/// The outcome of looking `h` up at `now` in the cache `c`: a live entry
/// is a hit and gives its response; an expired entry is dropped and, like
/// a missing one, is a miss.
pub open spec fn looked_up(c: CacheView, h: u64, now: u64, r: Option<ExecuteResponse>, c2: CacheView) -> bool {
    if c.entries.contains_key(h) && !is_expired(c.entries[h], now) {
        &&& r == Some(c.entries[h].response)
        &&& c2 == CacheView { hits: c.hits + 1, ..c }
    } else {
        &&& r is None
        &&& c2 == CacheView { entries: c.entries.remove(h), misses: c.misses + 1, ..c }
    }
}

/// The cache `c2` after storing `response` under `h` at `now` in `c`,
/// with the time to live `ttl` or the cache's default.
pub open spec fn inserted(
    c: CacheView,
    h: u64,
    response: ExecuteResponse,
    ttl: Option<u64>,
    now: u64,
    c2: CacheView,
) -> bool {
    let e = CacheEntry {
        response,
        created_at: now,
        ttl: match ttl {
            Some(t) => t,
            None => c.default_ttl as u64,
        },
    };
    &&& stored(c.entries, c.capacity, now, h, e, c2.entries)
    &&& c2 == CacheView { entries: c2.entries, ..c }
}

impl ExecutionCache {
    /// An empty cache with room for `capacity` entries that keep them
    /// `default_ttl` nanoseconds.
    pub fn with_config(capacity: usize, default_ttl: u64) -> (c: Self)
        ensures
            c@ == (CacheView {
                entries: Map::empty(),
                capacity: capacity as nat,
                default_ttl: default_ttl as nat,
                hits: 0,
                misses: 0,
            }),
    {
        ExecutionCache {
            entries: HashMap::new(),
            capacity,
            default_ttl,
            hits: 0,
            misses: 0,
            origin: instant_now(),
        }
    }

    /// An empty cache with the default capacity and time to live.
    pub fn new() -> (c: Self)
        ensures
            c@ == (CacheView {
                entries: Map::empty(),
                capacity: DEFAULT_CACHE_CAPACITY as nat,
                default_ttl: (DEFAULT_CACHE_TTL_SECONDS * 1_000_000_000) as nat,
                hits: 0,
                misses: 0,
            }),
    {
        Self::with_config(DEFAULT_CACHE_CAPACITY, DEFAULT_CACHE_TTL_SECONDS * 1_000_000_000)
    }

    /// The current time of the cache's clock, in nanoseconds since it was
    /// made.
    fn now(&self) -> u64 {
        nanos_elapsed_since(&self.origin)
    }

    /// Looks `key` up at the time `now`.
    pub fn get_at(&mut self, key: &CacheKey, now: u64) -> (r: Option<ExecuteResponse>)
        requires
            old(self)@.hits < u64::MAX,
            old(self)@.misses < u64::MAX,
        ensures
            looked_up(old(self)@, key_digest(*key), now, r, final(self)@),
    {
        let h = key.digest();
        let expired = match self.entries.get(&h) {
            Some(e) => if now >= e.created_at {
                now - e.created_at > e.ttl
            } else {
                false
            },
            None => {
                self.misses = self.misses + 1;
                assert(self@ =~= CacheView { entries: old(self)@.entries.remove(h), misses: old(self)@.misses + 1, ..old(self)@ });
                return None;
            },
        };
        if expired {
            self.entries.remove(&h);
            self.misses = self.misses + 1;
            assert(self@ =~= CacheView { entries: old(self)@.entries.remove(h), misses: old(self)@.misses + 1, ..old(self)@ });
            None
        } else {
            self.hits = self.hits + 1;
            let r = match self.entries.get(&h) {
                Some(e) => Some(e.response.clone()),
                None => None,
            };
            assert(self@ =~= CacheView { hits: old(self)@.hits + 1, ..old(self)@ });
            r
        }
    }

    /// Looks `key` up now: a live entry is a hit, an expired or missing one
    /// a miss.
    pub fn get(&mut self, key: &CacheKey) -> (r: Option<ExecuteResponse>)
        requires
            old(self)@.hits < u64::MAX,
            old(self)@.misses < u64::MAX,
        ensures
            exists|now: u64| looked_up(old(self)@, key_digest(*key), now, r, final(self)@),
    {
        let now = self.now();
        self.get_at(key, now)
    }

    /// Drops the entries that are expired at `now`.
    fn evict_expired(&mut self, now: u64)
        ensures
            final(self)@ == (CacheView { entries: live_entries(old(self)@.entries, now), ..old(self)@ }),
    {
        let keys = keys_of(&self.entries);
        let ghost m = self.entries@;
        let ghost mut done: Set<u64> = Set::empty();
        let mut i: usize = 0;
        while i < keys.len()
            invariant
                i <= keys@.len(),
                keys@.to_set() == m.dom(),
                m == old(self)@.entries,
                self@ == (CacheView { entries: self.entries@, ..old(self)@ }),
                forall|j: int| 0 <= j < i ==> done.contains(#[trigger] keys@[j]),
                self.entries@ == m.filter_keys(|k: u64| !(done.contains(k) && is_expired(m[k], now))),
            decreases keys.len() - i,
        {
            let k = keys[i];
            assert(keys@.to_set().contains(k));
            let expired = match self.entries.get(&k) {
                Some(e) => if now >= e.created_at {
                    now - e.created_at > e.ttl
                } else {
                    false
                },
                None => false,
            };
            if expired {
                self.entries.remove(&k);
            }
            proof {
                let done0 = done;
                done = done.insert(k);
                assert(self.entries@ =~= m.filter_keys(
                    |x: u64| !(done.contains(x) && is_expired(m[x], now)),
                ));
            }
            i = i + 1;
        }
        proof {
            assert forall|j: u64| m.contains_key(j) implies done.contains(j) by {
                assert(keys@.to_set().contains(j));
                let w = choose|w: int| 0 <= w < keys@.len() && keys@[w] == j;
                assert(done.contains(keys@[w]));
            }
            assert(self.entries@ =~= live_entries(m, now));
        }
        assert(self@ =~= CacheView { entries: live_entries(old(self)@.entries, now), ..old(self)@ });
    }

    /// Drops one of the oldest entries, if it was stored before `now`.
    fn evict_oldest(&mut self, now: u64)
        ensures
            evicted_oldest(old(self)@.entries, final(self)@.entries, now),
            final(self)@ == (CacheView { entries: final(self)@.entries, ..old(self)@ }),
    {
        let keys = keys_of(&self.entries);
        let ghost m = self.entries@;
        let mut oldest_key: Option<u64> = None;
        let mut oldest_time: u64 = now;
        let mut i: usize = 0;
        while i < keys.len()
            invariant
                i <= keys@.len(),
                keys@.to_set() == m.dom(),
                self.entries@ == m,
                oldest_time <= now,
                match oldest_key {
                    Some(k0) => m.contains_key(k0) && m[k0].created_at == oldest_time
                        && oldest_time < now,
                    None => oldest_time == now,
                },
                forall|j: int| 0 <= j < i ==> m[#[trigger] keys@[j]].created_at >= oldest_time,
            decreases keys.len() - i,
        {
            let k = keys[i];
            assert(keys@.to_set().contains(k));
            match self.entries.get(&k) {
                Some(e) => {
                    if e.created_at < oldest_time {
                        oldest_time = e.created_at;
                        oldest_key = Some(k);
                    }
                },
                None => {},
            }
            i = i + 1;
        }
        proof {
            assert forall|j: u64| #[trigger] m.contains_key(j) implies m[j].created_at >= oldest_time by {
                assert(keys@.to_set().contains(j));
                let w = choose|w: int| 0 <= w < keys@.len() && keys@[w] == j;
                assert(m[keys@[w]].created_at >= oldest_time);
            }
        }
        match oldest_key {
            Some(k0) => {
                self.entries.remove(&k0);
                assert(self.entries@ == m.remove(k0));
            },
            None => {},
        }
        assert(self@ =~= CacheView { entries: self.entries@, ..old(self)@ });
    }

    /// Stores `response` under `key` at the time `now`, with the time to
    /// live `ttl` or the default.
    pub fn insert_at(&mut self, key: &CacheKey, response: ExecuteResponse, ttl: Option<u64>, now: u64)
        ensures
            inserted(old(self)@, key_digest(*key), response, ttl, now, final(self)@),
    {
        let h = key.digest();
        let ghost m0 = self.entries@;
        if self.entries.len() >= self.capacity {
            self.evict_expired(now);
        }
        let ghost m1 = self.entries@;
        if self.entries.len() >= self.capacity {
            self.evict_oldest(now);
        }
        let ghost m2 = self.entries@;
        let t = match ttl {
            Some(t) => t,
            None => self.default_ttl,
        };
        let entry = CacheEntry { response, created_at: now, ttl: t };
        let ghost e = entry;
        self.entries.insert(h, entry);
        proof {
            assert(self.entries@ == m2.insert(h, e));
            assert(if m1.len() >= self.capacity { evicted_oldest(m1, m2, now) } else { m2 == m1 });
        }
        assert(self@ =~= CacheView { entries: self@.entries, ..old(self)@ });
    }

    /// Stores `response` under `key` now, with the default time to live.
    pub fn insert(&mut self, key: &CacheKey, response: ExecuteResponse)
        ensures
            exists|now: u64| inserted(old(self)@, key_digest(*key), response, None, now, final(self)@),
    {
        self.insert_with_ttl(key, response, None)
    }

    /// Stores `response` under `key` now, with the time to live `ttl`
    /// (nanoseconds) or the default.
    pub fn insert_with_ttl(&mut self, key: &CacheKey, response: ExecuteResponse, ttl: Option<u64>)
        ensures
            exists|now: u64| inserted(old(self)@, key_digest(*key), response, ttl, now, final(self)@),
    {
        let now = self.now();
        self.insert_at(key, response, ttl, now);
    }

    /// Drops the entry of `key`.
    pub fn invalidate(&mut self, key: &CacheKey)
        ensures
            final(self)@ == (CacheView { entries: old(self)@.entries.remove(key_digest(*key)), ..old(self)@ }),
    {
        let h = key.digest();
        self.entries.remove(&h);
        assert(self@ =~= CacheView { entries: old(self)@.entries.remove(key_digest(*key)), ..old(self)@ });
    }

    /// Drops every entry and resets the counters; returns how many entries
    /// there were.
    pub fn clear(&mut self) -> (n: usize)
        ensures
            n == old(self)@.entries.len(),
            final(self)@ == (CacheView { entries: Map::empty(), hits: 0, misses: 0, ..old(self)@ }),
    {
        let n = self.entries.len();
        self.entries.clear();
        self.hits = 0;
        self.misses = 0;
        assert(self@ =~= CacheView { entries: Map::empty(), hits: 0, misses: 0, ..old(self)@ });
        n
    }

    /// The number of entries, expired ones included.
    pub fn len(&self) -> (n: usize)
        ensures
            n == self@.entries.len(),
    {
        self.entries.len()
    }

    pub fn is_empty(&self) -> (b: bool)
        ensures
            b == (self@.entries.len() == 0),
    {
        self.len() == 0
    }

    /// The cache's counters.
    pub fn stats(&self) -> (s: CacheStats)
        ensures
            s.size == self@.entries.len(),
            s.capacity == self@.capacity,
            s.hits == self@.hits,
            s.misses == self@.misses,
            s.default_ttl_seconds == self@.default_ttl / 1_000_000_000,
    {
        CacheStats {
            size: self.entries.len(),
            capacity: self.capacity,
            hits: self.hits,
            misses: self.misses,
            default_ttl_seconds: self.default_ttl / 1_000_000_000,
        }
    }

    /// Drops the entries expired at `now`; returns how many were dropped.
    pub fn cleanup_expired_at(&mut self, now: u64) -> (n: usize)
        ensures
            final(self)@ == (CacheView { entries: live_entries(old(self)@.entries, now), ..old(self)@ }),
            n == old(self)@.entries.len() - live_entries(old(self)@.entries, now).len(),
    {
        let before = self.entries.len();
        self.evict_expired(now);
        proof {
            let m = old(self)@.entries;
            vstd::set_lib::lemma_len_subset(live_entries(m, now).dom(), m.dom());
        }
        before - self.entries.len()
    }

    /// Drops the entries expired now; returns how many were dropped.
    pub fn cleanup_expired(&mut self) -> (n: usize)
        ensures
            exists|now: u64|
                {
                    &&& final(self)@ == (CacheView { entries: live_entries(old(self)@.entries, now), ..old(self)@ })
                    &&& n == old(self)@.entries.len() - live_entries(old(self)@.entries, now).len()
                },
    {
        let now = self.now();
        self.cleanup_expired_at(now)
    }
}

impl Default for ExecutionCache {
    /// The same as `ExecutionCache::new`.
    fn default() -> (c: Self)
        ensures
            c@ == (CacheView {
                entries: Map::empty(),
                capacity: DEFAULT_CACHE_CAPACITY as nat,
                default_ttl: (DEFAULT_CACHE_TTL_SECONDS * 1_000_000_000) as nat,
                hits: 0,
                misses: 0,
            }),
    {
        Self::new()
    }
}


/// The time to live that an insertion gives its entry.
pub open spec fn effective_ttl(c: CacheView, ttl: Option<u64>) -> int {
    match ttl {
        Some(t) => t as int,
        None => (c.default_ttl as u64) as int,
    }
}

proof fn lemma_inserted_entry(c: CacheView, h: u64, response: ExecuteResponse, ttl: Option<u64>, now: u64, c2: CacheView)
    requires
        inserted(c, h, response, ttl, now, c2),
    ensures
        c2.entries.contains_key(h),
        c2.entries[h].response == response,
        c2.entries[h].created_at == now,
        c2.entries[h].ttl == effective_ttl(c, ttl),
{
}

/// A response stored under a key is what a lookup of the key gives for as
/// long as the entry lives, and the lookup counts a hit.
pub proof fn lemma_lookup_after_insert(
    c: CacheView,
    key: CacheKey,
    response: ExecuteResponse,
    ttl: Option<u64>,
    now: u64,
    c2: CacheView,
    later: u64,
    r: Option<ExecuteResponse>,
    c3: CacheView,
)
    requires
        inserted(c, key_digest(key), response, ttl, now, c2),
        looked_up(c2, key_digest(key), later, r, c3),
        now <= later,
        later - now <= effective_ttl(c, ttl),
    ensures
        r == Some(response),
        c3.hits == c2.hits + 1,
        c3.entries == c2.entries,
{
    lemma_inserted_entry(c, key_digest(key), response, ttl, now, c2);
}

/// Once an entry has outlived its time to live, a lookup of its key misses
/// and drops it.
pub proof fn lemma_lookup_after_expiry(
    c: CacheView,
    key: CacheKey,
    response: ExecuteResponse,
    ttl: Option<u64>,
    now: u64,
    c2: CacheView,
    later: u64,
    r: Option<ExecuteResponse>,
    c3: CacheView,
)
    requires
        inserted(c, key_digest(key), response, ttl, now, c2),
        looked_up(c2, key_digest(key), later, r, c3),
        now <= later,
        later - now > effective_ttl(c, ttl),
    ensures
        r is None,
        c3.misses == c2.misses + 1,
        !c3.entries.contains_key(key_digest(key)),
{
    lemma_inserted_entry(c, key_digest(key), response, ttl, now, c2);
}

/// After a key is invalidated, a lookup of it misses.
pub proof fn lemma_lookup_after_invalidate(
    c: CacheView,
    key: CacheKey,
    now: u64,
    r: Option<ExecuteResponse>,
    c2: CacheView,
)
    requires
        looked_up(
            CacheView { entries: c.entries.remove(key_digest(key)), ..c },
            key_digest(key),
            now,
            r,
            c2,
        ),
    ensures
        r is None,
        c2.misses == c.misses + 1,
{
}

/// Every lookup counts exactly one hit or one miss: a hit when it gives a
/// response, a miss when it gives none.
pub proof fn lemma_lookup_counts(c: CacheView, h: u64, now: u64, r: Option<ExecuteResponse>, c2: CacheView)
    requires
        looked_up(c, h, now, r, c2),
    ensures
        c2.hits + c2.misses == c.hits + c.misses + 1,
        r is Some <==> c2.hits == c.hits + 1,
        r is None <==> c2.misses == c.misses + 1,
{
}

/// A cache that is within its (non-zero) capacity stays within it across
/// an insertion, as long as its entries were stored before the insertion's
/// time.
pub proof fn lemma_insert_within_capacity(
    c: CacheView,
    h: u64,
    response: ExecuteResponse,
    ttl: Option<u64>,
    now: u64,
    c2: CacheView,
)
    requires
        inserted(c, h, response, ttl, now, c2),
        c.entries.dom().finite(),
        0 < c.capacity,
        c.entries.len() <= c.capacity,
        forall|k: u64| #[trigger] c.entries.contains_key(k) ==> c.entries[k].created_at < now,
    ensures
        c2.entries.len() <= c.capacity,
{
    let m = c.entries;
    let cap = c.capacity;
    let m1 = if m.len() >= cap {
        live_entries(m, now)
    } else {
        m
    };
    assert(m1.dom().subset_of(m.dom()));
    vstd::set_lib::lemma_len_subset(m1.dom(), m.dom());
    let e = CacheEntry { response, created_at: now, ttl: effective_ttl(c, ttl) as u64 };
    let m2 = choose|m2: Map<u64, CacheEntry>|
        {
            &&& if m1.len() >= cap {
                evicted_oldest(m1, m2, now)
            } else {
                m2 == m1
            }
            &&& c2.entries == m2.insert(h, e)
        };
    if m1.len() >= cap {
        assert(m1.len() == cap);
        if exists|k: u64|
            {
                &&& m1.contains_key(k)
                &&& m1[k].created_at < now
                &&& forall|j: u64| #[trigger] m1.contains_key(j) ==> m1[k].created_at <= m1[j].created_at
                &&& m2 == m1.remove(k)
            } {
            let k = choose|k: u64|
                {
                    &&& m1.contains_key(k)
                    &&& m1[k].created_at < now
                    &&& forall|j: u64| #[trigger] m1.contains_key(j) ==> m1[k].created_at <= m1[j].created_at
                    &&& m2 == m1.remove(k)
                };
            assert(m2.dom() =~= m1.dom().remove(k));
            assert(m2.len() == cap - 1);
        } else {
            let k = m1.dom().choose();
            assert(m1.dom().len() > 0);
            assert(m1.dom().contains(k));
            assert(m.contains_key(k));
            assert(false);
        }
    }
    assert(m2.len() < cap);
    assert(c2.entries.dom() =~= m2.dom().insert(h));
}

/// A key's hash string is its 64-bit digest in lower-case hexadecimal:
/// one to sixteen hexadecimal digits, with no leading zero unless the
/// digest is zero, which is written "0".
pub proof fn lemma_hash_string_shape(k: CacheKey)
    ensures
        1 <= nat_in_base(key_digest(k) as nat, 16).len() <= 16,
        forall|i: int| 0 <= i < nat_in_base(key_digest(k) as nat, 16).len() ==> digit_chars().contains(
            #[trigger] nat_in_base(key_digest(k) as nat, 16)[i],
        ),
        key_digest(k) > 0 ==> nat_in_base(key_digest(k) as nat, 16)[0] != '0',
        key_digest(k) == 0 ==> nat_in_base(key_digest(k) as nat, 16) == seq!['0'],
{
    assert(pow16(16) == 0x1_0000_0000_0000_0000) by {
        reveal_with_fuel(pow16, 17);
    }
    lemma_hex_shape(key_digest(k) as nat, 16);
}

/// Two keys made from the same language, code and timeout are equal, so
/// they have the same digest and the same hash string.
pub proof fn lemma_cache_key_deterministic(k1: CacheKey, k2: CacheKey, language: Language, code: Seq<char>, timeout_ms: Option<u64>)
    requires
        k1.language == language,
        k1.code_hash@ == code_hash_of(code),
        k1.timeout_ms == timeout_ms,
        k2.language == language,
        k2.code_hash@ == code_hash_of(code),
        k2.timeout_ms == timeout_ms,
    ensures
        key_digest(k1) == key_digest(k2),
        nat_in_base(key_digest(k1) as nat, 16) == nat_in_base(key_digest(k2) as nat, 16),
{
}

} // verus!

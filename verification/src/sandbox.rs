//! The sandbox rules: which host paths and network domains a run may
//! reach, and which requests the network policy lets through.
use vstd::prelude::*;
use crate::text::{
    chars_eq, chars_of, ends_with, ends_with_exec, nat_decimal, push_all, push_str,
    string_from_chars, string_views, u128_in_base,
};
use crate::types::SandboxLimits;

verus! {

/// Why the sandbox refused a request.
#[derive(Debug)]
pub enum SandboxError {
    /// The sandbox allows no network access.
    NetworkDisabled,
    /// The URL does not parse; the parser's message.
    InvalidUrl(String),
    /// The URL's host is not among the allowed domains.
    DomainNotAllowed { host: String, allowed: Vec<String> },
    /// The URL's scheme is not allowed.
    SchemeNotAllowed(String),
    /// The URL's port is blocked.
    PortBlocked(u16),
    /// The request method is not allowed.
    MethodNotAllowed(String),
}

/// What `{:?}` writes for a list of strings.
pub uninterp spec fn debug_list(v: Seq<Seq<char>>) -> Seq<char>;

/// The `Debug` rendering of a `Vec<String>` (`format!("{:?}", ..)`); it is
/// named, a function of the strings alone.
#[verifier::external_body]
fn debug_strings(v: &Vec<String>) -> (r: String)
    ensures
        r@ == debug_list(string_views(v@)),
{
    format!("{:?}", v)
}

/// The message that answers a refused request.
pub open spec fn error_message(e: SandboxError) -> Seq<char> {
    match e {
        SandboxError::NetworkDisabled => "Network access is disabled in this sandbox"@,
        SandboxError::InvalidUrl(m) => "Invalid URL: "@ + m@,
        SandboxError::DomainNotAllowed { host, allowed } => "Domain '"@ + host@
            + "' is not in the allowed list. Allowed domains: "@ + debug_list(string_views(allowed@)),
        SandboxError::SchemeNotAllowed(s) => "Scheme '"@ + s@ + "' is not allowed"@,
        SandboxError::PortBlocked(p) => "Port "@ + nat_decimal(p as nat) + " is blocked"@,
        SandboxError::MethodNotAllowed(m) => "Method '"@ + m@ + "' is not allowed"@,
    }
}

impl SandboxError {
    /// The message that answers the refused request.
    pub fn message(&self) -> (s: String)
        ensures
            s@ == error_message(*self),
    {
        let mut t: Vec<char> = Vec::new();
        match self {
            SandboxError::NetworkDisabled => {
                push_str(&mut t, "Network access is disabled in this sandbox");
            },
            SandboxError::InvalidUrl(m) => {
                push_str(&mut t, "Invalid URL: ");
                push_all(&mut t, chars_of(m.as_str()).as_slice());
            },
            SandboxError::DomainNotAllowed { host, allowed } => {
                push_str(&mut t, "Domain '");
                push_all(&mut t, chars_of(host.as_str()).as_slice());
                push_str(&mut t, "' is not in the allowed list. Allowed domains: ");
                let list = debug_strings(allowed);
                push_all(&mut t, chars_of(list.as_str()).as_slice());
            },
            SandboxError::SchemeNotAllowed(sch) => {
                push_str(&mut t, "Scheme '");
                push_all(&mut t, chars_of(sch.as_str()).as_slice());
                push_str(&mut t, "' is not allowed");
            },
            SandboxError::PortBlocked(p) => {
                push_str(&mut t, "Port ");
                let digits = u128_in_base(*p as u128, 10);
                push_all(&mut t, digits.as_slice());
                push_str(&mut t, " is blocked");
            },
            SandboxError::MethodNotAllowed(m) => {
                push_str(&mut t, "Method '");
                push_all(&mut t, chars_of(m.as_str()).as_slice());
                push_str(&mut t, "' is not allowed");
            },
        }
        string_from_chars(t.as_slice())
    }
}

/// What `url::Url::parse` makes of a string: the scheme, the host and the
/// explicit port of the URL, or the parser's error message.
pub uninterp spec fn url_parse(input: Seq<char>) -> Result<(Seq<char>, Option<Seq<char>>, Option<u16>), Seq<char>>;

/// The parts of a parsed URL that the rules read.
pub struct UrlParts {
    pub scheme: String,
    pub host: Option<String>,
    pub port: Option<u16>,
}

pub open spec fn opt_view(o: Option<String>) -> Option<Seq<char>> {
    match o {
        Some(s) => Some(s@),
        None => None,
    }
}

/// `url::Url::parse`, with the URL's `scheme()`, `host_str()` and
/// `port()`, or the `Display` text of the parse error.  The result is
/// named.
#[verifier::external_body]
fn parse_url(input: &str) -> (r: Result<UrlParts, String>)
    ensures
        match (r, url_parse(input@)) {
            (Ok(p), Ok(v)) => p.scheme@ == v.0 && opt_view(p.host) == v.1 && p.port == v.2,
            (Err(m), Err(e)) => m@ == e,
            _ => false,
        },
{
    match url::Url::parse(input) {
        Ok(u) => Ok(UrlParts {
            scheme: u.scheme().to_string(),
            host: match u.host_str() {
                Some(h) => Some(h.to_string()),
                None => None,
            },
            port: u.port(),
        }),
        Err(e) => Err(e.to_string()),
    }
}

/// Whether `path` lies under `base`, comparing whole components, as
/// `Path::starts_with` decides it.
pub uninterp spec fn path_has_prefix(path: Seq<char>, base: Seq<char>) -> bool;

/// `std::path::Path::starts_with`.  The result is named.
#[verifier::external_body]
fn path_starts_with(path: &str, base: &str) -> (b: bool)
    ensures
        b == path_has_prefix(path@, base@),
{
    std::path::Path::new(path).starts_with(base)
}

/// The paths that the sandbox blocks unless an allowed path covers them.
pub open spec fn blocked_roots() -> Seq<Seq<char>> {
    seq!["/"@, "/etc"@, "/root"@, "/home"@, "/var"@]
}

/// `path` lies under one of `roots`.
pub open spec fn under_any(path: Seq<char>, roots: Seq<Seq<char>>) -> bool {
    exists|i: int| 0 <= i < roots.len() && path_has_prefix(path, #[trigger] roots[i])
}

/// The path rule: a path under a blocked root needs an allowed root that
/// covers it too, and a path is allowed only under an allowed root.
pub open spec fn path_rule(path: Seq<char>, allowed: Seq<Seq<char>>, blocked: Seq<Seq<char>>) -> bool {
    &&& under_any(path, blocked) ==> under_any(path, allowed)
    &&& under_any(path, allowed)
}

/// Whether `domain` is `d` or a subdomain of it.
pub open spec fn domain_matches(domain: Seq<char>, d: Seq<char>) -> bool {
    domain == d || ends_with(domain, seq!['.'] + d)
}

/// The domain rule: no network, no domain; no list, any domain; else the
/// domain must match an entry of the list.
pub open spec fn domain_rule(allow_network: bool, allowed: Seq<Seq<char>>, domain: Seq<char>) -> bool {
    if !allow_network {
        false
    } else if allowed.len() == 0 {
        true
    } else {
        exists|i: int| 0 <= i < allowed.len() && domain_matches(domain, #[trigger] allowed[i])
    }
}

/// The sandbox configuration of a run.
pub struct SandboxConfig {
    limits: SandboxLimits,
    allowed_paths: Vec<String>,
    blocked_paths: Vec<String>,
}

impl SandboxConfig {
    pub closed spec fn spec_limits(&self) -> SandboxLimits {
        self.limits
    }

    /// The roots under which paths are allowed: the sandbox directory.
    pub closed spec fn allowed_roots(&self) -> Seq<Seq<char>> {
        string_views(self.allowed_paths@)
    }

    /// The roots under which paths are blocked.
    pub closed spec fn blocked_roots(&self) -> Seq<Seq<char>> {
        string_views(self.blocked_paths@)
    }

    /// The configuration of a sandbox with `limits`: "/", "/etc", "/root",
    /// "/home" and "/var" are blocked, the sandbox directory is allowed.
    /// It never fails.
    pub fn new(limits: SandboxLimits) -> (r: Result<Self, SandboxError>)
        ensures
            match r {
                Ok(c) => {
                    &&& c.spec_limits() == limits
                    &&& c.allowed_roots() == seq![limits.sandbox_dir@]
                    &&& c.blocked_roots() == blocked_roots()
                },
                Err(_) => false,
            },
    {
        let blocked_paths = vec![
            String::from_str("/"),
            String::from_str("/etc"),
            String::from_str("/root"),
            String::from_str("/home"),
            String::from_str("/var"),
        ];
        let allowed_paths = vec![limits.sandbox_dir.clone()];
        let c = SandboxConfig { limits, allowed_paths, blocked_paths };
        assert(c.allowed_roots() =~= seq![limits.sandbox_dir@]);
        assert(c.blocked_roots() =~= blocked_roots());
        Ok(c)
    }

    pub fn limits(&self) -> (l: &SandboxLimits)
        ensures
            *l == self.spec_limits(),
    {
        &self.limits
    }

    fn under_any_exec(path: &str, roots: &Vec<String>) -> (b: bool)
        ensures
            b == under_any(path@, string_views(roots@)),
    {
        let mut i: usize = 0;
        while i < roots.len()
            invariant
                i <= roots@.len(),
                forall|j: int| 0 <= j < i ==> !path_has_prefix(path@, #[trigger] string_views(roots@)[j]),
            decreases roots.len() - i,
        {
            if path_starts_with(path, roots[i].as_str()) {
                assert(path_has_prefix(path@, string_views(roots@)[i as int]));
                return true;
            }
            i = i + 1;
        }
        false
    }

    /// Whether the sandbox lets a run reach `canonical_path`, the canonical
    /// form of a host path.
    pub fn is_path_allowed(&self, canonical_path: &str) -> (b: bool)
        ensures
            b == path_rule(canonical_path@, self.allowed_roots(), self.blocked_roots()),
    {
        let mut i: usize = 0;
        while i < self.blocked_paths.len()
            invariant
                i <= self.blocked_paths@.len(),
                forall|j: int|
                    0 <= j < i && path_has_prefix(canonical_path@, #[trigger] self.blocked_roots()[j])
                        ==> under_any(canonical_path@, self.allowed_roots()),
            decreases self.blocked_paths.len() - i,
        {
            if path_starts_with(canonical_path, self.blocked_paths[i].as_str()) {
                let has_override = Self::under_any_exec(canonical_path, &self.allowed_paths);
                if !has_override {
                    assert(path_has_prefix(canonical_path@, self.blocked_roots()[i as int]));
                    return false;
                }
            }
            i = i + 1;
        }
        Self::under_any_exec(canonical_path, &self.allowed_paths)
    }

    /// Whether the sandbox lets a run reach the host `domain`.
    pub fn is_domain_allowed(&self, domain: &str) -> (b: bool)
        ensures
            b == domain_rule(self.spec_limits().allow_network, string_views(self.spec_limits().allowed_domains@), domain@),
    {
        if !self.limits.allow_network {
            return false;
        }
        if self.limits.allowed_domains.len() == 0 {
            return true;
        }
        let dom = chars_of(domain);
        let ghost ds = string_views(self.limits.allowed_domains@);
        let mut i: usize = 0;
        while i < self.limits.allowed_domains.len()
            invariant
                i <= self.limits.allowed_domains@.len(),
                ds == string_views(self.limits.allowed_domains@),
                dom@ == domain@,
                self.limits.allow_network,
                self.limits.allowed_domains@.len() > 0,
                forall|j: int| 0 <= j < i ==> !domain_matches(domain@, #[trigger] ds[j]),
            decreases self.limits.allowed_domains.len() - i,
        {
            let d = chars_of(self.limits.allowed_domains[i].as_str());
            assert(ds[i as int] == d@);
            let mut dotted: Vec<char> = Vec::new();
            dotted.push('.');
            push_all(&mut dotted, d.as_slice());
            assert(dotted@ =~= seq!['.'] + d@);
            if chars_eq(dom.as_slice(), d.as_slice()) || ends_with_exec(dom.as_slice(), dotted.as_slice()) {
                assert(domain_matches(domain@, ds[i as int]));
                return true;
            }
            i = i + 1;
        }
        false
    }

    /// Checks a network request to `url` against the sandbox: the network
    /// must be enabled, the URL must parse, and its host, if it has one,
    /// must be allowed.
    pub fn validate_network_request(&self, url: &str) -> (r: Result<(), SandboxError>)
        ensures
            !self.spec_limits().allow_network ==> r matches Err(SandboxError::NetworkDisabled),
            self.spec_limits().allow_network ==> match url_parse(url@) {
                Err(e) => r matches Err(SandboxError::InvalidUrl(m)) && m@ == e,
                Ok((_, Some(host), _)) => if domain_rule(true, string_views(self.spec_limits().allowed_domains@), host) {
                    r is Ok
                } else {
                    r matches Err(SandboxError::DomainNotAllowed { host: h, allowed: a })
                        && h@ == host && string_views(a@) == string_views(self.spec_limits().allowed_domains@)
                },
                Ok((_, None, _)) => r is Ok,
            },
    {
        if !self.limits.allow_network {
            return Err(SandboxError::NetworkDisabled);
        }
        let parsed = match parse_url(url) {
            Ok(p) => p,
            Err(m) => return Err(SandboxError::InvalidUrl(m)),
        };
        match parsed.host {
            Some(host) => {
                if !self.is_domain_allowed(host.as_str()) {
                    let limits = self.limits.clone();
                    return Err(SandboxError::DomainNotAllowed { host, allowed: limits.allowed_domains });
                }
                Ok(())
            },
            None => Ok(()),
        }
    }

    /// The text of the README placed in a run's directory.
    pub fn readme_text(&self, execution_id: &str) -> (s: String)
        ensures
            s@ == "Sandbox directory for execution: "@ + execution_id@
                + "\nThis directory is isolated for this execution only.\nNetwork access: "@
                + (if self.spec_limits().allow_network { "allowed"@ } else { "denied"@ })
                + "\nFile write access: "@
                + (if self.spec_limits().allow_file_write { "allowed"@ } else { "read-only"@ })
                + "\n"@,
    {
        let mut t: Vec<char> = Vec::new();
        push_str(&mut t, "Sandbox directory for execution: ");
        push_str(&mut t, execution_id);
        push_str(&mut t, "\nThis directory is isolated for this execution only.\nNetwork access: ");
        if self.limits.allow_network {
            push_str(&mut t, "allowed");
        } else {
            push_str(&mut t, "denied");
        }
        push_str(&mut t, "\nFile write access: ");
        if self.limits.allow_file_write {
            push_str(&mut t, "allowed");
        } else {
            push_str(&mut t, "read-only");
        }
        push_str(&mut t, "\n");
        string_from_chars(t.as_slice())
    }

    /// The memory limit in bytes: 64 KiB per Wasm page.
    pub fn max_memory_bytes(&self) -> (n: u32)
        requires
            self.spec_limits().max_memory_pages * 65536 <= u32::MAX,
        ensures
            n == self.spec_limits().max_memory_pages * 65536,
    {
        self.limits.max_memory_pages * 64 * 1024
    }
}

/// The path rule allows exactly the paths under an allowed root: a
/// blocked root never overrides one.
pub proof fn lemma_path_rule_is_allowed_roots(path: Seq<char>, allowed: Seq<Seq<char>>, blocked: Seq<Seq<char>>)
    ensures
        path_rule(path, allowed, blocked) == under_any(path, allowed),
{
}

/// The rules of outgoing requests.
pub struct NetworkPolicy {
    allowed_schemes: Vec<String>,
    blocked_ports: Vec<u16>,
    max_request_size: usize,
    allowed_methods: Vec<String>,
}

pub open spec fn default_schemes() -> Seq<Seq<char>> {
    seq!["http"@, "https"@]
}

pub open spec fn default_blocked_ports() -> Seq<u16> {
    seq![22u16, 23u16, 3306u16, 5432u16, 27017u16, 6379u16]
}

pub open spec fn default_methods() -> Seq<Seq<char>> {
    seq!["GET"@, "POST"@, "HEAD"@]
}

impl NetworkPolicy {
    pub closed spec fn schemes(&self) -> Seq<Seq<char>> {
        string_views(self.allowed_schemes@)
    }

    pub closed spec fn blocked(&self) -> Seq<u16> {
        self.blocked_ports@
    }

    pub closed spec fn methods(&self) -> Seq<Seq<char>> {
        string_views(self.allowed_methods@)
    }

    pub closed spec fn spec_max_request_size(&self) -> usize {
        self.max_request_size
    }

    /// The largest request body the policy allows, in bytes.
    pub fn max_request_size(&self) -> (n: usize)
        ensures
            n == self.spec_max_request_size(),
    {
        self.max_request_size
    }

    fn contains_string(v: &Vec<String>, s: &str) -> (b: bool)
        ensures
            b == string_views(v@).contains(s@),
    {
        let cs = chars_of(s);
        let mut i: usize = 0;
        while i < v.len()
            invariant
                i <= v@.len(),
                cs@ == s@,
                forall|j: int| 0 <= j < i ==> #[trigger] string_views(v@)[j] != s@,
            decreases v.len() - i,
        {
            let e = chars_of(v[i].as_str());
            if chars_eq(e.as_slice(), cs.as_slice()) {
                assert(string_views(v@)[i as int] == s@);
                return true;
            }
            i = i + 1;
        }
        false
    }

    fn contains_port(v: &Vec<u16>, p: u16) -> (b: bool)
        ensures
            b == v@.contains(p),
    {
        let mut i: usize = 0;
        while i < v.len()
            invariant
                i <= v@.len(),
                forall|j: int| 0 <= j < i ==> v@[j] != p,
            decreases v.len() - i,
        {
            if v[i] == p {
                return true;
            }
            i = i + 1;
        }
        false
    }

    /// Checks a request of `method` to `url`: the URL must parse, its
    /// scheme be allowed, its explicit port not be blocked, and the method
    /// be allowed, checked in that order.
    pub fn validate(&self, url: &str, method: &str) -> (r: Result<(), SandboxError>)
        ensures
            match url_parse(url@) {
                Err(e) => r matches Err(SandboxError::InvalidUrl(m)) && m@ == e,
                Ok((scheme, _, port)) => if !self.schemes().contains(scheme) {
                    r matches Err(SandboxError::SchemeNotAllowed(s)) && s@ == scheme
                } else if port is Some && self.blocked().contains(port->0) {
                    r matches Err(SandboxError::PortBlocked(p)) && p == port->0
                } else if !self.methods().contains(method@) {
                    r matches Err(SandboxError::MethodNotAllowed(m)) && m@ == method@
                } else {
                    r is Ok
                },
            },
    {
        let parsed = match parse_url(url) {
            Ok(p) => p,
            Err(m) => return Err(SandboxError::InvalidUrl(m)),
        };
        if !Self::contains_string(&self.allowed_schemes, parsed.scheme.as_str()) {
            return Err(SandboxError::SchemeNotAllowed(parsed.scheme));
        }
        match parsed.port {
            Some(port) => {
                if Self::contains_port(&self.blocked_ports, port) {
                    return Err(SandboxError::PortBlocked(port));
                }
            },
            None => {},
        }
        if !Self::contains_string(&self.allowed_methods, method) {
            return Err(SandboxError::MethodNotAllowed(String::from_str(method)));
        }
        Ok(())
    }
}

impl Default for NetworkPolicy {
    /// HTTP and HTTPS; ports 22, 23, 3306, 5432, 27017 and 6379 blocked;
    /// 10 MiB requests; GET, POST and HEAD.
    fn default() -> (p: Self)
        ensures
            p.schemes() == default_schemes(),
            p.blocked() == default_blocked_ports(),
            p.spec_max_request_size() == 10 * 1024 * 1024,
            p.methods() == default_methods(),
    {
        let p = NetworkPolicy {
            allowed_schemes: vec![String::from_str("http"), String::from_str("https")],
            blocked_ports: vec![22, 23, 3306, 5432, 27017, 6379],
            max_request_size: 10 * 1024 * 1024,
            allowed_methods: vec![String::from_str("GET"), String::from_str("POST"), String::from_str("HEAD")],
        };
        assert(p.schemes() =~= default_schemes());
        assert(p.blocked() =~= default_blocked_ports());
        assert(p.methods() =~= default_methods());
        p
    }
}

} // verus!

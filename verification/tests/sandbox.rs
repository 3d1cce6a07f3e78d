use wasi_code_executor::sandbox::{NetworkPolicy, SandboxConfig, SandboxError};
use wasi_code_executor::types::SandboxLimits;

fn limits(dir: &str, network: bool, domains: &[&str]) -> SandboxLimits {
    let mut l = SandboxLimits::default();
    l.sandbox_dir = dir.to_string();
    l.allow_network = network;
    l.allowed_domains = domains.iter().map(|d| d.to_string()).collect();
    l
}

#[test]
fn paths_under_the_sandbox_directory_are_allowed() {
    let c = SandboxConfig::new(limits("/tmp/sbx", false, &[])).ok().unwrap();
    assert!(c.is_path_allowed("/tmp/sbx"));
    assert!(c.is_path_allowed("/tmp/sbx/a/b.txt"));
    assert!(!c.is_path_allowed("/tmp/sbx2"));
    assert!(!c.is_path_allowed("/etc/passwd"));
    assert!(!c.is_path_allowed("/tmp/other"));
}

#[test]
fn allowed_directory_overrides_a_blocked_root() {
    let c = SandboxConfig::new(limits("/home/runner/sandbox", false, &[])).ok().unwrap();
    assert!(c.is_path_allowed("/home/runner/sandbox/x"));
    assert!(!c.is_path_allowed("/home/runner/other"));
}

#[test]
fn relative_sandbox_directory_allows_no_canonical_path() {
    let c = SandboxConfig::new(SandboxLimits::default()).ok().unwrap();
    assert!(!c.is_path_allowed("/home/user/sandbox"));
    assert_eq!(c.limits().sandbox_dir, "./sandbox");
}

#[test]
fn domains_follow_the_network_settings() {
    let off = SandboxConfig::new(limits("/s", false, &["example.com"])).ok().unwrap();
    assert!(!off.is_domain_allowed("example.com"));
    let any = SandboxConfig::new(limits("/s", true, &[])).ok().unwrap();
    assert!(any.is_domain_allowed("anything.org"));
    let some = SandboxConfig::new(limits("/s", true, &["example.com"])).ok().unwrap();
    assert!(some.is_domain_allowed("example.com"));
    assert!(some.is_domain_allowed("api.example.com"));
    assert!(!some.is_domain_allowed("badexample.com"));
    assert!(!some.is_domain_allowed("example.org"));
}

#[test]
fn network_requests_are_checked() {
    let off = SandboxConfig::new(limits("/s", false, &[])).ok().unwrap();
    assert!(matches!(off.validate_network_request("https://example.com"), Err(SandboxError::NetworkDisabled)));
    let some = SandboxConfig::new(limits("/s", true, &["example.com"])).ok().unwrap();
    assert!(some.validate_network_request("https://api.example.com/x").is_ok());
    match some.validate_network_request("https://evil.com/x") {
        Err(SandboxError::DomainNotAllowed { host, allowed }) => {
            assert_eq!(host, "evil.com");
            assert_eq!(allowed, vec!["example.com".to_string()]);
        }
        _ => panic!("expected a refused domain"),
    }
    match some.validate_network_request("not a url") {
        Err(SandboxError::InvalidUrl(m)) => assert_eq!(m, "relative URL without a base"),
        _ => panic!("expected an invalid URL"),
    }
}

#[test]
fn network_policy_checks_scheme_port_and_method() {
    let p = NetworkPolicy::default();
    assert_eq!(p.max_request_size(), 10 * 1024 * 1024);
    assert!(p.validate("https://example.com/", "GET").is_ok());
    assert!(p.validate("http://example.com:8080/", "HEAD").is_ok());
    assert!(matches!(p.validate("ftp://example.com/", "GET"), Err(SandboxError::SchemeNotAllowed(s)) if s == "ftp"));
    assert!(matches!(p.validate("http://example.com:22/", "GET"), Err(SandboxError::PortBlocked(22))));
    assert!(matches!(p.validate("https://example.com/", "DELETE"), Err(SandboxError::MethodNotAllowed(m)) if m == "DELETE"));
    assert!(matches!(p.validate("::", "GET"), Err(SandboxError::InvalidUrl(_))));
}

#[test]
fn readme_describes_the_sandbox() {
    let c = SandboxConfig::new(limits("/s", true, &[])).ok().unwrap();
    assert_eq!(
        c.readme_text("abc"),
        "Sandbox directory for execution: abc\nThis directory is isolated for this execution only.\nNetwork access: allowed\nFile write access: read-only\n"
    );
}

#[test]
fn memory_limit_is_counted_in_pages() {
    let c = SandboxConfig::new(SandboxLimits::default()).ok().unwrap();
    assert_eq!(c.max_memory_bytes(), 256 * 64 * 1024);
}

#[test]
fn refusals_carry_their_messages() {
    assert_eq!(SandboxError::NetworkDisabled.message(), "Network access is disabled in this sandbox");
    assert_eq!(SandboxError::PortBlocked(22).message(), "Port 22 is blocked");
    assert_eq!(SandboxError::SchemeNotAllowed("ftp".to_string()).message(), "Scheme 'ftp' is not allowed");
    assert_eq!(SandboxError::MethodNotAllowed("PUT".to_string()).message(), "Method 'PUT' is not allowed");
    assert_eq!(SandboxError::InvalidUrl("bad".to_string()).message(), "Invalid URL: bad");
    let e = SandboxError::DomainNotAllowed {
        host: "evil.com".to_string(),
        allowed: vec!["example.com".to_string(), "api.test".to_string()],
    };
    assert_eq!(
        e.message(),
        "Domain 'evil.com' is not in the allowed list. Allowed domains: [\"example.com\", \"api.test\"]"
    );
}

use remi::engine::{build_request, split_host_port};
use remi::resolve::{redirect, resolve};

#[test]
fn document_suffix_replaces_last_segment() {
    let r = resolve("example.org", "gemini://example.org/a/b.gmi", "c.gmi");
    assert_eq!(
        r,
        Some(("example.org".to_string(), "gemini://example.org/a/c.gmi".to_string()))
    );
}

#[test]
fn relative_segment_appended_to_directory() {
    let r = resolve("example.org", "gemini://example.org/a/", "c");
    assert_eq!(
        r,
        Some(("example.org".to_string(), "gemini://example.org/a/c".to_string()))
    );
}

#[test]
fn relative_segment_gets_separator_when_missing() {
    let r = resolve("example.org", "gemini://example.org/a", "c");
    assert_eq!(
        r,
        Some(("example.org".to_string(), "gemini://example.org/a/c".to_string()))
    );
}

#[test]
fn document_suffix_on_plain_base_appends() {
    let r = resolve("example.org", "gemini://example.org/a", "c.gmi");
    assert_eq!(
        r,
        Some(("example.org".to_string(), "gemini://example.org/ac.gmi".to_string()))
    );
}

#[test]
fn absolute_target_replaces_host() {
    let r = resolve("example.org", "gemini://example.org/", "gemini://other.net/dir/page");
    assert_eq!(
        r,
        Some(("other.net".to_string(), "gemini://other.net/dir/page".to_string()))
    );
}

#[test]
fn absolute_target_without_path() {
    let r = resolve("example.org", "gemini://example.org/", "gemini://other.net");
    assert_eq!(r, Some(("other.net".to_string(), "gemini://other.net".to_string())));
}

#[test]
fn bare_scheme_prefix_rejected() {
    assert_eq!(resolve("example.org", "gemini://example.org/", "gemini://"), None);
}

#[test]
fn other_schemes_rejected() {
    assert_eq!(resolve("example.org", "gemini://example.org/", "https://x.org/"), None);
    assert_eq!(resolve("example.org", "gemini://example.org/", "ftp://x.org"), None);
}

#[test]
fn rooted_target_keeps_host() {
    let r = resolve("example.org", "gemini://example.org/deep/dir/", "/top");
    assert_eq!(r, Some(("example.org".to_string(), "gemini://example.org/top".to_string())));
}

#[test]
fn resolving_twice_yields_same_output() {
    let first = resolve("example.org", "gemini://example.org/a/b.gmi", "c.gmi");
    let second = resolve("example.org", "gemini://example.org/a/b.gmi", "c.gmi");
    assert_eq!(first, second);
}

#[test]
fn redirect_mutates_in_place_on_success() {
    let mut host = "example.org".to_string();
    let mut req = "gemini://example.org/a/".to_string();
    assert!(redirect(&mut host, &mut req, "c"));
    assert_eq!(host, "example.org");
    assert_eq!(req, "gemini://example.org/a/c");
}

#[test]
fn redirect_leaves_state_on_rejection() {
    let mut host = "example.org".to_string();
    let mut req = "gemini://example.org/a/".to_string();
    assert!(!redirect(&mut host, &mut req, "https://elsewhere.org/"));
    assert_eq!(host, "example.org");
    assert_eq!(req, "gemini://example.org/a/");
}

#[test]
fn host_port_split() {
    assert_eq!(
        split_host_port("example.org:1966"),
        ("example.org".to_string(), "1966".to_string())
    );
    assert_eq!(split_host_port("example.org"), ("example.org".to_string(), "1965".to_string()));
}

#[test]
fn request_payload_has_crlf_terminator() {
    assert_eq!(build_request("gemini://example.org/"), "gemini://example.org/\r\n");
    assert_eq!(build_request("gemini://example.org/  \n"), "gemini://example.org/\r\n");
}

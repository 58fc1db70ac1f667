use spiders::url::resolve;
use spiders::url::Url;

#[test]
fn parse_absolute_url() {
    let u = Url::parse(b"http://x.test/a/b").unwrap();
    assert_eq!(u.text(), b"http://x.test/a/b".to_vec());
    assert_eq!(u.scheme_ref().as_slice(), b"http");
    assert_eq!(u.host_ref().as_slice(), b"x.test");
    assert_eq!(u.path_ref().as_slice(), b"/a/b");
}

#[test]
fn parse_absolute_url_without_path() {
    let u = Url::parse(b"https://a.example").unwrap();
    assert_eq!(u.host_ref().as_slice(), b"a.example");
    assert_eq!(u.path_ref().as_slice(), b"");
    assert_eq!(u.text(), b"https://a.example".to_vec());
}

#[test]
fn parse_rejects_non_absolute_text() {
    assert!(Url::parse(b"").is_none());
    assert!(Url::parse(b"#").is_none());
    assert!(Url::parse(b"/y").is_none());
    assert!(Url::parse(b"//b.example/x").is_none());
    assert!(Url::parse(b"http://").is_none());
    assert!(Url::parse(b"://x.test/").is_none());
    assert!(Url::parse(b"mailto:someone").is_none());
}

#[test]
fn resolve_returns_absolute_candidate_unchanged() {
    let base = Url::parse(b"https://a.example/dir/").unwrap();
    let r = resolve(&base, b"https://b.example/x").unwrap();
    assert_eq!(r.text(), b"https://b.example/x".to_vec());
    let r2 = resolve(&base, b"http://a.example").unwrap();
    assert_eq!(r2.text(), b"http://a.example".to_vec());
}

#[test]
fn resolve_bare_fragment_is_nothing() {
    let bases: [&[u8]; 3] = [b"https://a.example", b"http://x.test/", b"ftp://f.test/d/"];
    for b in bases {
        let base = Url::parse(b).unwrap();
        assert!(resolve(&base, b"#").is_none());
    }
}

#[test]
fn resolve_protocol_relative_takes_base_scheme() {
    let base = Url::parse(b"https://a.example").unwrap();
    let r = resolve(&base, b"//b.example/x").unwrap();
    assert_eq!(r.text(), b"https://b.example/x".to_vec());
}

#[test]
fn resolve_path_only_builds_from_base_root() {
    let base = Url::parse(b"https://a.example/dir/").unwrap();
    let r = resolve(&base, b"/y").unwrap();
    assert_eq!(r.text(), b"https://a.example/y".to_vec());
}

#[test]
fn resolve_failures_are_silent() {
    let base = Url::parse(b"https://a.example").unwrap();
    // protocol-relative with an empty host synthesizes an unparsable text
    assert!(resolve(&base, b"//").is_none());
}

use webcrawler::Address;

#[test]
fn parse_accepts_absolute_url() {
    let a = Address::parse("http://a.test/page?q=1").expect("should parse");
    assert_eq!(a.as_str(), "http://a.test/page?q=1");
    assert_eq!(a.host_str(), Some("a.test"));
}

#[test]
fn parse_normalizes_scheme_host_and_path() {
    // the parser normalizes, so the stored text differs from the input
    let a = Address::parse("HTTP://A.Test").expect("should parse");
    assert_eq!(a.as_str(), "http://a.test/");
    assert_eq!(a.host_str(), Some("a.test"));
}

#[test]
fn parse_rejects_relative_and_garbage() {
    assert!(Address::parse("/just/a/path").is_none());
    assert!(Address::parse("not a url at all").is_none());
    assert!(Address::parse("").is_none());
}

#[test]
fn parse_accepts_hostless_scheme() {
    let a = Address::parse("data:text/plain,hello").expect("should parse");
    assert_eq!(a.host_str(), None);
}

#[test]
fn duplicate_is_identical() {
    let a = Address::parse("https://a.test/x").expect("should parse");
    let b = a.duplicate();
    assert_eq!(a.as_str(), b.as_str());
    assert_eq!(a.host_str(), b.host_str());
}

use webcrawler::{Address, Parser, Storage};

fn page_for(url: &str) -> webcrawler::Page {
    let addr = Address::parse(url).expect("should parse");
    Parser::new().parse(&addr, String::new(), 0).expect("parse never fails")
}

#[test]
fn mark_visited_claims_exactly_once() {
    let mut s = Storage::new();
    let a = Address::parse("http://a.test/").expect("should parse");
    assert_eq!(s.mark_visited(&a), true);
    assert_eq!(s.mark_visited(&a), false);
}

#[test]
fn mark_visited_is_idempotent_under_interleaving() {
    let mut s = Storage::new();
    let x = Address::parse("http://x.test/").expect("should parse");
    let y = Address::parse("http://y.test/").expect("should parse");
    let z = Address::parse("http://z.test/").expect("should parse");
    assert_eq!(s.mark_visited(&x), true);
    assert_eq!(s.mark_visited(&y), true);
    assert_eq!(s.mark_visited(&z), true);
    // claims of other addresses in between never free a claimed one
    assert_eq!(s.mark_visited(&x), false);
    assert_eq!(s.mark_visited(&x), false);
}

#[test]
fn domain_page_count_counts_stored_pages_per_host() {
    let mut s = Storage::new();
    assert_eq!(s.domain_page_count("a.test"), 0);
    s.store_page(page_for("http://a.test/1"));
    s.store_page(page_for("http://a.test/2"));
    s.store_page(page_for("http://b.test/1"));
    assert_eq!(s.domain_page_count("a.test"), 2);
    assert_eq!(s.domain_page_count("b.test"), 1);
    assert_eq!(s.domain_page_count("c.test"), 0);
}

#[test]
fn get_pages_returns_pages_in_completion_order() {
    let mut s = Storage::new();
    s.store_page(page_for("http://a.test/1"));
    s.store_page(page_for("http://b.test/2"));
    let pages = s.get_pages();
    assert_eq!(pages.len(), 2);
    assert_eq!(pages[0].url.as_str(), "http://a.test/1");
    assert_eq!(pages[1].url.as_str(), "http://b.test/2");
}

use webcrawler::{Address, Parser};

#[test]
fn parse_extracts_and_resolves_links() {
    let base = Address::parse("http://a.test/dir/page.html").expect("should parse");
    let html = String::from(
        "<html><body>\
         <a href=\"/x\">rooted</a>\
         <a href=\"y.html\">relative</a>\
         <a href=\"http://b.test/z\">absolute</a>\
         </body></html>",
    );
    let page = Parser::new().parse(&base, html, 2).expect("parse never fails");
    let links: Vec<&str> = page.links.iter().map(|a| a.as_str()).collect();
    assert_eq!(
        links,
        vec!["http://a.test/x", "http://a.test/dir/y.html", "http://b.test/z"]
    );
    assert_eq!(page.url.as_str(), "http://a.test/dir/page.html");
    assert_eq!(page.depth, 2);
}

#[test]
fn parse_discards_non_web_schemes_and_malformed_links() {
    let base = Address::parse("http://a.test/").expect("should parse");
    let html = String::from(
        "<a href=\"mailto:someone@a.test\">mail</a>\
         <a href=\"javascript:void(0)\">script</a>\
         <a href=\"ftp://files.a.test/f\">ftp</a>\
         <a href=\"http://ok.test/\">ok</a>\
         <a href=\"http://[bad\">broken</a>",
    );
    let page = Parser::new().parse(&base, html, 0).expect("parse never fails");
    let links: Vec<&str> = page.links.iter().map(|a| a.as_str()).collect();
    assert_eq!(links, vec!["http://ok.test/"]);
}

#[test]
fn parse_of_linkless_document_yields_no_links() {
    let base = Address::parse("http://a.test/").expect("should parse");
    let page = Parser::new()
        .parse(&base, String::from("<p>plain text, no anchors</p>"), 0)
        .expect("parse never fails");
    assert!(page.links.is_empty());
    assert_eq!(page.content, "<p>plain text, no anchors</p>");
}

#[test]
fn parse_keeps_anchors_without_href_out() {
    let base = Address::parse("http://a.test/").expect("should parse");
    let page = Parser::new()
        .parse(&base, String::from("<a name=\"top\">anchor</a><a href=\"/x\">x</a>"), 1)
        .expect("parse never fails");
    let links: Vec<&str> = page.links.iter().map(|a| a.as_str()).collect();
    assert_eq!(links, vec!["http://a.test/x"]);
}

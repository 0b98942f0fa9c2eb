use webcrawler::{Address, CrawlConfig, CrawlerError, Fetcher};

fn config_with_delay(delay_ms: u64) -> CrawlConfig {
    let mut c = CrawlConfig::default();
    c.delay_ms = delay_ms;
    c
}

#[test]
fn first_request_to_a_host_goes_out_at_once() {
    let mut f = Fetcher::new(&config_with_delay(100));
    let a = Address::parse("http://a.test/").expect("should parse");
    assert_eq!(f.prepare_request(&a, 1000), Ok(None));
}

#[test]
fn requests_to_one_host_are_spaced_by_the_delay() {
    let mut f = Fetcher::new(&config_with_delay(100));
    let a = Address::parse("http://a.test/").expect("should parse");
    assert_eq!(f.prepare_request(&a, 1000), Ok(None));
    // 50 ms later: 50 ms still to wait, nothing recorded
    assert_eq!(f.prepare_request(&a, 1050), Ok(Some(50)));
    // exactly at the minimum interval: go
    assert_eq!(f.prepare_request(&a, 1100), Ok(None));
    assert_eq!(f.prepare_request(&a, 1100), Ok(Some(100)));
}

#[test]
fn hosts_are_limited_independently() {
    let mut f = Fetcher::new(&config_with_delay(100));
    let a = Address::parse("http://a.test/").expect("should parse");
    let b = Address::parse("http://b.test/").expect("should parse");
    assert_eq!(f.prepare_request(&a, 1000), Ok(None));
    assert_eq!(f.prepare_request(&b, 1000), Ok(None));
    assert_eq!(f.prepare_request(&a, 1010), Ok(Some(90)));
    assert_eq!(f.prepare_request(&b, 1010), Ok(Some(90)));
}

#[test]
fn zero_delay_means_no_waiting() {
    let mut f = Fetcher::new(&config_with_delay(0));
    let a = Address::parse("http://a.test/").expect("should parse");
    assert_eq!(f.prepare_request(&a, 5), Ok(None));
    assert_eq!(f.prepare_request(&a, 5), Ok(None));
}

#[test]
fn hostless_address_fails_with_missing_host() {
    let mut f = Fetcher::new(&config_with_delay(100));
    let a = Address::parse("data:text/plain,hi").expect("should parse");
    assert_eq!(f.prepare_request(&a, 1000), Err(CrawlerError::MissingHost));
}

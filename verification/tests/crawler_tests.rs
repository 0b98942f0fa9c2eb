use webcrawler::{CrawlConfig, Crawler, CrawlerError, FetchOutcome, Page, Step};

/// A page of the fake web: an address, and what fetching it yields.
struct Site {
    url: String,
    outcome: Result<String, CrawlerError>,
}

fn site(url: &str, body: &str) -> Site {
    Site { url: String::from(url), outcome: Ok(String::from(body)) }
}

fn broken(url: &str, err: CrawlerError) -> Site {
    Site { url: String::from(url), outcome: Err(err) }
}

/// Drives a whole crawl against a fake web, completing every handed-out fetch
/// at once. Returns the stored pages and the addresses that were handed out
/// for fetching, in hand-out order.
fn run_crawl(config: CrawlConfig, seed: &str, web: &[Site]) -> (Vec<Page>, Vec<String>) {
    let mut crawler = Crawler::new(config);
    crawler.start(seed).expect("seed should be accepted");
    let mut handed_out: Vec<String> = Vec::new();
    loop {
        match crawler.next_action() {
            Step::Fetch(task) => {
                handed_out.push(task.addr.as_str().to_owned());
                let outcome = match web.iter().find(|s| s.url == task.addr.as_str()) {
                    Some(found) => match &found.outcome {
                        Ok(body) => FetchOutcome::Content(body.clone()),
                        Err(e) => FetchOutcome::Failed(*e),
                    },
                    None => FetchOutcome::Failed(CrawlerError::HttpStatus),
                };
                assert!(crawler.complete(&task.addr, outcome));
            }
            Step::Skip(_) => {}
            Step::Wait => panic!("nothing is ever left in flight here"),
            Step::Done => break,
        }
    }
    (crawler.into_pages(), handed_out)
}

fn sequential_config(max_depth: usize) -> CrawlConfig {
    let mut c = CrawlConfig::default();
    c.max_depth = max_depth;
    c.concurrent_requests = 1;
    c
}

fn urls_of(pages: &[Page]) -> Vec<&str> {
    let mut v: Vec<&str> = pages.iter().map(|p| p.url.as_str()).collect();
    v.sort();
    v
}

#[test]
fn scenario_two_links_at_depth_one() {
    // seed links to one page on its own host and one on another; both succeed
    // with no further links
    let web = [
        site("http://a.test/", "<a href=\"http://a.test/x\">x</a><a href=\"http://b.test/y\">y</a>"),
        site("http://a.test/x", "no links here"),
        site("http://b.test/y", "none here either"),
    ];
    let (pages, handed_out) = run_crawl(sequential_config(1), "http://a.test/", &web);
    assert_eq!(
        urls_of(&pages),
        vec!["http://a.test/", "http://a.test/x", "http://b.test/y"]
    );
    assert_eq!(handed_out.len(), 3);
}

#[test]
fn scenario_depth_zero_fetches_only_the_seed() {
    let web = [
        site("http://a.test/", "<a href=\"http://a.test/x\">x</a><a href=\"http://b.test/y\">y</a>"),
        site("http://a.test/x", "unreachable at depth 0"),
    ];
    let (pages, handed_out) = run_crawl(sequential_config(0), "http://a.test/", &web);
    assert_eq!(handed_out, vec!["http://a.test/"]);
    assert_eq!(pages.len(), 1);
    // the links were still discovered and recorded on the page
    assert_eq!(pages[0].links.len(), 2);
}

#[test]
fn at_most_once_fetch_under_mass_duplicate_discovery() {
    // every page links to the same address many times, and the seed reaches
    // it both directly and through another page
    let many = "<a href=\"http://c.test/hot\">h</a>".repeat(100);
    let seed_body = format!("{}<a href=\"http://a.test/mid\">m</a>", many);
    let web = [
        Site { url: String::from("http://a.test/"), outcome: Ok(seed_body) },
        Site { url: String::from("http://a.test/mid"), outcome: Ok(many) },
        site("http://c.test/hot", "quiet"),
    ];
    let (_, handed_out) = run_crawl(sequential_config(3), "http://a.test/", &web);
    let hot_fetches = handed_out.iter().filter(|u| u.as_str() == "http://c.test/hot").count();
    assert_eq!(hot_fetches, 1);
    // no address at all was handed out twice
    let mut sorted = handed_out.clone();
    sorted.sort();
    sorted.dedup();
    assert_eq!(sorted.len(), handed_out.len());
}

#[test]
fn isolation_one_failure_does_not_stop_siblings() {
    let web = [
        site("http://a.test/", "<a href=\"http://b.test/\">b</a><a href=\"http://c.test/\">c</a>"),
        broken("http://b.test/", CrawlerError::Network),
        site("http://c.test/", "fine"),
    ];
    let (pages, _) = run_crawl(sequential_config(1), "http://a.test/", &web);
    let urls = urls_of(&pages);
    assert!(urls.contains(&"http://c.test/"));
    assert!(!urls.contains(&"http://b.test/"));
}

#[test]
fn domain_quota_bounds_stored_pages_per_host() {
    let mut config = sequential_config(2);
    config.max_pages_per_domain = 1;
    let web = [
        site(
            "http://a.test/",
            "<a href=\"http://a.test/x\">x</a><a href=\"http://a.test/y\">y</a><a href=\"http://b.test/\">b</a>",
        ),
        site("http://a.test/x", "more"),
        site("http://a.test/y", "more"),
        site("http://b.test/", "other host"),
    ];
    let (pages, _) = run_crawl(config, "http://a.test/", &web);
    let a_pages = pages.iter().filter(|p| p.url.host_str() == Some("a.test")).count();
    let b_pages = pages.iter().filter(|p| p.url.host_str() == Some("b.test")).count();
    assert_eq!(a_pages, 1);
    assert_eq!(b_pages, 1);
}

#[test]
fn invalid_seed_aborts_before_any_work() {
    let mut crawler = Crawler::new(CrawlConfig::default());
    assert_eq!(crawler.start("definitely not a url"), Err(CrawlerError::InvalidSeed));
    match crawler.next_action() {
        Step::Done => {}
        _ => panic!("an aborted crawl has no work"),
    }
    assert!(crawler.into_pages().is_empty());
}

#[test]
fn concurrency_gate_holds_back_further_tasks() {
    let mut config = CrawlConfig::default();
    config.concurrent_requests = 1;
    config.max_depth = 1;
    let mut crawler = Crawler::new(config);
    crawler.start("http://a.test/").expect("seed should be accepted");
    let first = match crawler.next_action() {
        Step::Fetch(task) => task,
        _ => panic!("the seed should be handed out"),
    };
    // the seed's fetch is still in flight: nothing else may start
    match crawler.next_action() {
        Step::Wait => {}
        _ => panic!("no second task may start while one is in flight"),
    }
    let body = String::from("<a href=\"http://a.test/x\">x</a>");
    assert!(crawler.complete(&first.addr, FetchOutcome::Content(body)));
    match crawler.next_action() {
        Step::Fetch(task) => assert_eq!(task.addr.as_str(), "http://a.test/x"),
        _ => panic!("the discovered link should be handed out next"),
    }
}

#[test]
fn completing_an_unknown_address_changes_nothing() {
    let mut crawler = Crawler::new(sequential_config(1));
    crawler.start("http://a.test/").expect("seed should be accepted");
    let stray = webcrawler::Address::parse("http://stray.test/").expect("should parse");
    assert!(!crawler.complete(&stray, FetchOutcome::Content(String::from("hm"))));
}

#[test]
fn default_config_values() {
    let c = CrawlConfig::default();
    assert_eq!(c.max_depth, 3);
    assert_eq!(c.max_pages_per_domain, 100);
    assert_eq!(c.user_agent, "Rust-Webcrawler/0.1");
    assert_eq!(c.concurrent_requests, 10);
    assert_eq!(c.delay_ms, 100);
}

#[test]
fn stored_depths_never_exceed_the_ceiling() {
    let web = [
        site("http://a.test/", "<a href=\"http://a.test/1\">1</a>"),
        site("http://a.test/1", "<a href=\"http://a.test/2\">2</a>"),
        site("http://a.test/2", "<a href=\"http://a.test/3\">3</a>"),
        site("http://a.test/3", "deep"),
    ];
    let (pages, handed_out) = run_crawl(sequential_config(2), "http://a.test/", &web);
    assert!(pages.iter().all(|p| p.depth <= 2));
    assert_eq!(pages.len(), 3);
    assert!(!handed_out.contains(&String::from("http://a.test/3")));
}

#[test]
fn starting_the_same_seed_twice_schedules_it_once() {
    let mut crawler = Crawler::new(sequential_config(1));
    crawler.start("http://a.test/").expect("seed should be accepted");
    crawler.start("http://a.test/").expect("a repeated seed is not an error");
    match crawler.next_action() {
        Step::Fetch(task) => {
            assert_eq!(task.addr.as_str(), "http://a.test/");
            assert!(crawler.complete(&task.addr, FetchOutcome::Content(String::new())));
        }
        _ => panic!("the seed should be handed out once"),
    }
    match crawler.next_action() {
        Step::Done => {}
        _ => panic!("the second start must not schedule a second task"),
    }
}

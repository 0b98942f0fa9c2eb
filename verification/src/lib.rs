//! A breadth-first web crawler core.
//!
//! The crate verifies the crawl orchestration logic: frontier expansion with
//! claim-before-fetch deduplication, depth and per-domain quotas, a bounded
//! concurrency gate, and per-host rate limiting. Network I/O and the async
//! runtime live outside the library and drive it through a step interface:
//! the orchestrator hands out fetch tasks and the caller reports each fetch's
//! outcome back.

pub mod address;
pub mod crawler;
pub mod fetcher;
pub mod parser;
pub mod storage;

pub use address::Address;
pub use crawler::{CrawlConfig, CrawlTask, Crawler, CrawlerError, FetchOutcome, Page, Step};
pub use fetcher::Fetcher;
pub use parser::Parser;
pub use storage::Storage;

//! The crawl: its parts, leaves first.

pub mod checkpoint;
pub mod notify;
pub mod parse;
pub mod snapshot;
pub mod text;
pub mod traversal;
pub mod visited;

pub use checkpoint::{get_next_crawler_checkpoint_name, parse_crawl_number};

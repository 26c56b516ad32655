//! A bounded crawler for one wiki site: link and image extraction, the set of
//! visited pages with its snapshot format, checkpoint naming, and the
//! depth-first traversal as a state machine that a driver feeds with the
//! outcomes of its network calls.

pub mod crawl;

//! A verified core for a website mirroring tool: URL classification,
//! link extraction from raw page bytes, URL-to-filesystem path mapping,
//! the visited-set-guarded crawl engine, and the offline link rewriter.

pub mod bytes;
pub mod urls;
pub mod classify;
pub mod extract;
pub mod paths;
pub mod engine;
pub mod rewrite;
pub mod cli;
pub mod sizefmt;

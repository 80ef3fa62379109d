//! The static-site generator: site configuration, the `SUMMARY.brf`
//! navigation tree, `@page` cross-links, page templates and the pieces of
//! the build and the dev server that decide rather than do I/O.
pub mod builder;
pub mod config;
pub mod page;
pub mod server;
pub mod summary;
pub mod theme;
pub mod watch;

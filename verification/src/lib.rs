//! A multi-tenant HTTP serving platform core: per-tenant script-worker pools
//! with round-robin dispatch, hot-swappable routers and pools keyed by host,
//! and a module bundler front end (specifier resolution, import maps, module
//! loading and caching decisions).

pub mod bundle;
pub mod cli;
pub mod config;
pub mod engine;
pub mod error;
pub mod local;
pub mod modules;
pub mod paths;
pub mod registry;
pub mod router;
pub mod strmap;
pub mod strutil;
pub mod utils;
pub mod worker_pool;

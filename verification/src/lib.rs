//! Decision logic of an HTTP relay proxy that balances requests over a pool of
//! upstream proxies.

pub mod admin;
pub mod balance_laws;
pub mod boundary;
pub mod config;
pub mod direct;
pub mod domain;
pub mod health;
pub mod http;
pub mod json;
pub mod limits;
pub mod reload;
pub mod rewrite;
pub mod rewrite_laws;
pub mod session;
pub mod session_laws;
pub mod stream;
pub mod text;
pub mod upstream;

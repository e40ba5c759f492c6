//! Watches named content channels, records the posts seen there and tells when
//! a post's score first reaches its channel's threshold.

pub mod clock;
pub mod error;
pub mod feed;
pub mod fetcher;
pub mod guarantees;
pub mod model;
pub mod poll;
pub mod registration;
pub mod scanner;
pub mod scheduler;
pub mod store;
pub mod ts_float_seconds;
pub mod xml;

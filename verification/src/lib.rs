//! A URL shortener's core: short base-58 tokens for long URLs, the two-way
//! store that keeps them, and the dispatcher that takes requests to it.

pub mod base58;
pub mod bimap;
pub mod dispatch;
mod ids;
pub mod json;
pub mod laws;
pub mod store;

pub use crate::base58::{from_base58, to_base58};
pub use crate::store::UrlMap;

//! Core logic of a pastebin service: expiration policy, credential
//! hashing, the paste store with its access-control rules, and
//! user registration / login / session resolution.
//!
//! Timestamps are plain `i64` values counting seconds; the caller
//! supplies the current time wherever a rule depends on it.

pub mod auth;
pub mod expiration;
pub mod models;
pub mod pages;
pub mod store;
pub mod text;
pub mod utils;

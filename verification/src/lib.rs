//! A verified contact-card store: cards with their phones, emails, postal
//! addresses and tags, text search, and the naming rules for photo files.

pub mod error;
pub mod handlers;
pub mod laws;
pub mod models;
pub mod photo;
pub mod search;
pub mod seed;
pub mod store;
pub mod text;

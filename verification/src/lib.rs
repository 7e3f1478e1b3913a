//! Core of a hosted commenting service: a flat parent-pointer comment table
//! with verified thread listing, pagination, reply counting, ancestor
//! ("context") walks, redacting projection, and validated comment creation.

pub mod comment;
pub mod error;
pub mod laws;
pub mod mail;
pub mod models;
pub mod store;
pub mod utils;

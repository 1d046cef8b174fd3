//! Verified request-decoding and transaction core of a legal case manager.
//!
//! The crate models the records of a small legal practice — clients with a
//! physical/legal subtype, lawyers, cases, documents and lookup tables — as a
//! value of [`store::Database`], and verifies the operations that a web layer
//! performs on them: query-string decoding, read routing (list, lookup by id,
//! download), validated all-or-nothing writes, and the shaping of rows into
//! response payloads.

pub mod cases;
pub mod clients;
pub mod codec;
pub mod dates;
pub mod documents;
pub mod domain;
pub mod laws;
pub mod listings;
pub mod order;
pub mod qa;
pub mod readplan;
pub mod reports;
pub mod rows;
pub mod store;
pub mod text;

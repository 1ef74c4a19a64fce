//! A grading ledger with a content-addressed file store.
//!
//! Problems are defined, submissions with attached files are made against
//! them, and graders append feedback. Every attached file is stored once per
//! distinct content, under the lowercase hex SHA-256 digest of its bytes.
//! Whether a submission counts as accepted is derived on each read from its
//! feedback history: the most recent feedback decides.

pub mod api;
pub mod db;
pub mod error;
pub mod hash;
pub mod ledger;
pub mod ledger_lemmas;
pub mod model;

//! Verified extraction engine for a personal data-export archive of a
//! messaging platform: locates the export's internal layout, tolerantly
//! decodes JSON/CSV records, classifies channels, and computes bounded
//! top-N and histogram aggregates together with a payment summary.
pub mod archive;
pub mod discover;
pub mod identity;
pub mod json;
pub mod laws;
pub mod messages;
pub mod models;
pub mod patterns;
pub mod payments;
pub mod pipeline;
pub mod rank;
pub mod stats;
pub mod text;

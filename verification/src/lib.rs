//! Verified core of a mail-store extraction pipeline.
//!
//! The library turns raw extracted mail files into structured email and
//! attachment records: it segments multi-message blobs, selects the best
//! plain-text and HTML bodies out of a parsed MIME tree, classifies leaf
//! parts as attachments, and derives stable content-seeded identifiers so
//! that repeated runs over identical input produce identical records.

pub mod attach;
pub mod banner;
pub mod body;
pub mod csv;
pub mod ident;
pub mod mime;
pub mod record;
pub mod segment;
pub mod text;

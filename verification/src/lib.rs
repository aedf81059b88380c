//! Watches web pages for content changes.
//!
//! The library fingerprints fetched page bytes, compares each fingerprint
//! against the last one stored for that URL, records the new fingerprint,
//! and composes the notification that reports the pages that changed.
//! Fetching, record persistence and mail delivery are left to the caller.
pub mod config;
pub mod detect;
pub mod errors;
pub mod fingerprint;
pub mod notify;
pub mod store;

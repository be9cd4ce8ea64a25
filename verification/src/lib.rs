//! Verified core of a password-breach checker.
//!
//! A password is never sent anywhere: its SHA-1 digest is rendered as 40
//! uppercase hexadecimal characters, the first 5 (the prefix) name one range
//! query against the breach corpus, and the remaining 35 (the suffix) are
//! matched locally against the `SUFFIX:COUNT` lines of the response body.
//! The caller performs the one HTTP GET; everything the result depends on —
//! hashing, splitting, line scanning, count parsing, the error taxonomy —
//! is decided and proved here.

pub mod errors;
pub mod hex;
pub mod digest;
pub mod response;
pub mod lookup;
pub mod laws;
pub mod record;

//! Comparison engine for declared-versus-actual HTTP exchange artifacts.
//!
//! Callers declare an expected artifact (headers, a multipart form, a JSON
//! document, raw or textual body bytes); the engine walks the declared and the
//! observed value side by side and collects every discrepancy as a
//! path-addressed mismatch record, in a deterministic order. Decoding of a
//! multipart body and parsing of a JSON body are kept apart from comparison:
//! their failures are terminal parse errors, never mismatches.

pub mod bytes;
pub mod form;
pub mod header;
pub mod json;
pub mod jsondiff;
pub mod jsontext;
pub mod model;
pub mod multipart;
pub mod report;
pub mod serial;
pub mod text;

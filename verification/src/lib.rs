//! A community cat-sighting registry: cats with append-only sightings, an
//! audit trail for profile edits, a content-type-checked image store, and the
//! small REST routing surface that maps requests onto those operations.
//!
//! The store and its operations are specified against the model in
//! [`model`]; the laws the registry keeps are proved in [`laws`].

pub mod api;
pub mod bytestr;
pub mod content_type;
pub mod laws;
pub mod model;
pub mod records;
pub mod repo;
pub mod router;

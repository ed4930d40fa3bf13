//! A generic binary serialization framework: capability traits that decouple
//! a data model (aggregate and enum types) from physical wire encodings, so
//! one mapping per type can target many backend formats.
//!
//! The crate provides the paired value-level (`Encode` / `Decode`) and
//! format-level (`Encoder` / `Decoder`) contracts, the composite-session
//! protocol for structured containers, the shared error taxonomy, the
//! descriptor layer that records per-type field layout, and the fast-path
//! bulk decoder that copies a run of layout-compatible primitive fields in
//! one read instead of dispatching field by field. A reference backend
//! over a plain byte vector gives every contract a fully specified
//! implementation, and the wire module proves the round-trip laws that
//! hold of its format.
//!
//! One departure from a zero-copy raw channel: reads hand bytes back as
//! owned copies rather than borrowed views into the buffer, trading the
//! copy for a reader free of lifetime ties.

pub mod enumid;
pub mod error;
pub mod fastpath;
pub mod impls;
pub mod traits;
pub mod codec;
pub mod descriptor;
pub mod wire;

//! The error taxonomy: two closed, parallel sets of failure kinds, one per
//! side. Decode has two extra kinds because only decode performs
//! enum-variant lookup. Every fallible framework operation reports failure
//! through one of these kinds; there is no other propagation channel.

use vstd::prelude::*;

verus! {

/// The closed set of encode-side failure kinds.
#[derive(Clone, Copy, PartialEq, Eq, Structural, Debug)]
pub enum EncodeErrorKind {
    /// The underlying buffer has no room for the bytes being written.
    NotEnoughSpace,
    /// A value (a length, an index) does not fit the wire representation.
    TooLarge,
    /// A failure raised by a value's own encode logic.
    Custom,
}

/// The closed set of decode-side failure kinds.
#[derive(Clone, Copy, PartialEq, Eq, Structural, Debug)]
pub enum DecodeErrorKind {
    /// Fewer bytes remain in the buffer than the read asked for.
    NotEnoughBytes,
    /// A decoded value (a length, an index) does not fit its in-memory type.
    TooLarge,
    /// A persisted enum variant name matches no declared variant.
    InvalidEnumVariantName,
    /// A persisted enum variant index matches no declared variant.
    InvalidEnumVariantIndex,
    /// A failure raised by a value's own decode logic.
    Custom,
}

/// Capability of a backend's encode-side error type: one constructor per
/// failure kind. `kind` is the abstraction each constructor pins down, so
/// that callers can state which failure they report.
pub trait EncodeError: Sized {
    /// Which failure kind this error value carries.
    spec fn kind(&self) -> EncodeErrorKind;

    fn not_enough_bytes_in_the_buffer() -> (r: Self)
        ensures
            r.kind() == EncodeErrorKind::NotEnoughSpace,
    ;

    fn too_large() -> (r: Self)
        ensures
            r.kind() == EncodeErrorKind::TooLarge,
    ;

    fn custom() -> (r: Self)
        ensures
            r.kind() == EncodeErrorKind::Custom,
    ;
}

/// Capability of a backend's decode-side error type: one constructor per
/// failure kind.
pub trait DecodeError: Sized {
    /// Which failure kind this error value carries.
    spec fn kind(&self) -> DecodeErrorKind;

    fn not_enough_bytes_in_the_buffer() -> (r: Self)
        ensures
            r.kind() == DecodeErrorKind::NotEnoughBytes,
    ;

    fn too_large() -> (r: Self)
        ensures
            r.kind() == DecodeErrorKind::TooLarge,
    ;

    fn invalid_enum_variant_name() -> (r: Self)
        ensures
            r.kind() == DecodeErrorKind::InvalidEnumVariantName,
    ;

    fn invalid_enum_variant_index() -> (r: Self)
        ensures
            r.kind() == DecodeErrorKind::InvalidEnumVariantIndex,
    ;

    fn custom() -> (r: Self)
        ensures
            r.kind() == DecodeErrorKind::Custom,
    ;
}

impl EncodeError for EncodeErrorKind {
    open spec fn kind(&self) -> EncodeErrorKind {
        *self
    }

    fn not_enough_bytes_in_the_buffer() -> Self {
        EncodeErrorKind::NotEnoughSpace
    }

    fn too_large() -> Self {
        EncodeErrorKind::TooLarge
    }

    fn custom() -> Self {
        EncodeErrorKind::Custom
    }
}

impl DecodeError for DecodeErrorKind {
    open spec fn kind(&self) -> DecodeErrorKind {
        *self
    }

    fn not_enough_bytes_in_the_buffer() -> Self {
        DecodeErrorKind::NotEnoughBytes
    }

    fn too_large() -> Self {
        DecodeErrorKind::TooLarge
    }

    fn invalid_enum_variant_name() -> Self {
        DecodeErrorKind::InvalidEnumVariantName
    }

    fn invalid_enum_variant_index() -> Self {
        DecodeErrorKind::InvalidEnumVariantIndex
    }

    fn custom() -> Self {
        DecodeErrorKind::Custom
    }
}

} // verus!

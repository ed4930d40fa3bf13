//! The paired value-level and format-level contracts.
//!
//! A *format session* (an [`Encoder`] or [`Decoder`]) is bound to one
//! underlying byte buffer for exactly one encode or decode call. Its
//! contracts are stated over two abstractions each backend supplies:
//! byte-sequence views of the buffer ([`BinaryEncoder::written`],
//! [`BinaryDecoder::remaining`]) and per-operation wire images (the
//! `spec_*` functions), so that one generated mapping per type can be
//! verified once and serve every backend.
//!
//! The composite-session protocol (a tuple, a named-field aggregate, or a
//! sequence must be opened, filled in declaration order, and closed exactly
//! once) is tracked by the [`CompositeEncoder::sessions`] /
//! [`CompositeDecoder::sessions`] depth: opening a container raises it,
//! `end` requires it positive and lowers it, so an unbalanced session is a
//! verification-time contract violation rather than a runtime surprise.

use vstd::prelude::*;

use crate::error::DecodeError;
use crate::error::DecodeErrorKind;
use crate::error::EncodeError;
use crate::error::EncodeErrorKind;

verus! {

/// The fixed-width primitive types a descriptor can classify a field as.
/// Platform-width integers are listed too: a backend decides per kind
/// whether its wire width equals the in-memory width.
#[derive(Clone, Copy, PartialEq, Eq, Structural, Debug)]
pub enum PrimitiveKind {
    Bool,
    U8,
    I8,
    U16,
    I16,
    U32,
    I32,
    U64,
    I64,
    U128,
    I128,
    Usize,
    Isize,
}


/// The in-memory byte width of each primitive kind.
pub open spec fn primitive_mem_size(kind: PrimitiveKind) -> nat {
    match kind {
        PrimitiveKind::Bool => 1,
        PrimitiveKind::U8 => 1,
        PrimitiveKind::I8 => 1,
        PrimitiveKind::U16 => 2,
        PrimitiveKind::I16 => 2,
        PrimitiveKind::U32 => 4,
        PrimitiveKind::I32 => 4,
        PrimitiveKind::U64 => 8,
        PrimitiveKind::I64 => 8,
        PrimitiveKind::U128 => 16,
        PrimitiveKind::I128 => 16,
        PrimitiveKind::Usize => vstd::layout::size_of::<usize>(),
        PrimitiveKind::Isize => vstd::layout::size_of::<isize>(),
    }
}

/// How a backend persisted an enum discriminant: the declared variant name,
/// or its declaration index. The backend chooses which it stores and which
/// it yields back on decode.
#[derive(Clone, Copy, Debug)]
pub enum EnumIdentifier {
    Name(&'static str),
    Index(usize),
}

/// A backend's once-per-type fast-path declaration: whether a primitive
/// kind's wire width equals its in-memory width, and whether the backend's
/// wire byte order agrees with the in-memory byte order. Both must hold for
/// a field of that kind to be bulk-copied instead of dispatched.
pub trait CheckPrimitiveTypeSize {
    /// Which primitive kinds this backend encodes at exactly their
    /// in-memory width.
    spec fn spec_is_sized(kind: PrimitiveKind) -> bool;

    /// Whether this backend's wire byte order agrees with the in-memory
    /// byte order of the destination it decodes into.
    spec fn spec_byte_order_agrees() -> bool;

    fn is_sized(kind: PrimitiveKind) -> (r: bool)
        ensures
            r == Self::spec_is_sized(kind),
    ;

    fn byte_order_agrees() -> (r: bool)
        ensures
            r == Self::spec_byte_order_agrees(),
    ;
}

/// Raw channel capability on the encode side: primitive skip/write of byte
/// spans against a cursor-based buffer with a fixed capacity.
pub trait BinaryEncoder: Sized {
    /// The bytes written through this session so far.
    spec fn written(&self) -> Seq<u8>;

    /// How many more bytes the underlying buffer can take.
    spec fn space(&self) -> nat;

    /// Advance the cursor by `len` bytes without writing meaningful data
    /// (reserved or padding regions). The skipped bytes' contents are the
    /// backend's choice.
    fn skip_bytes(&mut self, len: usize)
        requires
            len <= old(self).space(),
        ensures
            final(self).written().len() == old(self).written().len() + len,
            old(self).written().is_prefix_of(final(self).written()),
            final(self).space() == old(self).space() - len,
    ;

    /// Append exactly `data` to the buffer, failing (and changing nothing)
    /// when the capacity would be exceeded.
    fn write_bytes(&mut self, data: &[u8]) -> (r: Result<(), ()>)
        ensures
            r is Ok <==> data@.len() <= old(self).space(),
            r is Ok ==> final(self).written() == old(self).written() + data@
                && final(self).space() == old(self).space() - data@.len(),
            r is Err ==> final(self).written() == old(self).written()
                && final(self).space() == old(self).space(),
    ;
}

/// Raw channel capability on the decode side: primitive skip/read of byte
/// spans against a cursor-based buffer.
pub trait BinaryDecoder: Sized {
    /// The bytes not yet consumed by this session.
    spec fn remaining(&self) -> Seq<u8>;

    /// Advance the cursor by `len` bytes without reading them.
    fn skip_bytes(&mut self, len: usize)
        requires
            len <= old(self).remaining().len(),
        ensures
            final(self).remaining() == old(self).remaining().skip(len as int),
    ;

    /// Read exactly `len` bytes, failing (and consuming nothing) when fewer
    /// remain. The bytes are handed back as an owned copy: a borrowed view
    /// into the buffer would save the copy, but the copy keeps the reader
    /// free of lifetime ties to the buffer.
    fn read_bytes(&mut self, len: usize) -> (r: Result<Vec<u8>, ()>)
        ensures
            r is Ok <==> len <= old(self).remaining().len(),
            r matches Ok(b) ==> b@ == old(self).remaining().take(len as int)
                && final(self).remaining() == old(self).remaining().skip(len as int),
            r is Err ==> final(self).remaining() == old(self).remaining(),
    ;
}

/// Value contract, encode side: how one instance writes itself through a
/// format session, using only format-contract operations.
///
/// Every implementation must leave the session's composite depth as it
/// found it and only append to the output: that is the framework-wide
/// session discipline, checked at verification time.
pub trait Encode {
    fn encode<E: Encoder>(&self, encoder: &mut E) -> (r: Result<(), E::Error>)
        ensures
            r is Ok ==> final(encoder).sessions() == old(encoder).sessions()
                && old(encoder).written().is_prefix_of(final(encoder).written()),
    ;
}

/// Value contract, decode side: how one instance is constructed from a
/// format session.
///
/// `decode` fills a caller-supplied slot: on success the slot holds the
/// fully constructed value; on failure the slot is exactly as the caller
/// left it, so no partially constructed value is ever observable.
pub trait Decode: Sized {
    fn decode<D: Decoder>(decoder: &mut D, place: &mut Option<Self>) -> (r: Result<(), D::Error>)
        ensures
            r is Ok ==> (*final(place)) is Some
                && final(decoder).sessions() == old(decoder).sessions(),
            r is Err ==> *final(place) == *old(place),
    ;

    /// Convenience form: allocates the slot itself and returns the
    /// constructed value directly.
    fn decode_placed<D: Decoder>(decoder: &mut D) -> (r: Result<Self, D::Error>)
        ensures
            r is Ok ==> final(decoder).sessions() == old(decoder).sessions(),
    {
        let mut place: Option<Self> = None;
        match Self::decode(decoder, &mut place) {
            Ok(()) => match place {
                Some(v) => Ok(v),
                None => vstd::pervasive::unreached(),
            },
            Err(e) => Err(e),
        }
    }
}

/// Composite session, encode side: pushes members of one structural
/// container (tuple, named-field aggregate, or sequence) in declaration
/// order, then is closed exactly once by `end`.
pub trait CompositeEncoder: BinaryEncoder {
    type Error: EncodeError;

    /// How many composite sessions are currently open on this format
    /// session.
    spec fn sessions(&self) -> nat;

    /// Close the innermost open container. Mandatory, exactly once per
    /// opened container; surfaces any deferred error.
    ///
    /// Members are pushed between the opening constructor and `end` by
    /// [`encode_element`], one per member, in declaration order.
    fn end(&mut self) -> (r: Result<(), Self::Error>)
        requires
            old(self).sessions() >= 1,
        ensures
            r is Ok ==> final(self).sessions() == old(self).sessions() - 1
                && old(self).written().is_prefix_of(final(self).written()),
    ;
}

/// Composite session, decode side: pulls members of one structural
/// container in declaration order, then is closed exactly once by `end`.
pub trait CompositeDecoder: BinaryDecoder {
    type Error: DecodeError;

    /// How many composite sessions are currently open on this format
    /// session.
    spec fn sessions(&self) -> nat;

    /// Close the innermost open container. Mandatory, exactly once per
    /// opened container.
    ///
    /// Members are pulled between the opening constructor and `end` by
    /// [`decode_element`], one per member, in declaration order.
    fn end(&mut self) -> (r: Result<(), Self::Error>)
        requires
            old(self).sessions() >= 1,
        ensures
            r is Ok ==> final(self).sessions() == old(self).sessions() - 1,
    ;
}

/// Format contract, encode side: the primitive operations and
/// composite-session constructors a backend must provide.
///
/// Each operation's wire image is the backend-defined `spec_*` function of
/// the value alone, so a backend with transparent `spec_*` definitions
/// gives its verified callers the exact bytes. A fixed-width operation
/// succeeds exactly when its image fits the remaining space; length-framed
/// and keyed operations can also reject a value as too large for their
/// frame, reported as [`EncodeErrorKind::TooLarge`].
pub trait Encoder: CompositeEncoder + CheckPrimitiveTypeSize {
    spec fn spec_bool(v: bool) -> Seq<u8>;

    spec fn spec_u8(v: u8) -> Seq<u8>;

    spec fn spec_i8(v: i8) -> Seq<u8>;

    spec fn spec_u16(v: u16) -> Seq<u8>;

    spec fn spec_i16(v: i16) -> Seq<u8>;

    spec fn spec_u32(v: u32) -> Seq<u8>;

    spec fn spec_i32(v: i32) -> Seq<u8>;

    spec fn spec_u64(v: u64) -> Seq<u8>;

    spec fn spec_i64(v: i64) -> Seq<u8>;

    spec fn spec_u128(v: u128) -> Seq<u8>;

    spec fn spec_i128(v: i128) -> Seq<u8>;

    spec fn spec_usize(v: usize) -> Seq<u8>;

    spec fn spec_isize(v: isize) -> Seq<u8>;

    /// Wire image of a length-framed text value.
    spec fn spec_str(s: Seq<char>) -> Seq<u8>;

    /// Which text values fit this backend's length frame.
    spec fn str_ok(s: Seq<char>) -> bool;

    /// Wire image of a length-framed byte sequence.
    spec fn spec_bytes(b: Seq<u8>) -> Seq<u8>;

    /// Which byte sequences fit this backend's length frame.
    spec fn bytes_ok(b: Seq<u8>) -> bool;

    /// Wire image of the compact, sign-folded variable-length integer.
    spec fn spec_var_i32(v: i32) -> Seq<u8>;

    /// Wire image of the presence flag for a present optional value.
    spec fn spec_some() -> Seq<u8>;

    /// Wire image of the presence flag for an absent optional value.
    spec fn spec_none() -> Seq<u8>;

    /// Wire image of an enum discriminant: the backend persists the variant
    /// name, its index, or both, at its own discretion.
    spec fn spec_enum_key(enum_name: Seq<char>, variant_name: Seq<char>, variant_index: usize) -> Seq<u8>;

    /// Which variant indices fit this backend's discriminant encoding.
    spec fn enum_key_ok(variant_index: usize) -> bool;

    /// Bytes a tuple session writes when opened.
    spec fn spec_tuple_frame() -> Seq<u8>;

    /// Bytes a named-field aggregate session writes when opened.
    spec fn spec_struct_frame() -> Seq<u8>;

    /// Bytes a sequence session of length `len` writes when opened.
    spec fn spec_seq_frame(len: usize) -> Seq<u8>;

    /// Which sequence lengths fit this backend's length frame.
    spec fn seq_len_ok(len: usize) -> bool;

    /// Proof obligation that the fast-path declaration is truthful: a
    /// kind this backend declares wire-sized has wire images of exactly
    /// its in-memory width, so a descriptor built over the backend never
    /// marks a mismatched field eligible.
    proof fn lemma_is_sized_truthful()
        ensures
            Self::spec_is_sized(PrimitiveKind::Bool) ==> forall|v: bool|
                (#[trigger] Self::spec_bool(v)).len() == primitive_mem_size(PrimitiveKind::Bool),
            Self::spec_is_sized(PrimitiveKind::U8) ==> forall|v: u8|
                (#[trigger] Self::spec_u8(v)).len() == primitive_mem_size(PrimitiveKind::U8),
            Self::spec_is_sized(PrimitiveKind::I8) ==> forall|v: i8|
                (#[trigger] Self::spec_i8(v)).len() == primitive_mem_size(PrimitiveKind::I8),
            Self::spec_is_sized(PrimitiveKind::U16) ==> forall|v: u16|
                (#[trigger] Self::spec_u16(v)).len() == primitive_mem_size(PrimitiveKind::U16),
            Self::spec_is_sized(PrimitiveKind::I16) ==> forall|v: i16|
                (#[trigger] Self::spec_i16(v)).len() == primitive_mem_size(PrimitiveKind::I16),
            Self::spec_is_sized(PrimitiveKind::U32) ==> forall|v: u32|
                (#[trigger] Self::spec_u32(v)).len() == primitive_mem_size(PrimitiveKind::U32),
            Self::spec_is_sized(PrimitiveKind::I32) ==> forall|v: i32|
                (#[trigger] Self::spec_i32(v)).len() == primitive_mem_size(PrimitiveKind::I32),
            Self::spec_is_sized(PrimitiveKind::U64) ==> forall|v: u64|
                (#[trigger] Self::spec_u64(v)).len() == primitive_mem_size(PrimitiveKind::U64),
            Self::spec_is_sized(PrimitiveKind::I64) ==> forall|v: i64|
                (#[trigger] Self::spec_i64(v)).len() == primitive_mem_size(PrimitiveKind::I64),
            Self::spec_is_sized(PrimitiveKind::U128) ==> forall|v: u128|
                (#[trigger] Self::spec_u128(v)).len() == primitive_mem_size(PrimitiveKind::U128),
            Self::spec_is_sized(PrimitiveKind::I128) ==> forall|v: i128|
                (#[trigger] Self::spec_i128(v)).len() == primitive_mem_size(PrimitiveKind::I128),
            Self::spec_is_sized(PrimitiveKind::Usize) ==> forall|v: usize|
                (#[trigger] Self::spec_usize(v)).len() == primitive_mem_size(PrimitiveKind::Usize),
            Self::spec_is_sized(PrimitiveKind::Isize) ==> forall|v: isize|
                (#[trigger] Self::spec_isize(v)).len() == primitive_mem_size(PrimitiveKind::Isize),
    ;

    fn encode_bool(&mut self, v: bool) -> (r: Result<(), Self::Error>)
        ensures
            r is Ok <==> Self::spec_bool(v).len() <= old(self).space(),
            r is Ok ==> final(self).written() == old(self).written() + Self::spec_bool(v)
                && final(self).space() == old(self).space() - Self::spec_bool(v).len()
                && final(self).sessions() == old(self).sessions(),
            r matches Err(e) ==> e.kind() == EncodeErrorKind::NotEnoughSpace
                && final(self).written() == old(self).written()
                && final(self).space() == old(self).space()
                && final(self).sessions() == old(self).sessions(),
    ;

    fn encode_u8(&mut self, v: u8) -> (r: Result<(), Self::Error>)
        ensures
            r is Ok <==> Self::spec_u8(v).len() <= old(self).space(),
            r is Ok ==> final(self).written() == old(self).written() + Self::spec_u8(v)
                && final(self).space() == old(self).space() - Self::spec_u8(v).len()
                && final(self).sessions() == old(self).sessions(),
            r matches Err(e) ==> e.kind() == EncodeErrorKind::NotEnoughSpace
                && final(self).written() == old(self).written()
                && final(self).space() == old(self).space()
                && final(self).sessions() == old(self).sessions(),
    ;

    fn encode_i8(&mut self, v: i8) -> (r: Result<(), Self::Error>)
        ensures
            r is Ok <==> Self::spec_i8(v).len() <= old(self).space(),
            r is Ok ==> final(self).written() == old(self).written() + Self::spec_i8(v)
                && final(self).space() == old(self).space() - Self::spec_i8(v).len()
                && final(self).sessions() == old(self).sessions(),
            r matches Err(e) ==> e.kind() == EncodeErrorKind::NotEnoughSpace
                && final(self).written() == old(self).written()
                && final(self).space() == old(self).space()
                && final(self).sessions() == old(self).sessions(),
    ;

    fn encode_u16(&mut self, v: u16) -> (r: Result<(), Self::Error>)
        ensures
            r is Ok <==> Self::spec_u16(v).len() <= old(self).space(),
            r is Ok ==> final(self).written() == old(self).written() + Self::spec_u16(v)
                && final(self).space() == old(self).space() - Self::spec_u16(v).len()
                && final(self).sessions() == old(self).sessions(),
            r matches Err(e) ==> e.kind() == EncodeErrorKind::NotEnoughSpace
                && final(self).written() == old(self).written()
                && final(self).space() == old(self).space()
                && final(self).sessions() == old(self).sessions(),
    ;

    fn encode_i16(&mut self, v: i16) -> (r: Result<(), Self::Error>)
        ensures
            r is Ok <==> Self::spec_i16(v).len() <= old(self).space(),
            r is Ok ==> final(self).written() == old(self).written() + Self::spec_i16(v)
                && final(self).space() == old(self).space() - Self::spec_i16(v).len()
                && final(self).sessions() == old(self).sessions(),
            r matches Err(e) ==> e.kind() == EncodeErrorKind::NotEnoughSpace
                && final(self).written() == old(self).written()
                && final(self).space() == old(self).space()
                && final(self).sessions() == old(self).sessions(),
    ;

    fn encode_u32(&mut self, v: u32) -> (r: Result<(), Self::Error>)
        ensures
            r is Ok <==> Self::spec_u32(v).len() <= old(self).space(),
            r is Ok ==> final(self).written() == old(self).written() + Self::spec_u32(v)
                && final(self).space() == old(self).space() - Self::spec_u32(v).len()
                && final(self).sessions() == old(self).sessions(),
            r matches Err(e) ==> e.kind() == EncodeErrorKind::NotEnoughSpace
                && final(self).written() == old(self).written()
                && final(self).space() == old(self).space()
                && final(self).sessions() == old(self).sessions(),
    ;

    fn encode_i32(&mut self, v: i32) -> (r: Result<(), Self::Error>)
        ensures
            r is Ok <==> Self::spec_i32(v).len() <= old(self).space(),
            r is Ok ==> final(self).written() == old(self).written() + Self::spec_i32(v)
                && final(self).space() == old(self).space() - Self::spec_i32(v).len()
                && final(self).sessions() == old(self).sessions(),
            r matches Err(e) ==> e.kind() == EncodeErrorKind::NotEnoughSpace
                && final(self).written() == old(self).written()
                && final(self).space() == old(self).space()
                && final(self).sessions() == old(self).sessions(),
    ;

    fn encode_u64(&mut self, v: u64) -> (r: Result<(), Self::Error>)
        ensures
            r is Ok <==> Self::spec_u64(v).len() <= old(self).space(),
            r is Ok ==> final(self).written() == old(self).written() + Self::spec_u64(v)
                && final(self).space() == old(self).space() - Self::spec_u64(v).len()
                && final(self).sessions() == old(self).sessions(),
            r matches Err(e) ==> e.kind() == EncodeErrorKind::NotEnoughSpace
                && final(self).written() == old(self).written()
                && final(self).space() == old(self).space()
                && final(self).sessions() == old(self).sessions(),
    ;

    fn encode_i64(&mut self, v: i64) -> (r: Result<(), Self::Error>)
        ensures
            r is Ok <==> Self::spec_i64(v).len() <= old(self).space(),
            r is Ok ==> final(self).written() == old(self).written() + Self::spec_i64(v)
                && final(self).space() == old(self).space() - Self::spec_i64(v).len()
                && final(self).sessions() == old(self).sessions(),
            r matches Err(e) ==> e.kind() == EncodeErrorKind::NotEnoughSpace
                && final(self).written() == old(self).written()
                && final(self).space() == old(self).space()
                && final(self).sessions() == old(self).sessions(),
    ;

    fn encode_u128(&mut self, v: u128) -> (r: Result<(), Self::Error>)
        ensures
            r is Ok <==> Self::spec_u128(v).len() <= old(self).space(),
            r is Ok ==> final(self).written() == old(self).written() + Self::spec_u128(v)
                && final(self).space() == old(self).space() - Self::spec_u128(v).len()
                && final(self).sessions() == old(self).sessions(),
            r matches Err(e) ==> e.kind() == EncodeErrorKind::NotEnoughSpace
                && final(self).written() == old(self).written()
                && final(self).space() == old(self).space()
                && final(self).sessions() == old(self).sessions(),
    ;

    fn encode_i128(&mut self, v: i128) -> (r: Result<(), Self::Error>)
        ensures
            r is Ok <==> Self::spec_i128(v).len() <= old(self).space(),
            r is Ok ==> final(self).written() == old(self).written() + Self::spec_i128(v)
                && final(self).space() == old(self).space() - Self::spec_i128(v).len()
                && final(self).sessions() == old(self).sessions(),
            r matches Err(e) ==> e.kind() == EncodeErrorKind::NotEnoughSpace
                && final(self).written() == old(self).written()
                && final(self).space() == old(self).space()
                && final(self).sessions() == old(self).sessions(),
    ;

    fn encode_usize(&mut self, v: usize) -> (r: Result<(), Self::Error>)
        ensures
            r is Ok <==> Self::spec_usize(v).len() <= old(self).space(),
            r is Ok ==> final(self).written() == old(self).written() + Self::spec_usize(v)
                && final(self).space() == old(self).space() - Self::spec_usize(v).len()
                && final(self).sessions() == old(self).sessions(),
            r matches Err(e) ==> e.kind() == EncodeErrorKind::NotEnoughSpace
                && final(self).written() == old(self).written()
                && final(self).space() == old(self).space()
                && final(self).sessions() == old(self).sessions(),
    ;

    fn encode_isize(&mut self, v: isize) -> (r: Result<(), Self::Error>)
        ensures
            r is Ok <==> Self::spec_isize(v).len() <= old(self).space(),
            r is Ok ==> final(self).written() == old(self).written() + Self::spec_isize(v)
                && final(self).space() == old(self).space() - Self::spec_isize(v).len()
                && final(self).sessions() == old(self).sessions(),
            r matches Err(e) ==> e.kind() == EncodeErrorKind::NotEnoughSpace
                && final(self).written() == old(self).written()
                && final(self).space() == old(self).space()
                && final(self).sessions() == old(self).sessions(),
    ;

    fn encode_str(&mut self, v: &str) -> (r: Result<(), Self::Error>)
        ensures
            r is Ok <==> Self::str_ok(v@) && Self::spec_str(v@).len() <= old(self).space(),
            r is Ok ==> final(self).written() == old(self).written() + Self::spec_str(v@)
                && final(self).space() == old(self).space() - Self::spec_str(v@).len()
                && final(self).sessions() == old(self).sessions(),
            r matches Err(e) ==> (e.kind() == EncodeErrorKind::NotEnoughSpace
                || e.kind() == EncodeErrorKind::TooLarge)
                && (e.kind() == EncodeErrorKind::TooLarge <==> !Self::str_ok(v@))
                && final(self).written() == old(self).written()
                && final(self).space() == old(self).space()
                && final(self).sessions() == old(self).sessions(),
    ;

    fn encode_bytes(&mut self, v: &[u8]) -> (r: Result<(), Self::Error>)
        ensures
            r is Ok <==> Self::bytes_ok(v@) && Self::spec_bytes(v@).len() <= old(self).space(),
            r is Ok ==> final(self).written() == old(self).written() + Self::spec_bytes(v@)
                && final(self).space() == old(self).space() - Self::spec_bytes(v@).len()
                && final(self).sessions() == old(self).sessions(),
            r matches Err(e) ==> (e.kind() == EncodeErrorKind::NotEnoughSpace
                || e.kind() == EncodeErrorKind::TooLarge)
                && (e.kind() == EncodeErrorKind::TooLarge <==> !Self::bytes_ok(v@))
                && final(self).written() == old(self).written()
                && final(self).space() == old(self).space()
                && final(self).sessions() == old(self).sessions(),
    ;

    fn encode_var_i32(&mut self, v: i32) -> (r: Result<(), Self::Error>)
        ensures
            r is Ok <==> Self::spec_var_i32(v).len() <= old(self).space(),
            r is Ok ==> final(self).written() == old(self).written() + Self::spec_var_i32(v)
                && final(self).space() == old(self).space() - Self::spec_var_i32(v).len()
                && final(self).sessions() == old(self).sessions(),
            r matches Err(e) ==> e.kind() == EncodeErrorKind::NotEnoughSpace
                && final(self).written() == old(self).written()
                && final(self).space() == old(self).space()
                && final(self).sessions() == old(self).sessions(),
    ;

    fn encode_some(&mut self) -> (r: Result<(), Self::Error>)
        ensures
            r is Ok <==> Self::spec_some().len() <= old(self).space(),
            r is Ok ==> final(self).written() == old(self).written() + Self::spec_some()
                && final(self).space() == old(self).space() - Self::spec_some().len()
                && final(self).sessions() == old(self).sessions(),
            r matches Err(e) ==> e.kind() == EncodeErrorKind::NotEnoughSpace
                && final(self).written() == old(self).written()
                && final(self).space() == old(self).space()
                && final(self).sessions() == old(self).sessions(),
    ;

    fn encode_none(&mut self) -> (r: Result<(), Self::Error>)
        ensures
            r is Ok <==> Self::spec_none().len() <= old(self).space(),
            r is Ok ==> final(self).written() == old(self).written() + Self::spec_none()
                && final(self).space() == old(self).space() - Self::spec_none().len()
                && final(self).sessions() == old(self).sessions(),
            r matches Err(e) ==> e.kind() == EncodeErrorKind::NotEnoughSpace
                && final(self).written() == old(self).written()
                && final(self).space() == old(self).space()
                && final(self).sessions() == old(self).sessions(),
    ;

    fn encode_enum_variant_key(
        &mut self,
        enum_name: &'static str,
        variant_name: &'static str,
        variant_index: usize,
    ) -> (r: Result<(), Self::Error>)
        ensures
            r is Ok <==> Self::enum_key_ok(variant_index)
                && Self::spec_enum_key(enum_name@, variant_name@, variant_index).len()
                    <= old(self).space(),
            r is Ok ==> final(self).written() == old(self).written()
                + Self::spec_enum_key(enum_name@, variant_name@, variant_index)
                && final(self).space() == old(self).space()
                    - Self::spec_enum_key(enum_name@, variant_name@, variant_index).len()
                && final(self).sessions() == old(self).sessions(),
            r matches Err(e) ==> (e.kind() == EncodeErrorKind::NotEnoughSpace
                || e.kind() == EncodeErrorKind::TooLarge)
                && (e.kind() == EncodeErrorKind::TooLarge <==> !Self::enum_key_ok(variant_index))
                && final(self).written() == old(self).written()
                && final(self).space() == old(self).space()
                && final(self).sessions() == old(self).sessions(),
    ;

    /// Open a tuple session. The session must later be closed by exactly
    /// one `end`.
    fn encode_tuple(&mut self) -> (r: Result<(), Self::Error>)
        ensures
            r is Ok <==> Self::spec_tuple_frame().len() <= old(self).space(),
            r is Ok ==> final(self).written() == old(self).written() + Self::spec_tuple_frame()
                && final(self).space() == old(self).space() - Self::spec_tuple_frame().len()
                && final(self).sessions() == old(self).sessions() + 1,
            r matches Err(e) ==> e.kind() == EncodeErrorKind::NotEnoughSpace
                && final(self).written() == old(self).written()
                && final(self).space() == old(self).space()
                && final(self).sessions() == old(self).sessions(),
    ;

    /// Open a named-field aggregate session. The session must later be
    /// closed by exactly one `end`.
    fn encode_struct(&mut self) -> (r: Result<(), Self::Error>)
        ensures
            r is Ok <==> Self::spec_struct_frame().len() <= old(self).space(),
            r is Ok ==> final(self).written() == old(self).written() + Self::spec_struct_frame()
                && final(self).space() == old(self).space() - Self::spec_struct_frame().len()
                && final(self).sessions() == old(self).sessions() + 1,
            r matches Err(e) ==> e.kind() == EncodeErrorKind::NotEnoughSpace
                && final(self).written() == old(self).written()
                && final(self).space() == old(self).space()
                && final(self).sessions() == old(self).sessions(),
    ;

    /// Open a sequence session of `len` elements; the length is part of the
    /// opening frame so a decoder can recover it up front. The session must
    /// later be closed by exactly one `end`.
    fn encode_seq(&mut self, len: usize) -> (r: Result<(), Self::Error>)
        ensures
            r is Ok <==> Self::seq_len_ok(len) && Self::spec_seq_frame(len).len() <= old(
                self,
            ).space(),
            r is Ok ==> final(self).written() == old(self).written() + Self::spec_seq_frame(len)
                && final(self).space() == old(self).space() - Self::spec_seq_frame(len).len()
                && final(self).sessions() == old(self).sessions() + 1,
            r matches Err(e) ==> (e.kind() == EncodeErrorKind::NotEnoughSpace
                || e.kind() == EncodeErrorKind::TooLarge)
                && (e.kind() == EncodeErrorKind::TooLarge <==> !Self::seq_len_ok(len))
                && final(self).written() == old(self).written()
                && final(self).space() == old(self).space()
                && final(self).sessions() == old(self).sessions(),
    ;
}

/// Format contract, decode side.
///
/// Each operation is sound (on success, the bytes it consumed are exactly
/// the wire image of the value it returned) and complete (it succeeds
/// exactly when some value's wire image is a prefix of the unread input),
/// so decoding is pinned down by the same `spec_*` functions that pin down
/// encoding.
pub trait Decoder: CompositeDecoder + CheckPrimitiveTypeSize {
    spec fn spec_bool(v: bool) -> Seq<u8>;

    spec fn spec_u8(v: u8) -> Seq<u8>;

    spec fn spec_i8(v: i8) -> Seq<u8>;

    spec fn spec_u16(v: u16) -> Seq<u8>;

    spec fn spec_i16(v: i16) -> Seq<u8>;

    spec fn spec_u32(v: u32) -> Seq<u8>;

    spec fn spec_i32(v: i32) -> Seq<u8>;

    spec fn spec_u64(v: u64) -> Seq<u8>;

    spec fn spec_i64(v: i64) -> Seq<u8>;

    spec fn spec_u128(v: u128) -> Seq<u8>;

    spec fn spec_i128(v: i128) -> Seq<u8>;

    spec fn spec_usize(v: usize) -> Seq<u8>;

    spec fn spec_isize(v: isize) -> Seq<u8>;

    /// Wire image of a length-framed text value.
    spec fn spec_str(s: Seq<char>) -> Seq<u8>;

    /// Which text values this backend owes a successful decode for when
    /// their image opens the input (those that fit its length frame).
    spec fn str_ok(s: Seq<char>) -> bool;

    /// Wire image of a length-framed byte sequence.
    spec fn spec_bytes(b: Seq<u8>) -> Seq<u8>;

    /// Wire image of the compact, sign-folded variable-length integer.
    spec fn spec_var_i32(v: i32) -> Seq<u8>;

    /// Wire image of the presence flag for a present optional value.
    spec fn spec_some() -> Seq<u8>;

    /// Wire image of the presence flag for an absent optional value.
    spec fn spec_none() -> Seq<u8>;

    /// Which identifiers this backend can yield from `decode_enum` (its
    /// persistence policy), and the bytes that yield each.
    spec fn enum_ident_valid(id: EnumIdentifier) -> bool;

    /// Wire image behind a yielded enum identifier.
    spec fn spec_enum_ident(id: EnumIdentifier) -> Seq<u8>;

    /// Bytes a tuple session consumes when opened.
    spec fn spec_tuple_frame() -> Seq<u8>;

    /// Bytes a named-field aggregate session consumes when opened.
    spec fn spec_struct_frame() -> Seq<u8>;

    /// Bytes the sequence-length query consumes for a sequence of `len`
    /// elements.
    spec fn spec_seq_frame(len: usize) -> Seq<u8>;

    /// Proof obligation that the fast-path declaration is truthful: a
    /// kind this backend declares wire-sized has wire images of exactly
    /// its in-memory width, so a descriptor built over the backend never
    /// marks a mismatched field eligible.
    proof fn lemma_is_sized_truthful()
        ensures
            Self::spec_is_sized(PrimitiveKind::Bool) ==> forall|v: bool|
                (#[trigger] Self::spec_bool(v)).len() == primitive_mem_size(PrimitiveKind::Bool),
            Self::spec_is_sized(PrimitiveKind::U8) ==> forall|v: u8|
                (#[trigger] Self::spec_u8(v)).len() == primitive_mem_size(PrimitiveKind::U8),
            Self::spec_is_sized(PrimitiveKind::I8) ==> forall|v: i8|
                (#[trigger] Self::spec_i8(v)).len() == primitive_mem_size(PrimitiveKind::I8),
            Self::spec_is_sized(PrimitiveKind::U16) ==> forall|v: u16|
                (#[trigger] Self::spec_u16(v)).len() == primitive_mem_size(PrimitiveKind::U16),
            Self::spec_is_sized(PrimitiveKind::I16) ==> forall|v: i16|
                (#[trigger] Self::spec_i16(v)).len() == primitive_mem_size(PrimitiveKind::I16),
            Self::spec_is_sized(PrimitiveKind::U32) ==> forall|v: u32|
                (#[trigger] Self::spec_u32(v)).len() == primitive_mem_size(PrimitiveKind::U32),
            Self::spec_is_sized(PrimitiveKind::I32) ==> forall|v: i32|
                (#[trigger] Self::spec_i32(v)).len() == primitive_mem_size(PrimitiveKind::I32),
            Self::spec_is_sized(PrimitiveKind::U64) ==> forall|v: u64|
                (#[trigger] Self::spec_u64(v)).len() == primitive_mem_size(PrimitiveKind::U64),
            Self::spec_is_sized(PrimitiveKind::I64) ==> forall|v: i64|
                (#[trigger] Self::spec_i64(v)).len() == primitive_mem_size(PrimitiveKind::I64),
            Self::spec_is_sized(PrimitiveKind::U128) ==> forall|v: u128|
                (#[trigger] Self::spec_u128(v)).len() == primitive_mem_size(PrimitiveKind::U128),
            Self::spec_is_sized(PrimitiveKind::I128) ==> forall|v: i128|
                (#[trigger] Self::spec_i128(v)).len() == primitive_mem_size(PrimitiveKind::I128),
            Self::spec_is_sized(PrimitiveKind::Usize) ==> forall|v: usize|
                (#[trigger] Self::spec_usize(v)).len() == primitive_mem_size(PrimitiveKind::Usize),
            Self::spec_is_sized(PrimitiveKind::Isize) ==> forall|v: isize|
                (#[trigger] Self::spec_isize(v)).len() == primitive_mem_size(PrimitiveKind::Isize),
    ;

    fn decode_bool(&mut self) -> (r: Result<bool, Self::Error>)
        ensures
            r is Ok <==> exists|v: bool| (#[trigger] Self::spec_bool(v)).is_prefix_of(
                old(self).remaining(),
            ),
            r matches Ok(v) ==> old(self).remaining() == Self::spec_bool(v) + final(self).remaining()
                && final(self).sessions() == old(self).sessions(),
            r is Err ==> final(self).remaining() == old(self).remaining()
                && final(self).sessions() == old(self).sessions(),
            r matches Err(e) ==> (old(self).remaining().len() == 0 ==> e.kind()
                == DecodeErrorKind::NotEnoughBytes),
    ;

    fn decode_u8(&mut self) -> (r: Result<u8, Self::Error>)
        ensures
            r is Ok <==> exists|v: u8| (#[trigger] Self::spec_u8(v)).is_prefix_of(
                old(self).remaining(),
            ),
            r matches Ok(v) ==> old(self).remaining() == Self::spec_u8(v) + final(self).remaining()
                && final(self).sessions() == old(self).sessions(),
            r matches Err(e) ==> e.kind() == DecodeErrorKind::NotEnoughBytes
                && final(self).remaining() == old(self).remaining()
                && final(self).sessions() == old(self).sessions(),
    ;

    fn decode_i8(&mut self) -> (r: Result<i8, Self::Error>)
        ensures
            r is Ok <==> exists|v: i8| (#[trigger] Self::spec_i8(v)).is_prefix_of(
                old(self).remaining(),
            ),
            r matches Ok(v) ==> old(self).remaining() == Self::spec_i8(v) + final(self).remaining()
                && final(self).sessions() == old(self).sessions(),
            r matches Err(e) ==> e.kind() == DecodeErrorKind::NotEnoughBytes
                && final(self).remaining() == old(self).remaining()
                && final(self).sessions() == old(self).sessions(),
    ;

    fn decode_u16(&mut self) -> (r: Result<u16, Self::Error>)
        ensures
            r is Ok <==> exists|v: u16| (#[trigger] Self::spec_u16(v)).is_prefix_of(
                old(self).remaining(),
            ),
            r matches Ok(v) ==> old(self).remaining() == Self::spec_u16(v) + final(self).remaining()
                && final(self).sessions() == old(self).sessions(),
            r matches Err(e) ==> e.kind() == DecodeErrorKind::NotEnoughBytes
                && final(self).remaining() == old(self).remaining()
                && final(self).sessions() == old(self).sessions(),
    ;

    fn decode_i16(&mut self) -> (r: Result<i16, Self::Error>)
        ensures
            r is Ok <==> exists|v: i16| (#[trigger] Self::spec_i16(v)).is_prefix_of(
                old(self).remaining(),
            ),
            r matches Ok(v) ==> old(self).remaining() == Self::spec_i16(v) + final(self).remaining()
                && final(self).sessions() == old(self).sessions(),
            r matches Err(e) ==> e.kind() == DecodeErrorKind::NotEnoughBytes
                && final(self).remaining() == old(self).remaining()
                && final(self).sessions() == old(self).sessions(),
    ;

    fn decode_u32(&mut self) -> (r: Result<u32, Self::Error>)
        ensures
            r is Ok <==> exists|v: u32| (#[trigger] Self::spec_u32(v)).is_prefix_of(
                old(self).remaining(),
            ),
            r matches Ok(v) ==> old(self).remaining() == Self::spec_u32(v) + final(self).remaining()
                && final(self).sessions() == old(self).sessions(),
            r matches Err(e) ==> e.kind() == DecodeErrorKind::NotEnoughBytes
                && final(self).remaining() == old(self).remaining()
                && final(self).sessions() == old(self).sessions(),
    ;

    fn decode_i32(&mut self) -> (r: Result<i32, Self::Error>)
        ensures
            r is Ok <==> exists|v: i32| (#[trigger] Self::spec_i32(v)).is_prefix_of(
                old(self).remaining(),
            ),
            r matches Ok(v) ==> old(self).remaining() == Self::spec_i32(v) + final(self).remaining()
                && final(self).sessions() == old(self).sessions(),
            r matches Err(e) ==> e.kind() == DecodeErrorKind::NotEnoughBytes
                && final(self).remaining() == old(self).remaining()
                && final(self).sessions() == old(self).sessions(),
    ;

    fn decode_u64(&mut self) -> (r: Result<u64, Self::Error>)
        ensures
            r is Ok <==> exists|v: u64| (#[trigger] Self::spec_u64(v)).is_prefix_of(
                old(self).remaining(),
            ),
            r matches Ok(v) ==> old(self).remaining() == Self::spec_u64(v) + final(self).remaining()
                && final(self).sessions() == old(self).sessions(),
            r matches Err(e) ==> e.kind() == DecodeErrorKind::NotEnoughBytes
                && final(self).remaining() == old(self).remaining()
                && final(self).sessions() == old(self).sessions(),
    ;

    fn decode_i64(&mut self) -> (r: Result<i64, Self::Error>)
        ensures
            r is Ok <==> exists|v: i64| (#[trigger] Self::spec_i64(v)).is_prefix_of(
                old(self).remaining(),
            ),
            r matches Ok(v) ==> old(self).remaining() == Self::spec_i64(v) + final(self).remaining()
                && final(self).sessions() == old(self).sessions(),
            r matches Err(e) ==> e.kind() == DecodeErrorKind::NotEnoughBytes
                && final(self).remaining() == old(self).remaining()
                && final(self).sessions() == old(self).sessions(),
    ;

    fn decode_u128(&mut self) -> (r: Result<u128, Self::Error>)
        ensures
            r is Ok <==> exists|v: u128| (#[trigger] Self::spec_u128(v)).is_prefix_of(
                old(self).remaining(),
            ),
            r matches Ok(v) ==> old(self).remaining() == Self::spec_u128(v) + final(self).remaining()
                && final(self).sessions() == old(self).sessions(),
            r matches Err(e) ==> e.kind() == DecodeErrorKind::NotEnoughBytes
                && final(self).remaining() == old(self).remaining()
                && final(self).sessions() == old(self).sessions(),
    ;

    fn decode_i128(&mut self) -> (r: Result<i128, Self::Error>)
        ensures
            r is Ok <==> exists|v: i128| (#[trigger] Self::spec_i128(v)).is_prefix_of(
                old(self).remaining(),
            ),
            r matches Ok(v) ==> old(self).remaining() == Self::spec_i128(v) + final(self).remaining()
                && final(self).sessions() == old(self).sessions(),
            r matches Err(e) ==> e.kind() == DecodeErrorKind::NotEnoughBytes
                && final(self).remaining() == old(self).remaining()
                && final(self).sessions() == old(self).sessions(),
    ;

    /// A platform-width value can have been persisted by a wider platform:
    /// a persisted value that does not fit `usize` is reported as
    /// [`DecodeErrorKind::TooLarge`].
    fn decode_usize(&mut self) -> (r: Result<usize, Self::Error>)
        ensures
            r matches Ok(v) ==> old(self).remaining() == Self::spec_usize(v) + final(self).remaining()
                && final(self).sessions() == old(self).sessions(),
            (exists|v: usize| (#[trigger] Self::spec_usize(v)).is_prefix_of(
                old(self).remaining(),
            )) ==> r is Ok,
            r matches Err(e) ==> (e.kind() == DecodeErrorKind::NotEnoughBytes
                || e.kind() == DecodeErrorKind::TooLarge)
                && final(self).remaining() == old(self).remaining()
                && final(self).sessions() == old(self).sessions(),
    ;

    /// A platform-width value can have been persisted by a wider platform:
    /// a persisted value that does not fit `isize` is reported as
    /// [`DecodeErrorKind::TooLarge`].
    fn decode_isize(&mut self) -> (r: Result<isize, Self::Error>)
        ensures
            r matches Ok(v) ==> old(self).remaining() == Self::spec_isize(v) + final(self).remaining()
                && final(self).sessions() == old(self).sessions(),
            (exists|v: isize| (#[trigger] Self::spec_isize(v)).is_prefix_of(
                old(self).remaining(),
            )) ==> r is Ok,
            r matches Err(e) ==> (e.kind() == DecodeErrorKind::NotEnoughBytes
                || e.kind() == DecodeErrorKind::TooLarge)
                && final(self).remaining() == old(self).remaining()
                && final(self).sessions() == old(self).sessions(),
    ;

    fn decode_str(&mut self) -> (r: Result<String, Self::Error>)
        ensures
            r is Ok <==> exists|s: Seq<char>| Self::str_ok(s) && (#[trigger] Self::spec_str(
                s,
            )).is_prefix_of(old(self).remaining()),
            r matches Ok(v) ==> old(self).remaining() == Self::spec_str(v@) + final(self).remaining()
                && final(self).sessions() == old(self).sessions(),
            r is Err ==> final(self).remaining() == old(self).remaining()
                && final(self).sessions() == old(self).sessions(),
            r matches Err(e) ==> (old(self).remaining().len() == 0 ==> e.kind()
                == DecodeErrorKind::NotEnoughBytes),
    ;

    fn decode_bytes(&mut self) -> (r: Result<Vec<u8>, Self::Error>)
        ensures
            r is Ok <==> exists|b: Seq<u8>| (#[trigger] Self::spec_bytes(b)).is_prefix_of(
                old(self).remaining(),
            ),
            r matches Ok(v) ==> old(self).remaining() == Self::spec_bytes(v@) + final(self).remaining()
                && final(self).sessions() == old(self).sessions(),
            r is Err ==> final(self).remaining() == old(self).remaining()
                && final(self).sessions() == old(self).sessions(),
            r matches Err(e) ==> (old(self).remaining().len() == 0 ==> e.kind()
                == DecodeErrorKind::NotEnoughBytes),
    ;

    fn decode_var_i32(&mut self) -> (r: Result<i32, Self::Error>)
        ensures
            r is Ok <==> exists|v: i32| (#[trigger] Self::spec_var_i32(v)).is_prefix_of(
                old(self).remaining(),
            ),
            r matches Ok(v) ==> old(self).remaining() == Self::spec_var_i32(v) + final(self).remaining()
                && final(self).sessions() == old(self).sessions(),
            r is Err ==> final(self).remaining() == old(self).remaining()
                && final(self).sessions() == old(self).sessions(),
            r matches Err(e) ==> (old(self).remaining().len() == 0 ==> e.kind()
                == DecodeErrorKind::NotEnoughBytes),
    ;

    /// Presence query for an optional value: `true` means a present payload
    /// follows.
    fn decode_is_some(&mut self) -> (r: Result<bool, Self::Error>)
        ensures
            r is Ok <==> (Self::spec_some().is_prefix_of(old(self).remaining())
                || Self::spec_none().is_prefix_of(old(self).remaining())),
            r matches Ok(v) ==> old(self).remaining() == (if v {
                Self::spec_some()
            } else {
                Self::spec_none()
            }) + final(self).remaining() && final(self).sessions() == old(self).sessions(),
            r is Err ==> final(self).remaining() == old(self).remaining()
                && final(self).sessions() == old(self).sessions(),
            r matches Err(e) ==> (old(self).remaining().len() == 0 ==> e.kind()
                == DecodeErrorKind::NotEnoughBytes),
    ;

    /// Recover whichever enum identifier this backend persisted; the
    /// generated decode logic matches it against the declared variants.
    fn decode_enum(&mut self, enum_name: &'static str) -> (r: Result<EnumIdentifier, Self::Error>)
        ensures
            r is Ok <==> exists|id: EnumIdentifier| Self::enum_ident_valid(id)
                && (#[trigger] Self::spec_enum_ident(id)).is_prefix_of(old(self).remaining()),
            r matches Ok(id) ==> Self::enum_ident_valid(id)
                && old(self).remaining() == Self::spec_enum_ident(id) + final(self).remaining()
                && final(self).sessions() == old(self).sessions(),
            r is Err ==> final(self).remaining() == old(self).remaining()
                && final(self).sessions() == old(self).sessions(),
            r matches Err(e) ==> (old(self).remaining().len() == 0 ==> e.kind()
                == DecodeErrorKind::NotEnoughBytes),
    ;

    /// Open a tuple session. The session must later be closed by exactly
    /// one `end`.
    fn decode_tuple(&mut self) -> (r: Result<(), Self::Error>)
        ensures
            r is Ok <==> Self::spec_tuple_frame().is_prefix_of(old(self).remaining()),
            r is Ok ==> old(self).remaining() == Self::spec_tuple_frame() + final(self).remaining()
                && final(self).sessions() == old(self).sessions() + 1,
            r is Err ==> final(self).remaining() == old(self).remaining()
                && final(self).sessions() == old(self).sessions(),
    ;

    /// Open a named-field aggregate session. The session must later be
    /// closed by exactly one `end`.
    fn decode_struct(&mut self) -> (r: Result<(), Self::Error>)
        ensures
            r is Ok <==> Self::spec_struct_frame().is_prefix_of(old(self).remaining()),
            r is Ok ==> old(self).remaining() == Self::spec_struct_frame() + final(self).remaining()
                && final(self).sessions() == old(self).sessions() + 1,
            r is Err ==> final(self).remaining() == old(self).remaining()
                && final(self).sessions() == old(self).sessions(),
    ;

    /// Open a sequence session. Opening consumes nothing and cannot
    /// fail: the length frame is the business of `decode_seq_len`.
    fn decode_seq(&mut self) -> (r: Result<(), Self::Error>)
        ensures
            r is Ok,
            r is Ok ==> final(self).remaining() == old(self).remaining()
                && final(self).sessions() == old(self).sessions() + 1,
    ;

    /// Recover the length a sequence session was opened with on the encode
    /// side.
    fn decode_seq_len(&mut self) -> (r: Result<usize, Self::Error>)
        ensures
            r is Ok <==> exists|n: usize| (#[trigger] Self::spec_seq_frame(n)).is_prefix_of(
                old(self).remaining(),
            ),
            r matches Ok(n) ==> old(self).remaining() == Self::spec_seq_frame(n) + final(self).remaining()
                && final(self).sessions() == old(self).sessions(),
            r matches Err(e) ==> e.kind() == DecodeErrorKind::NotEnoughBytes
                && final(self).remaining() == old(self).remaining()
                && final(self).sessions() == old(self).sessions(),
    ;
}

/// Push exactly one member of the open composite container, in declaration
/// order.
///
/// This stands beside [`CompositeEncoder`] as a free function: the member's
/// own [`Encode`] contract already guarantees the session discipline, and
/// the open-session precondition is what makes this an element of a
/// container rather than a bare value.
pub fn encode_element<E: Encoder, T: Encode>(encoder: &mut E, v: &T) -> (r: Result<
    (),
    E::Error,
>)
    requires
        old(encoder).sessions() >= 1,
    ensures
        r is Ok ==> final(encoder).sessions() == old(encoder).sessions()
            && old(encoder).written().is_prefix_of(final(encoder).written()),
{
    v.encode(encoder)
}

/// Pull exactly one member of the open composite container, in declaration
/// order, into the caller-supplied slot.
pub fn decode_element<D: Decoder, T: Decode>(decoder: &mut D, place: &mut Option<T>) -> (r: Result<
    (),
    D::Error,
>)
    requires
        old(decoder).sessions() >= 1,
    ensures
        r is Ok ==> (*final(place)) is Some && final(decoder).sessions() == old(decoder).sessions(),
        r is Err ==> *final(place) == *old(place),
{
    T::decode(decoder, place)
}

/// A sequence is a prefix of itself followed by anything.
pub proof fn lemma_prefix_append(a: Seq<u8>, b: Seq<u8>)
    ensures
        a.is_prefix_of(a + b),
{
    assert(a =~= (a + b).subrange(0, a.len() as int));
}

/// Prefix order is transitive.
pub proof fn lemma_prefix_trans(a: Seq<u8>, b: Seq<u8>, c: Seq<u8>)
    requires
        a.is_prefix_of(b),
        b.is_prefix_of(c),
    ensures
        a.is_prefix_of(c),
{
    assert(a =~= c.subrange(0, a.len() as int));
}

} // verus!

//! The reference backend: a format session over a plain byte vector, with
//! the wire format of [`crate::wire`]. Fixed-width values are little-endian
//! at their natural width; text and byte sequences are length-framed with a
//! four-byte length; optional values carry a one-byte presence flag; enum
//! discriminants are persisted as the four-byte variant index; sequences
//! are framed by their four-byte element count.
//!
//! The backend exists so that the framework's contracts have a fully
//! specified implementation in the crate itself: every `spec_*` wire image
//! is transparent, so verified callers (and the round-trip laws) see the
//! exact bytes.

use vstd::prelude::*;
use vstd::slice::slice_index_get;
use vstd::string::StringSliceAdditionalSpecFns;
use vstd::utf8::decode_utf8;
use vstd::utf8::decode_utf8_encode_utf8;
use vstd::utf8::encode_utf8;
use vstd::utf8::encode_utf8_valid_utf8;
use vstd::utf8::valid_utf8;

use crate::error::DecodeError;
use crate::error::DecodeErrorKind;
use crate::error::EncodeError;
use crate::error::EncodeErrorKind;
use crate::traits::BinaryDecoder;
use crate::traits::BinaryEncoder;
use crate::traits::CheckPrimitiveTypeSize;
use crate::traits::CompositeDecoder;
use crate::traits::CompositeEncoder;
use crate::traits::Decoder;
use crate::traits::Encoder;
use crate::traits::EnumIdentifier;
use crate::traits::PrimitiveKind;
use crate::traits::primitive_mem_size;
use crate::wire::from_le;
use crate::wire::le_bytes;
use crate::wire::leb;
use crate::wire::lemma_from_le_bound;
use crate::wire::lemma_le_bytes_len;
use crate::wire::lemma_le_of_from_le;
use crate::wire::lemma_leb_len;
use crate::wire::lemma_leb_prefix_unique;
use crate::wire::lemma_pow256_mono;
use crate::wire::lemma_pow256_vals;
use crate::wire::lemma_tail_prefix;
use crate::wire::pow256;
use crate::wire::unzigzag;
use crate::wire::zigzag;

verus! {

/// The UTF-8 bytes of a text, fully verified against vstd's UTF-8
/// theory: `str::as_bytes` yields exactly `encode_utf8` of the
/// characters.
fn str_to_bytes(s: &str) -> (r: Vec<u8>)
    ensures
        r@ == encode_utf8(s@),
{
    vstd::slice::slice_to_vec(s.as_bytes())
}

/// Relies on String::from_utf8: it succeeds exactly on valid UTF-8, and
/// the resulting text is the decoding of the bytes.
#[verifier::external_body]
fn string_from_bytes(b: Vec<u8>) -> (r: Option<String>)
    ensures
        r matches Some(t) ==> valid_utf8(b@) && t@ == decode_utf8(b@),
        r is None ==> !valid_utf8(b@),
{
    match String::from_utf8(b) {
        Ok(s) => Some(s),
        Err(_) => None,
    }
}

/// Wire image of a boolean: one byte, zero or one.
pub open spec fn bool_wire(v: bool) -> Seq<u8> {
    seq![
        if v {
            1u8
        } else {
            0u8
        },
    ]
}

/// Wire image of a length-framed text value.
pub open spec fn str_wire(s: Seq<char>) -> Seq<u8> {
    le_bytes(encode_utf8(s).len(), 4) + encode_utf8(s)
}

/// Wire image of a length-framed byte sequence.
pub open spec fn bytes_wire(b: Seq<u8>) -> Seq<u8> {
    le_bytes(b.len(), 4) + b
}

/// Wire image of the compact sign-folded variable-length integer.
pub open spec fn var_i32_wire(v: i32) -> Seq<u8> {
    leb(zigzag(v))
}

/// Wire image of an optional value's presence flag.
pub open spec fn presence_wire(present: bool) -> Seq<u8> {
    if present {
        seq![1u8]
    } else {
        seq![0u8]
    }
}

/// Round trip for the variable-length integer: whatever value a decoder
/// can answer for the image of `v` is `v` itself, whatever bytes follow.
pub proof fn lemma_var_i32_round_trip(v: i32, w: i32, rest: Seq<u8>)
    requires
        var_i32_wire(w).is_prefix_of(var_i32_wire(v) + rest),
    ensures
        w == v,
{
    crate::traits::lemma_prefix_append(var_i32_wire(v), rest);
    crate::wire::lemma_leb_prefix_unique(zigzag(w), zigzag(v), var_i32_wire(v) + rest);
    crate::wire::lemma_zigzag_round_trip(v);
    crate::wire::lemma_zigzag_round_trip(w);
}

/// Round trip for length-framed byte sequences: whatever sequence a
/// decoder can answer for the image of `b` is `b` itself, whatever bytes
/// follow.
pub proof fn lemma_bytes_round_trip(b: Seq<u8>, c: Seq<u8>, rest: Seq<u8>)
    requires
        b.len() <= u32::MAX,
        c.len() <= u32::MAX,
        bytes_wire(c).is_prefix_of(bytes_wire(b) + rest),
    ensures
        c == b,
{
    lemma_pow256_vals();
    lemma_le_bytes_len(b.len(), 4);
    lemma_le_bytes_len(c.len(), 4);
    let s = bytes_wire(b) + rest;
    crate::wire::lemma_prefix_parts(le_bytes(c.len(), 4), c, s);
    assert(s =~= le_bytes(b.len(), 4) + (b + rest));
    crate::wire::lemma_le_prefix_unique(b.len(), c.len(), 4, b + rest);
    assert(s.skip(4) =~= b + rest);
    assert(c =~= b) by {
        assert(c =~= (b + rest).subrange(0, c.len() as int));
        assert(forall|i: int| #![auto] 0 <= i < b.len() ==> (b + rest)[i] == b[i]);
    }
}

/// Sequence length round trip: querying the length of a framed sequence
/// yields exactly the length it was framed with.
pub proof fn lemma_seq_len_round_trip(n: usize, m: usize, rest: Seq<u8>)
    requires
        n as nat <= u32::MAX as nat,
        m as nat <= u32::MAX as nat,
        le_bytes(m as nat, 4).is_prefix_of(le_bytes(n as nat, 4) + rest),
    ensures
        m == n,
{
    crate::wire::lemma_pow256_vals();
    crate::wire::lemma_le_prefix_unique(n as nat, m as nat, 4, rest);
}

/// Presence round trip: the presence answer read back is the presence
/// that was encoded, whatever bytes follow.
pub proof fn lemma_presence_round_trip(p: bool, q: bool, rest: Seq<u8>)
    requires
        presence_wire(q).is_prefix_of(presence_wire(p) + rest),
    ensures
        q == p,
{
    assert(presence_wire(q) =~= (presence_wire(p) + rest).subrange(0, 1));
    assert(presence_wire(q)[0] == presence_wire(p)[0]);
}

/// Enum discriminant round trip: the identifier read back for a persisted
/// variant index is that index, whatever bytes follow.
pub proof fn lemma_enum_index_round_trip(i: usize, j: usize, rest: Seq<u8>)
    requires
        i as nat <= u32::MAX as nat,
        j as nat <= u32::MAX as nat,
        le_bytes(j as nat, 4).is_prefix_of(le_bytes(i as nat, 4) + rest),
    ensures
        j == i,
{
    crate::wire::lemma_pow256_vals();
    crate::wire::lemma_le_prefix_unique(i as nat, j as nat, 4, rest);
}

/// Encode-side format session over a byte vector with a fixed capacity.
pub struct VecEncoder {
    buf: Vec<u8>,
    cap: usize,
    depth: Ghost<nat>,
}

impl VecEncoder {
    /// A fresh session that can take `capacity` bytes.
    pub fn new(capacity: usize) -> (r: VecEncoder)
        ensures
            r.written() == Seq::<u8>::empty(),
            r.space() == capacity,
            r.sessions() == 0,
    {
        VecEncoder { buf: Vec::new(), cap: capacity, depth: Ghost(0nat) }
    }

    /// Hand the encoded bytes over, ending the session.
    pub fn into_bytes(self) -> (r: Vec<u8>)
        ensures
            r@ == self.written(),
    {
        self.buf
    }

    fn space_left(&self) -> (r: usize)
        ensures
            r as nat == self.space(),
    {
        if self.buf.len() <= self.cap {
            self.cap - self.buf.len()
        } else {
            0
        }
    }

    /// Append `data`, or report missing space and change nothing. The
    /// private shape of [`BinaryEncoder::write_bytes`], with the session
    /// depth visibly untouched.
    fn push_bytes(&mut self, data: &[u8]) -> (r: Result<(), ()>)
        ensures
            r is Ok <==> data@.len() <= old(self).space(),
            r is Ok ==> final(self).buf@ == old(self).buf@ + data@ && final(self).cap == old(
                self,
            ).cap && final(self).depth == old(self).depth,
            r is Err ==> *final(self) == *old(self),
    {
        let n = data.len();
        if n <= self.space_left() {
            let ghost buf0 = self.buf@;
            let ghost cap0 = self.cap;
            let ghost d0 = self.depth@;
            let mut i: usize = 0;
            while i < n
                invariant
                    i <= n,
                    n == data@.len(),
                    self.cap == cap0,
                    self.depth@ == d0,
                    self.buf@ == buf0 + data@.subrange(0, i as int),
                decreases n - i,
            {
                let b = *slice_index_get(data, i);
                self.buf.push(b);
                i = i + 1;
                proof {
                    assert(self.buf@ =~= buf0 + data@.subrange(0, i as int));
                }
            }
            proof {
                assert(data@.subrange(0, n as int) =~= data@);
            }
            Ok(())
        } else {
            Err(())
        }
    }

    /// Append the little-endian bytes of `v` at width `n`, or report
    /// missing space and leave everything unchanged.
    fn put_le(&mut self, v: u128, n: usize) -> (r: Result<(), EncodeErrorKind>)
        requires
            (v as nat) < pow256(n as nat),
        ensures
            r is Ok <==> n <= old(self).space(),
            r is Ok ==> final(self).written() == old(self).written() + le_bytes(
                v as nat,
                n as nat,
            ) && final(self).space() == old(self).space() - n && final(self).sessions() == old(
                self,
            ).sessions(),
            r matches Err(e) ==> e == EncodeErrorKind::NotEnoughSpace && *final(self) == *old(
                self,
            ),
    {
        let mut tmp: Vec<u8> = Vec::new();
        let mut x = v;
        let mut i: usize = 0;
        proof {
            assert(tmp@ + le_bytes(x as nat, (n - i) as nat) =~= le_bytes(v as nat, n as nat));
        }
        while i < n
            invariant
                i <= n,
                tmp@.len() == i,
                (x as nat) < pow256((n - i) as nat),
                tmp@ + le_bytes(x as nat, (n - i) as nat) == le_bytes(v as nat, n as nat),
            decreases n - i,
        {
            let ghost m = (n - i) as nat;
            let ghost tmp0 = tmp@;
            let ghost x0 = x as nat;
            tmp.push((x % 256) as u8);
            x = x / 256;
            i = i + 1;
            proof {
                assert(le_bytes(x0, m) == seq![(x0 % 256) as u8] + le_bytes(x0 / 256, (m - 1) as nat));
                assert(tmp@ + le_bytes(x as nat, (n - i) as nat) =~= tmp0 + le_bytes(x0, m));
                assert((x as nat) < pow256((n - i) as nat)) by {
                    assert(x0 < 256 * pow256((m - 1) as nat));
                }
            }
        }
        proof {
            assert(tmp@ =~= le_bytes(v as nat, n as nat));
        }
        if tmp.len() <= self.space_left() {
            match self.push_bytes(tmp.as_slice()) {
                Ok(()) => Ok(()),
                Err(()) => Err(EncodeErrorKind::Custom),
            }
        } else {
            Err(EncodeErrorKind::NotEnoughSpace)
        }
    }
}

impl BinaryEncoder for VecEncoder {
    closed spec fn written(&self) -> Seq<u8> {
        self.buf@
    }

    closed spec fn space(&self) -> nat {
        if self.buf.len() <= self.cap {
            (self.cap - self.buf.len()) as nat
        } else {
            0
        }
    }

    fn skip_bytes(&mut self, len: usize) {
        let ghost buf0 = self.buf@;
        let ghost cap0 = self.cap;
        let ghost d0 = self.depth@;
        let mut i: usize = 0;
        while i < len
            invariant
                i <= len,
                self.cap == cap0,
                self.depth@ == d0,
                self.buf@ == buf0 + Seq::new(i as nat, |j: int| 0u8),
            decreases len - i,
        {
            self.buf.push(0u8);
            i = i + 1;
            proof {
                assert(self.buf@ =~= buf0 + Seq::new(i as nat, |j: int| 0u8));
            }
        }
        proof {
            crate::traits::lemma_prefix_append(buf0, Seq::new(len as nat, |j: int| 0u8));
        }
    }

    fn write_bytes(&mut self, data: &[u8]) -> (r: Result<(), ()>) {
        self.push_bytes(data)
    }
}

impl CompositeEncoder for VecEncoder {
    type Error = EncodeErrorKind;

    closed spec fn sessions(&self) -> nat {
        self.depth@
    }

    fn end(&mut self) -> (r: Result<(), Self::Error>)
        ensures
            r is Ok,
            final(self).written() == old(self).written(),
            final(self).space() == old(self).space(),
    {
        self.depth = Ghost((self.depth@ - 1) as nat);
        proof {
            assert(self.buf@ =~= self.buf@.subrange(0, self.buf@.len() as int));
        }
        Ok(())
    }
}

impl CheckPrimitiveTypeSize for VecEncoder {
    open spec fn spec_is_sized(kind: PrimitiveKind) -> bool {
        !(kind is Usize || kind is Isize)
    }

    open spec fn spec_byte_order_agrees() -> bool {
        true
    }

    fn is_sized(kind: PrimitiveKind) -> bool {
        match kind {
            PrimitiveKind::Usize => false,
            PrimitiveKind::Isize => false,
            _ => true,
        }
    }

    fn byte_order_agrees() -> bool {
        true
    }
}

/// The sign fold, executably.
fn zigzag_exec(v: i32) -> (z: u32)
    ensures
        z == zigzag(v),
{
    if v >= 0 {
        (v as u32) * 2
    } else {
        let m = (-(v as i64)) as u64;
        (m * 2 - 1) as u32
    }
}

impl Encoder for VecEncoder {
    open spec fn spec_bool(v: bool) -> Seq<u8> {
        bool_wire(v)
    }

    open spec fn spec_u8(v: u8) -> Seq<u8> {
        le_bytes(v as nat, 1)
    }

    open spec fn spec_i8(v: i8) -> Seq<u8> {
        le_bytes((v as u8) as nat, 1)
    }

    open spec fn spec_u16(v: u16) -> Seq<u8> {
        le_bytes(v as nat, 2)
    }

    open spec fn spec_i16(v: i16) -> Seq<u8> {
        le_bytes((v as u16) as nat, 2)
    }

    open spec fn spec_u32(v: u32) -> Seq<u8> {
        le_bytes(v as nat, 4)
    }

    open spec fn spec_i32(v: i32) -> Seq<u8> {
        le_bytes((v as u32) as nat, 4)
    }

    open spec fn spec_u64(v: u64) -> Seq<u8> {
        le_bytes(v as nat, 8)
    }

    open spec fn spec_i64(v: i64) -> Seq<u8> {
        le_bytes((v as u64) as nat, 8)
    }

    open spec fn spec_u128(v: u128) -> Seq<u8> {
        le_bytes(v as nat, 16)
    }

    open spec fn spec_i128(v: i128) -> Seq<u8> {
        le_bytes((v as u128) as nat, 16)
    }

    open spec fn spec_usize(v: usize) -> Seq<u8> {
        le_bytes(v as nat, 8)
    }

    open spec fn spec_isize(v: isize) -> Seq<u8> {
        le_bytes(((v as i64) as u64) as nat, 8)
    }

    open spec fn spec_str(s: Seq<char>) -> Seq<u8> {
        str_wire(s)
    }

    open spec fn str_ok(s: Seq<char>) -> bool {
        encode_utf8(s).len() <= u32::MAX
    }

    open spec fn spec_bytes(b: Seq<u8>) -> Seq<u8> {
        bytes_wire(b)
    }

    open spec fn bytes_ok(b: Seq<u8>) -> bool {
        b.len() <= u32::MAX
    }

    open spec fn spec_var_i32(v: i32) -> Seq<u8> {
        var_i32_wire(v)
    }

    open spec fn spec_some() -> Seq<u8> {
        presence_wire(true)
    }

    open spec fn spec_none() -> Seq<u8> {
        presence_wire(false)
    }

    open spec fn spec_enum_key(
        enum_name: Seq<char>,
        variant_name: Seq<char>,
        variant_index: usize,
    ) -> Seq<u8> {
        le_bytes(variant_index as nat, 4)
    }

    open spec fn enum_key_ok(variant_index: usize) -> bool {
        variant_index as nat <= u32::MAX as nat
    }

    open spec fn spec_tuple_frame() -> Seq<u8> {
        Seq::empty()
    }

    open spec fn spec_struct_frame() -> Seq<u8> {
        Seq::empty()
    }

    open spec fn spec_seq_frame(len: usize) -> Seq<u8> {
        le_bytes(len as nat, 4)
    }

    open spec fn seq_len_ok(len: usize) -> bool {
        len as nat <= u32::MAX as nat
    }


    proof fn lemma_is_sized_truthful() {
        assert forall|v: bool| (#[trigger] Self::spec_bool(v)).len() == primitive_mem_size(
            PrimitiveKind::Bool,
        ) by {
            assert(bool_wire(v).len() == 1);
        }
        assert forall|v: u8| (#[trigger] Self::spec_u8(v)).len() == primitive_mem_size(
            PrimitiveKind::U8,
        ) by {
            lemma_le_bytes_len(v as nat, 1);
        }
        assert forall|v: i8| (#[trigger] Self::spec_i8(v)).len() == primitive_mem_size(
            PrimitiveKind::I8,
        ) by {
            lemma_le_bytes_len((v as u8) as nat, 1);
        }
        assert forall|v: u16| (#[trigger] Self::spec_u16(v)).len() == primitive_mem_size(
            PrimitiveKind::U16,
        ) by {
            lemma_le_bytes_len(v as nat, 2);
        }
        assert forall|v: i16| (#[trigger] Self::spec_i16(v)).len() == primitive_mem_size(
            PrimitiveKind::I16,
        ) by {
            lemma_le_bytes_len((v as u16) as nat, 2);
        }
        assert forall|v: u32| (#[trigger] Self::spec_u32(v)).len() == primitive_mem_size(
            PrimitiveKind::U32,
        ) by {
            lemma_le_bytes_len(v as nat, 4);
        }
        assert forall|v: i32| (#[trigger] Self::spec_i32(v)).len() == primitive_mem_size(
            PrimitiveKind::I32,
        ) by {
            lemma_le_bytes_len((v as u32) as nat, 4);
        }
        assert forall|v: u64| (#[trigger] Self::spec_u64(v)).len() == primitive_mem_size(
            PrimitiveKind::U64,
        ) by {
            lemma_le_bytes_len(v as nat, 8);
        }
        assert forall|v: i64| (#[trigger] Self::spec_i64(v)).len() == primitive_mem_size(
            PrimitiveKind::I64,
        ) by {
            lemma_le_bytes_len((v as u64) as nat, 8);
        }
        assert forall|v: u128| (#[trigger] Self::spec_u128(v)).len() == primitive_mem_size(
            PrimitiveKind::U128,
        ) by {
            lemma_le_bytes_len(v as nat, 16);
        }
        assert forall|v: i128| (#[trigger] Self::spec_i128(v)).len() == primitive_mem_size(
            PrimitiveKind::I128,
        ) by {
            lemma_le_bytes_len((v as u128) as nat, 16);
        }
    }

    fn encode_bool(&mut self, v: bool) -> (r: Result<(), Self::Error>) {
        let b: u8 = if v {
            1
        } else {
            0
        };
        proof {
            lemma_pow256_vals();
            lemma_le_bytes_len(b as nat, 1);
            assert(bool_wire(v) =~= le_bytes(b as nat, 1));
        }
        self.put_le(b as u128, 1)
    }

    fn encode_u8(&mut self, v: u8) -> (r: Result<(), Self::Error>) {
        proof {
            lemma_pow256_vals();
            lemma_le_bytes_len(v as nat, 1);
        }
        self.put_le(v as u128, 1)
    }

    fn encode_i8(&mut self, v: i8) -> (r: Result<(), Self::Error>) {
        proof {
            lemma_pow256_vals();
            lemma_le_bytes_len((v as u8) as nat, 1);
        }
        self.put_le((v as u8) as u128, 1)
    }

    fn encode_u16(&mut self, v: u16) -> (r: Result<(), Self::Error>) {
        proof {
            lemma_pow256_vals();
            lemma_le_bytes_len(v as nat, 2);
        }
        self.put_le(v as u128, 2)
    }

    fn encode_i16(&mut self, v: i16) -> (r: Result<(), Self::Error>) {
        proof {
            lemma_pow256_vals();
            lemma_le_bytes_len((v as u16) as nat, 2);
        }
        self.put_le((v as u16) as u128, 2)
    }

    fn encode_u32(&mut self, v: u32) -> (r: Result<(), Self::Error>) {
        proof {
            lemma_pow256_vals();
            lemma_le_bytes_len(v as nat, 4);
        }
        self.put_le(v as u128, 4)
    }

    fn encode_i32(&mut self, v: i32) -> (r: Result<(), Self::Error>) {
        proof {
            lemma_pow256_vals();
            lemma_le_bytes_len((v as u32) as nat, 4);
        }
        self.put_le((v as u32) as u128, 4)
    }

    fn encode_u64(&mut self, v: u64) -> (r: Result<(), Self::Error>) {
        proof {
            lemma_pow256_vals();
            lemma_le_bytes_len(v as nat, 8);
        }
        self.put_le(v as u128, 8)
    }

    fn encode_i64(&mut self, v: i64) -> (r: Result<(), Self::Error>) {
        proof {
            lemma_pow256_vals();
            lemma_le_bytes_len((v as u64) as nat, 8);
        }
        self.put_le((v as u64) as u128, 8)
    }

    fn encode_u128(&mut self, v: u128) -> (r: Result<(), Self::Error>) {
        proof {
            lemma_pow256_vals();
            lemma_le_bytes_len(v as nat, 16);
        }
        self.put_le(v, 16)
    }

    fn encode_i128(&mut self, v: i128) -> (r: Result<(), Self::Error>) {
        proof {
            lemma_pow256_vals();
            lemma_le_bytes_len((v as u128) as nat, 16);
        }
        self.put_le(v as u128, 16)
    }

    fn encode_usize(&mut self, v: usize) -> (r: Result<(), Self::Error>) {
        proof {
            lemma_pow256_vals();
            lemma_le_bytes_len(v as nat, 8);
        }
        self.put_le(v as u128, 8)
    }

    fn encode_isize(&mut self, v: isize) -> (r: Result<(), Self::Error>) {
        proof {
            lemma_pow256_vals();
            lemma_le_bytes_len(((v as i64) as u64) as nat, 8);
        }
        self.put_le(((v as i64) as u64) as u128, 8)
    }

    fn encode_str(&mut self, v: &str) -> (r: Result<(), Self::Error>) {
        let bytes = str_to_bytes(v);
        let n = bytes.len();
        proof {
            lemma_pow256_vals();
            lemma_le_bytes_len(n as nat, 4);
        }
        if n > u32::MAX as usize {
            return Err(EncodeErrorKind::TooLarge);
        }
        let sp = self.space_left();
        if n <= sp && 4 <= sp - n {
            let ghost w0 = self.buf@;
            if let Err(_) = self.put_le(n as u128, 4) {
                return Err(EncodeErrorKind::Custom);
            }
            if let Err(_) = self.push_bytes(bytes.as_slice()) {
                return Err(EncodeErrorKind::Custom);
            }
            proof {
                assert(self.buf@ =~= w0 + str_wire(v@));
            }
            Ok(())
        } else {
            Err(EncodeErrorKind::NotEnoughSpace)
        }
    }

    fn encode_bytes(&mut self, v: &[u8]) -> (r: Result<(), Self::Error>) {
        let n = v.len();
        proof {
            lemma_pow256_vals();
            lemma_le_bytes_len(n as nat, 4);
        }
        if n > u32::MAX as usize {
            return Err(EncodeErrorKind::TooLarge);
        }
        let sp = self.space_left();
        if n <= sp && 4 <= sp - n {
            let ghost w0 = self.buf@;
            if let Err(_) = self.put_le(n as u128, 4) {
                return Err(EncodeErrorKind::Custom);
            }
            if let Err(_) = self.push_bytes(v) {
                return Err(EncodeErrorKind::Custom);
            }
            proof {
                assert(self.buf@ =~= w0 + bytes_wire(v@));
            }
            Ok(())
        } else {
            Err(EncodeErrorKind::NotEnoughSpace)
        }
    }

    fn encode_var_i32(&mut self, v: i32) -> (r: Result<(), Self::Error>) {
        let z = zigzag_exec(v);
        let mut tmp: Vec<u8> = Vec::new();
        let mut x = z;
        proof {
            assert(tmp@ + leb(x) =~= leb(z));
        }
        while x >= 0x80
            invariant
                tmp@ + leb(x) == leb(z),
            decreases x,
        {
            let ghost tmp0 = tmp@;
            let ghost x0 = x;
            tmp.push(((x % 0x80) + 0x80) as u8);
            x = x / 0x80;
            proof {
                assert(leb(x0) == seq![((x0 % 0x80) + 0x80) as u8] + leb(x0 / 0x80));
                assert(tmp@ + leb(x) =~= tmp0 + leb(x0));
            }
        }
        tmp.push(x as u8);
        proof {
            assert(leb(x) =~= seq![x as u8]);
            assert(tmp@ =~= leb(z));
        }
        if tmp.len() <= self.space_left() {
            match self.push_bytes(tmp.as_slice()) {
                Ok(()) => Ok(()),
                Err(()) => Err(EncodeErrorKind::Custom),
            }
        } else {
            Err(EncodeErrorKind::NotEnoughSpace)
        }
    }

    fn encode_some(&mut self) -> (r: Result<(), Self::Error>) {
        proof {
            lemma_pow256_vals();
            lemma_le_bytes_len(1, 1);
            assert(Self::spec_some() =~= le_bytes(1, 1));
        }
        self.put_le(1, 1)
    }

    fn encode_none(&mut self) -> (r: Result<(), Self::Error>) {
        proof {
            lemma_pow256_vals();
            lemma_le_bytes_len(0, 1);
            assert(Self::spec_none() =~= le_bytes(0, 1));
        }
        self.put_le(0, 1)
    }

    fn encode_enum_variant_key(
        &mut self,
        enum_name: &'static str,
        variant_name: &'static str,
        variant_index: usize,
    ) -> (r: Result<(), Self::Error>) {
        if variant_index > u32::MAX as usize {
            return Err(EncodeErrorKind::TooLarge);
        }
        proof {
            lemma_pow256_vals();
            lemma_le_bytes_len(variant_index as nat, 4);
        }
        self.put_le(variant_index as u128, 4)
    }

    fn encode_tuple(&mut self) -> (r: Result<(), Self::Error>) {
        self.depth = Ghost(self.depth@ + 1);
        proof {
            assert(self.buf@ + Seq::<u8>::empty() =~= self.buf@);
        }
        Ok(())
    }

    fn encode_struct(&mut self) -> (r: Result<(), Self::Error>) {
        self.depth = Ghost(self.depth@ + 1);
        proof {
            assert(self.buf@ + Seq::<u8>::empty() =~= self.buf@);
        }
        Ok(())
    }

    fn encode_seq(&mut self, len: usize) -> (r: Result<(), Self::Error>) {
        if len > u32::MAX as usize {
            return Err(EncodeErrorKind::TooLarge);
        }
        proof {
            lemma_pow256_vals();
            lemma_le_bytes_len(len as nat, 4);
        }
        match self.put_le(len as u128, 4) {
            Ok(()) => {
                self.depth = Ghost(self.depth@ + 1);
                Ok(())
            },
            Err(e) => Err(e),
        }
    }
}

/// Decode-side format session over a byte vector with a cursor.
pub struct VecDecoder {
    data: Vec<u8>,
    pos: usize,
    depth: Ghost<nat>,
}

impl VecDecoder {
    /// A fresh session over `data`.
    pub fn new(data: Vec<u8>) -> (r: VecDecoder)
        ensures
            r.remaining() == data@,
            r.sessions() == 0,
    {
        VecDecoder { data, pos: 0, depth: Ghost(0nat) }
    }

    fn avail(&self) -> (r: usize)
        ensures
            r as nat == self.remaining().len(),
    {
        if self.pos <= self.data.len() {
            self.data.len() - self.pos
        } else {
            0
        }
    }

    /// Read exactly `len` bytes, or report the shortfall and change
    /// nothing. The private shape of [`BinaryDecoder::read_bytes`], with
    /// the cursor and session depth spelled out.
    fn take_bytes(&mut self, len: usize) -> (r: Result<Vec<u8>, ()>)
        ensures
            r is Ok <==> len <= old(self).remaining().len(),
            r matches Ok(b) ==> b@ == old(self).remaining().take(len as int)
                && final(self).data == old(self).data
                && final(self).pos == old(self).pos + len
                && final(self).depth == old(self).depth,
            r is Err ==> *final(self) == *old(self),
    {
        if len == 0 {
            let out: Vec<u8> = Vec::new();
            proof {
                assert(out@ =~= old(self).remaining().take(0));
            }
            return Ok(out);
        }
        if len <= self.avail() {
            let ghost rem0 = self.remaining();
            let ghost data0 = self.data@;
            let ghost p0 = self.pos as int;
            let dlen = self.data.len();
            let mut out: Vec<u8> = Vec::new();
            let mut i: usize = 0;
            while i < len
                invariant
                    i <= len,
                    1 <= len,
                    self.data@ == data0,
                    self.pos as int == p0,
                    self.depth == old(self).depth,
                    p0 + len <= data0.len(),
                    data0.len() == dlen,
                    out@ == data0.subrange(p0, p0 + i as int),
                decreases len - i,
            {
                let b = self.data[self.pos + i];
                out.push(b);
                i = i + 1;
                proof {
                    assert(out@ =~= data0.subrange(p0, p0 + i as int));
                }
            }
            self.pos = self.pos + len;
            proof {
                assert(rem0.take(len as int) =~= data0.subrange(p0, p0 + len as int));
            }
            Ok(out)
        } else {
            Err(())
        }
    }

    /// Read an `n`-byte little-endian value, or report the shortfall and
    /// change nothing. The private shape of the fixed-width decode
    /// operations.
    fn get_le(&mut self, n: usize) -> (r: Result<u128, DecodeErrorKind>)
        requires
            1 <= n <= 16,
        ensures
            r is Ok <==> n <= old(self).remaining().len(),
            r matches Ok(x) ==> (x as nat) == from_le(old(self).remaining().take(n as int))
                && final(self).data == old(self).data && final(self).pos == old(self).pos + n
                && final(self).depth == old(self).depth,
            r matches Err(e) ==> e == DecodeErrorKind::NotEnoughBytes
                && *final(self) == *old(self),
    {
        let b = match self.take_bytes(n) {
            Ok(b) => b,
            Err(()) => {
                return Err(DecodeErrorKind::NotEnoughBytes);
            },
        };
        let mut acc: u128 = 0;
        let mut i: usize = n;
        proof {
            assert(b@.skip(n as int) =~= Seq::<u8>::empty());
        }
        while i > 0
            invariant
                i <= n,
                n <= 16,
                n == b@.len(),
                (acc as nat) == from_le(b@.skip(i as int)),
            decreases i,
        {
            i = i - 1;
            proof {
                lemma_pow256_vals();
                lemma_from_le_bound(b@.skip(i as int));
                lemma_pow256_mono(b@.skip(i as int).len(), 16);
                assert(b@.skip(i as int).skip(1) =~= b@.skip(i as int + 1));
                assert(from_le(b@.skip(i as int)) == b@[i as int] as nat + 256 * (acc as nat));
            }
            acc = acc * 256 + (b[i] as u128);
        }
        proof {
            assert(b@.skip(0) =~= b@);
        }
        Ok(acc)
    }
}

impl BinaryDecoder for VecDecoder {
    closed spec fn remaining(&self) -> Seq<u8> {
        if self.pos <= self.data@.len() {
            self.data@.skip(self.pos as int)
        } else {
            Seq::empty()
        }
    }

    fn skip_bytes(&mut self, len: usize) {
        let ghost rem0 = self.remaining();
        let dlen = self.data.len();
        proof {
            if self.pos <= self.data@.len() {
                assert(self.pos + len <= dlen);
            } else {
                assert(len == 0);
            }
        }
        self.pos = self.pos + len;
        proof {
            if old(self).pos <= self.data@.len() {
                assert(self.remaining() =~= rem0.skip(len as int));
            } else {
                assert(self.remaining() =~= rem0.skip(0));
            }
        }
    }

    fn read_bytes(&mut self, len: usize) -> (r: Result<Vec<u8>, ()>) {
        let ghost rem0 = self.remaining();
        match self.take_bytes(len) {
            Ok(b) => {
                proof {
                    if old(self).pos <= old(self).data@.len() {
                        assert(self.remaining() =~= rem0.skip(len as int));
                    } else {
                        assert(len == 0);
                        assert(self.remaining() =~= rem0.skip(0));
                    }
                }
                Ok(b)
            },
            Err(()) => Err(()),
        }
    }
}

impl CompositeDecoder for VecDecoder {
    type Error = DecodeErrorKind;

    closed spec fn sessions(&self) -> nat {
        self.depth@
    }

    fn end(&mut self) -> (r: Result<(), Self::Error>)
        ensures
            r is Ok,
            final(self).remaining() == old(self).remaining(),
    {
        self.depth = Ghost((self.depth@ - 1) as nat);
        Ok(())
    }
}

impl CheckPrimitiveTypeSize for VecDecoder {
    open spec fn spec_is_sized(kind: PrimitiveKind) -> bool {
        !(kind is Usize || kind is Isize)
    }

    open spec fn spec_byte_order_agrees() -> bool {
        true
    }

    fn is_sized(kind: PrimitiveKind) -> bool {
        match kind {
            PrimitiveKind::Usize => false,
            PrimitiveKind::Isize => false,
            _ => true,
        }
    }

    fn byte_order_agrees() -> bool {
        true
    }
}

/// The inverse sign fold, executably.
fn unzigzag_exec(z: u32) -> (v: i32)
    ensures
        v == unzigzag(z),
{
    if z % 2 == 0 {
        (z / 2) as i32
    } else {
        let m = (z / 2) as i64 + 1;
        (-m) as i32
    }
}

/// Parse one variable-length integer from `data` at `pos`: the folded
/// value and the bytes it took. Fails exactly when no canonical image of a
/// value opens the input there.
fn leb_from(data: &Vec<u8>, pos: usize) -> (r: Result<(u32, usize), DecodeErrorKind>)
    requires
        pos <= data@.len(),
    ensures
        r matches Ok(p) ==> pos + p.1 <= data@.len() && 1 <= p.1 && leb(p.0) == data@.subrange(
            pos as int,
            pos as int + p.1 as int,
        ),
        r is Ok <==> exists|z: u32| (#[trigger] leb(z)).is_prefix_of(data@.skip(pos as int)),
        r matches Err(e) ==> (data@.len() == pos ==> e == DecodeErrorKind::NotEnoughBytes),
    decreases data@.len() - pos,
{
    let ghost s = data@.skip(pos as int);
    if pos == data.len() {
        proof {
            assert forall|z: u32| !(#[trigger] leb(z)).is_prefix_of(s) by {
                lemma_leb_len(z);
            }
        }
        return Err(DecodeErrorKind::NotEnoughBytes);
    }
    let b0 = data[pos];
    proof {
        assert(s[0] == data@[pos as int]);
    }
    if b0 < 0x80 {
        proof {
            assert(leb(b0 as u32) =~= seq![b0]);
            assert(leb(b0 as u32) =~= data@.subrange(pos as int, pos as int + 1));
            assert(leb(b0 as u32) =~= s.subrange(0, 1));
        }
        return Ok((b0 as u32, 1));
    }
    match leb_from(data, pos + 1) {
        Err(e) => {
            proof {
                assert(s.skip(1) =~= data@.skip(pos as int + 1));
                assert forall|z: u32| !(#[trigger] leb(z)).is_prefix_of(s) by {
                    if leb(z).is_prefix_of(s) {
                        assert(leb(z)[0] == s[0]);
                        if z < 0x80 {
                            assert(leb(z) =~= seq![z as u8]);
                        } else {
                            lemma_tail_prefix(((z % 0x80) + 0x80) as u8, leb(z / 0x80), s);
                        }
                    }
                }
            }
            Err(e)
        },
        Ok((rest, used)) => {
            proof {
                assert(s.skip(1) =~= data@.skip(pos as int + 1));
                assert(leb(rest) =~= data@.skip(pos as int + 1).subrange(0, used as int));
                assert(leb(rest).is_prefix_of(data@.skip(pos as int + 1)));
            }
            if rest == 0 {
                proof {
                    assert forall|z: u32| !(#[trigger] leb(z)).is_prefix_of(s) by {
                        if leb(z).is_prefix_of(s) {
                            assert(leb(z)[0] == s[0]);
                            if z < 0x80 {
                                assert(leb(z) =~= seq![z as u8]);
                            } else {
                                lemma_tail_prefix(((z % 0x80) + 0x80) as u8, leb(z / 0x80), s);
                                lemma_leb_prefix_unique(z / 0x80, rest, data@.skip(pos as int + 1));
                            }
                        }
                    }
                }
                Err(DecodeErrorKind::Custom)
            } else {
                let low = (b0 - 0x80) as u32;
                let cap_div = (u32::MAX - low) / 0x80;
                if rest > cap_div {
                    proof {
                        assert((low as int) + 0x80 * (rest as int) > u32::MAX as int)
                            by (nonlinear_arith)
                            requires
                                (rest as int) > ((u32::MAX - low) as int) / 0x80,
                                0 <= low as int,
                                (u32::MAX - low) as int == u32::MAX as int - low as int,
                        ;
                        assert forall|z: u32| !(#[trigger] leb(z)).is_prefix_of(s) by {
                            if leb(z).is_prefix_of(s) {
                                assert(leb(z)[0] == s[0]);
                                if z < 0x80 {
                                    assert(leb(z) =~= seq![z as u8]);
                                } else {
                                    lemma_tail_prefix(((z % 0x80) + 0x80) as u8, leb(z / 0x80), s);
                                    lemma_leb_prefix_unique(
                                        z / 0x80,
                                        rest,
                                        data@.skip(pos as int + 1),
                                    );
                                    assert(z % 0x80 == low);
                                    assert(z as int == 0x80 * (z / 0x80) as int + (z % 0x80) as int);
                                }
                            }
                        }
                    }
                    Err(DecodeErrorKind::TooLarge)
                } else {
                    proof {
                        assert((low as int) + (rest as int) * 0x80 <= u32::MAX as int)
                            by (nonlinear_arith)
                            requires
                                (rest as int) <= ((u32::MAX - low) as int) / 0x80,
                                0 <= low as int,
                                0 <= rest as int,
                                (u32::MAX - low) as int == u32::MAX as int - low as int,
                        ;
                    }
                    let z = low + rest * 0x80;
                    proof {
                        assert(z % 0x80 == low && z / 0x80 == rest) by (nonlinear_arith)
                            requires
                                z == low + rest * 0x80,
                                0 <= low < 0x80,
                        ;
                        assert(z >= 0x80) by (nonlinear_arith)
                            requires
                                z == low + rest * 0x80,
                                rest >= 1,
                                low >= 0,
                        ;
                        assert(leb(z) == seq![((z % 0x80) + 0x80) as u8] + leb(z / 0x80));
                        assert(((z % 0x80) + 0x80) as u8 == b0);
                        assert(leb(z) =~= data@.subrange(pos as int, pos as int + 1 + used as int))
                            by {
                            assert(forall|i: int| #![auto]
                                0 <= i < used ==> leb(rest)[i] == data@[pos as int + 1 + i]);
                        }
                        assert(leb(z) =~= s.subrange(0, 1 + used as int)) by {
                            assert(forall|i: int| #![auto]
                                0 <= i < 1 + used ==> s[i] == data@[pos as int + i]);
                        }
                    }
                    Ok((z, used + 1))
                }
            }
        },
    }
}

proof fn lemma_u8_cast_round(y: u8)
    ensures
        ((y as i8) as u8) == y,
{
    assert(((y as i8) as u8) == y) by (bit_vector);
}

proof fn lemma_u16_cast_round(y: u16)
    ensures
        ((y as i16) as u16) == y,
{
    assert(((y as i16) as u16) == y) by (bit_vector);
}

proof fn lemma_u32_cast_round(y: u32)
    ensures
        ((y as i32) as u32) == y,
{
    assert(((y as i32) as u32) == y) by (bit_vector);
}

proof fn lemma_u64_cast_round(y: u64)
    ensures
        ((y as i64) as u64) == y,
{
    assert(((y as i64) as u64) == y) by (bit_vector);
}

proof fn lemma_u128_cast_round(y: u128)
    ensures
        ((y as i128) as u128) == y,
{
    assert(((y as i128) as u128) == y) by (bit_vector);
}

proof fn lemma_i64_cast_round(y: i64)
    ensures
        ((y as u64) as i64) == y,
{
    assert(((y as u64) as i64) == y) by (bit_vector);
}

impl Decoder for VecDecoder {
    open spec fn spec_bool(v: bool) -> Seq<u8> {
        bool_wire(v)
    }

    open spec fn spec_u8(v: u8) -> Seq<u8> {
        le_bytes(v as nat, 1)
    }

    open spec fn spec_i8(v: i8) -> Seq<u8> {
        le_bytes((v as u8) as nat, 1)
    }

    open spec fn spec_u16(v: u16) -> Seq<u8> {
        le_bytes(v as nat, 2)
    }

    open spec fn spec_i16(v: i16) -> Seq<u8> {
        le_bytes((v as u16) as nat, 2)
    }

    open spec fn spec_u32(v: u32) -> Seq<u8> {
        le_bytes(v as nat, 4)
    }

    open spec fn spec_i32(v: i32) -> Seq<u8> {
        le_bytes((v as u32) as nat, 4)
    }

    open spec fn spec_u64(v: u64) -> Seq<u8> {
        le_bytes(v as nat, 8)
    }

    open spec fn spec_i64(v: i64) -> Seq<u8> {
        le_bytes((v as u64) as nat, 8)
    }

    open spec fn spec_u128(v: u128) -> Seq<u8> {
        le_bytes(v as nat, 16)
    }

    open spec fn spec_i128(v: i128) -> Seq<u8> {
        le_bytes((v as u128) as nat, 16)
    }

    open spec fn spec_usize(v: usize) -> Seq<u8> {
        le_bytes(v as nat, 8)
    }

    open spec fn spec_isize(v: isize) -> Seq<u8> {
        le_bytes(((v as i64) as u64) as nat, 8)
    }

    open spec fn spec_str(s: Seq<char>) -> Seq<u8> {
        str_wire(s)
    }

    open spec fn str_ok(s: Seq<char>) -> bool {
        encode_utf8(s).len() <= u32::MAX
    }

    open spec fn spec_bytes(b: Seq<u8>) -> Seq<u8> {
        bytes_wire(b)
    }

    open spec fn spec_var_i32(v: i32) -> Seq<u8> {
        var_i32_wire(v)
    }

    open spec fn spec_some() -> Seq<u8> {
        presence_wire(true)
    }

    open spec fn spec_none() -> Seq<u8> {
        presence_wire(false)
    }

    open spec fn enum_ident_valid(id: EnumIdentifier) -> bool {
        match id {
            EnumIdentifier::Index(i) => i as nat <= u32::MAX as nat,
            EnumIdentifier::Name(_) => false,
        }
    }

    open spec fn spec_enum_ident(id: EnumIdentifier) -> Seq<u8> {
        match id {
            EnumIdentifier::Index(i) => le_bytes(i as nat, 4),
            EnumIdentifier::Name(_) => Seq::empty(),
        }
    }

    open spec fn spec_tuple_frame() -> Seq<u8> {
        Seq::empty()
    }

    open spec fn spec_struct_frame() -> Seq<u8> {
        Seq::empty()
    }

    open spec fn spec_seq_frame(len: usize) -> Seq<u8> {
        le_bytes(len as nat, 4)
    }


    proof fn lemma_is_sized_truthful() {
        assert forall|v: bool| (#[trigger] Self::spec_bool(v)).len() == primitive_mem_size(
            PrimitiveKind::Bool,
        ) by {
            assert(bool_wire(v).len() == 1);
        }
        assert forall|v: u8| (#[trigger] Self::spec_u8(v)).len() == primitive_mem_size(
            PrimitiveKind::U8,
        ) by {
            lemma_le_bytes_len(v as nat, 1);
        }
        assert forall|v: i8| (#[trigger] Self::spec_i8(v)).len() == primitive_mem_size(
            PrimitiveKind::I8,
        ) by {
            lemma_le_bytes_len((v as u8) as nat, 1);
        }
        assert forall|v: u16| (#[trigger] Self::spec_u16(v)).len() == primitive_mem_size(
            PrimitiveKind::U16,
        ) by {
            lemma_le_bytes_len(v as nat, 2);
        }
        assert forall|v: i16| (#[trigger] Self::spec_i16(v)).len() == primitive_mem_size(
            PrimitiveKind::I16,
        ) by {
            lemma_le_bytes_len((v as u16) as nat, 2);
        }
        assert forall|v: u32| (#[trigger] Self::spec_u32(v)).len() == primitive_mem_size(
            PrimitiveKind::U32,
        ) by {
            lemma_le_bytes_len(v as nat, 4);
        }
        assert forall|v: i32| (#[trigger] Self::spec_i32(v)).len() == primitive_mem_size(
            PrimitiveKind::I32,
        ) by {
            lemma_le_bytes_len((v as u32) as nat, 4);
        }
        assert forall|v: u64| (#[trigger] Self::spec_u64(v)).len() == primitive_mem_size(
            PrimitiveKind::U64,
        ) by {
            lemma_le_bytes_len(v as nat, 8);
        }
        assert forall|v: i64| (#[trigger] Self::spec_i64(v)).len() == primitive_mem_size(
            PrimitiveKind::I64,
        ) by {
            lemma_le_bytes_len((v as u64) as nat, 8);
        }
        assert forall|v: u128| (#[trigger] Self::spec_u128(v)).len() == primitive_mem_size(
            PrimitiveKind::U128,
        ) by {
            lemma_le_bytes_len(v as nat, 16);
        }
        assert forall|v: i128| (#[trigger] Self::spec_i128(v)).len() == primitive_mem_size(
            PrimitiveKind::I128,
        ) by {
            lemma_le_bytes_len((v as u128) as nat, 16);
        }
    }

    fn decode_bool(&mut self) -> (r: Result<bool, Self::Error>) {
        let ghost rem0 = self.remaining();
        let pos0 = self.pos;
        match self.take_bytes(1) {
            Err(()) => Err(DecodeErrorKind::NotEnoughBytes),
            Ok(b) => {
                let x = b[0];
                proof {
                    assert(b@[0] == rem0[0]);
                }
                if x == 0 {
                    proof {
                        assert(Self::spec_bool(false) =~= rem0.take(1));
                        assert(rem0 =~= rem0.take(1) + rem0.skip(1));
                        assert(self.remaining() =~= rem0.skip(1));
                    }
                    Ok(false)
                } else if x == 1 {
                    proof {
                        assert(Self::spec_bool(true) =~= rem0.take(1));
                        assert(rem0 =~= rem0.take(1) + rem0.skip(1));
                        assert(self.remaining() =~= rem0.skip(1));
                    }
                    Ok(true)
                } else {
                    self.pos = pos0;
                    proof {
                        assert(self.remaining() == rem0);
                        assert forall|v: bool| !(#[trigger] Self::spec_bool(v)).is_prefix_of(
                            rem0,
                        ) by {
                            if Self::spec_bool(v).is_prefix_of(rem0) {
                                assert(Self::spec_bool(v)[0] == rem0[0]);
                            }
                        }
                    }
                    Err(DecodeErrorKind::Custom)
                }
            },
        }
    }

    fn decode_u8(&mut self) -> (r: Result<u8, Self::Error>) {
        let ghost rem0 = self.remaining();
        proof {
            lemma_pow256_vals();
            assert forall|v: u8| (#[trigger] Self::spec_u8(v)).len() == 1 by {
                lemma_le_bytes_len(v as nat, 1);
            }
        }
        match self.get_le(1) {
            Ok(x) => {
                proof {
                    lemma_from_le_bound(rem0.take(1));
                    lemma_le_of_from_le(rem0.take(1));
                    assert(Self::spec_u8(x as u8) =~= rem0.take(1));
                    assert(rem0 =~= rem0.take(1) + rem0.skip(1));
                    assert(self.remaining() =~= rem0.skip(1));
                }
                Ok(x as u8)
            },
            Err(e) => Err(e),
        }
    }

    fn decode_i8(&mut self) -> (r: Result<i8, Self::Error>) {
        let ghost rem0 = self.remaining();
        proof {
            lemma_pow256_vals();
            assert forall|v: i8| (#[trigger] Self::spec_i8(v)).len() == 1 by {
                lemma_le_bytes_len((v as u8) as nat, 1);
            }
        }
        match self.get_le(1) {
            Ok(x) => {
                let w = (x as u8) as i8;
                proof {
                    lemma_from_le_bound(rem0.take(1));
                    lemma_le_of_from_le(rem0.take(1));
                    lemma_u8_cast_round(x as u8);
                    assert(Self::spec_i8(w) =~= rem0.take(1));
                    assert(rem0 =~= rem0.take(1) + rem0.skip(1));
                    assert(self.remaining() =~= rem0.skip(1));
                }
                Ok(w)
            },
            Err(e) => Err(e),
        }
    }

    fn decode_u16(&mut self) -> (r: Result<u16, Self::Error>) {
        let ghost rem0 = self.remaining();
        proof {
            lemma_pow256_vals();
            assert forall|v: u16| (#[trigger] Self::spec_u16(v)).len() == 2 by {
                lemma_le_bytes_len(v as nat, 2);
            }
        }
        match self.get_le(2) {
            Ok(x) => {
                proof {
                    lemma_from_le_bound(rem0.take(2));
                    lemma_le_of_from_le(rem0.take(2));
                    assert(Self::spec_u16(x as u16) =~= rem0.take(2));
                    assert(rem0 =~= rem0.take(2) + rem0.skip(2));
                    assert(self.remaining() =~= rem0.skip(2));
                }
                Ok(x as u16)
            },
            Err(e) => Err(e),
        }
    }

    fn decode_i16(&mut self) -> (r: Result<i16, Self::Error>) {
        let ghost rem0 = self.remaining();
        proof {
            lemma_pow256_vals();
            assert forall|v: i16| (#[trigger] Self::spec_i16(v)).len() == 2 by {
                lemma_le_bytes_len((v as u16) as nat, 2);
            }
        }
        match self.get_le(2) {
            Ok(x) => {
                let w = (x as u16) as i16;
                proof {
                    lemma_from_le_bound(rem0.take(2));
                    lemma_le_of_from_le(rem0.take(2));
                    lemma_u16_cast_round(x as u16);
                    assert(Self::spec_i16(w) =~= rem0.take(2));
                    assert(rem0 =~= rem0.take(2) + rem0.skip(2));
                    assert(self.remaining() =~= rem0.skip(2));
                }
                Ok(w)
            },
            Err(e) => Err(e),
        }
    }

    fn decode_u32(&mut self) -> (r: Result<u32, Self::Error>) {
        let ghost rem0 = self.remaining();
        proof {
            lemma_pow256_vals();
            assert forall|v: u32| (#[trigger] Self::spec_u32(v)).len() == 4 by {
                lemma_le_bytes_len(v as nat, 4);
            }
        }
        match self.get_le(4) {
            Ok(x) => {
                proof {
                    lemma_from_le_bound(rem0.take(4));
                    lemma_le_of_from_le(rem0.take(4));
                    assert(Self::spec_u32(x as u32) =~= rem0.take(4));
                    assert(rem0 =~= rem0.take(4) + rem0.skip(4));
                    assert(self.remaining() =~= rem0.skip(4));
                }
                Ok(x as u32)
            },
            Err(e) => Err(e),
        }
    }

    fn decode_i32(&mut self) -> (r: Result<i32, Self::Error>) {
        let ghost rem0 = self.remaining();
        proof {
            lemma_pow256_vals();
            assert forall|v: i32| (#[trigger] Self::spec_i32(v)).len() == 4 by {
                lemma_le_bytes_len((v as u32) as nat, 4);
            }
        }
        match self.get_le(4) {
            Ok(x) => {
                let w = (x as u32) as i32;
                proof {
                    lemma_from_le_bound(rem0.take(4));
                    lemma_le_of_from_le(rem0.take(4));
                    lemma_u32_cast_round(x as u32);
                    assert(Self::spec_i32(w) =~= rem0.take(4));
                    assert(rem0 =~= rem0.take(4) + rem0.skip(4));
                    assert(self.remaining() =~= rem0.skip(4));
                }
                Ok(w)
            },
            Err(e) => Err(e),
        }
    }

    fn decode_u64(&mut self) -> (r: Result<u64, Self::Error>) {
        let ghost rem0 = self.remaining();
        proof {
            lemma_pow256_vals();
            assert forall|v: u64| (#[trigger] Self::spec_u64(v)).len() == 8 by {
                lemma_le_bytes_len(v as nat, 8);
            }
        }
        match self.get_le(8) {
            Ok(x) => {
                proof {
                    lemma_from_le_bound(rem0.take(8));
                    lemma_le_of_from_le(rem0.take(8));
                    assert(Self::spec_u64(x as u64) =~= rem0.take(8));
                    assert(rem0 =~= rem0.take(8) + rem0.skip(8));
                    assert(self.remaining() =~= rem0.skip(8));
                }
                Ok(x as u64)
            },
            Err(e) => Err(e),
        }
    }

    fn decode_i64(&mut self) -> (r: Result<i64, Self::Error>) {
        let ghost rem0 = self.remaining();
        proof {
            lemma_pow256_vals();
            assert forall|v: i64| (#[trigger] Self::spec_i64(v)).len() == 8 by {
                lemma_le_bytes_len((v as u64) as nat, 8);
            }
        }
        match self.get_le(8) {
            Ok(x) => {
                let w = (x as u64) as i64;
                proof {
                    lemma_from_le_bound(rem0.take(8));
                    lemma_le_of_from_le(rem0.take(8));
                    lemma_u64_cast_round(x as u64);
                    assert(Self::spec_i64(w) =~= rem0.take(8));
                    assert(rem0 =~= rem0.take(8) + rem0.skip(8));
                    assert(self.remaining() =~= rem0.skip(8));
                }
                Ok(w)
            },
            Err(e) => Err(e),
        }
    }

    fn decode_u128(&mut self) -> (r: Result<u128, Self::Error>) {
        let ghost rem0 = self.remaining();
        proof {
            lemma_pow256_vals();
            assert forall|v: u128| (#[trigger] Self::spec_u128(v)).len() == 16 by {
                lemma_le_bytes_len(v as nat, 16);
            }
        }
        match self.get_le(16) {
            Ok(x) => {
                proof {
                    lemma_from_le_bound(rem0.take(16));
                    lemma_le_of_from_le(rem0.take(16));
                    assert(Self::spec_u128(x) =~= rem0.take(16));
                    assert(rem0 =~= rem0.take(16) + rem0.skip(16));
                    assert(self.remaining() =~= rem0.skip(16));
                }
                Ok(x)
            },
            Err(e) => Err(e),
        }
    }

    fn decode_i128(&mut self) -> (r: Result<i128, Self::Error>) {
        let ghost rem0 = self.remaining();
        proof {
            lemma_pow256_vals();
            assert forall|v: i128| (#[trigger] Self::spec_i128(v)).len() == 16 by {
                lemma_le_bytes_len((v as u128) as nat, 16);
            }
        }
        match self.get_le(16) {
            Ok(x) => {
                let w = x as i128;
                proof {
                    lemma_from_le_bound(rem0.take(16));
                    lemma_le_of_from_le(rem0.take(16));
                    lemma_u128_cast_round(x);
                    assert(Self::spec_i128(w) =~= rem0.take(16));
                    assert(rem0 =~= rem0.take(16) + rem0.skip(16));
                    assert(self.remaining() =~= rem0.skip(16));
                }
                Ok(w)
            },
            Err(e) => Err(e),
        }
    }

    fn decode_usize(&mut self) -> (r: Result<usize, Self::Error>) {
        let ghost rem0 = self.remaining();
        let pos0 = self.pos;
        proof {
            lemma_pow256_vals();
            assert forall|v: usize| (#[trigger] Self::spec_usize(v)).len() == 8 by {
                lemma_le_bytes_len(v as nat, 8);
            }
        }
        match self.get_le(8) {
            Ok(x) => {
                proof {
                    lemma_from_le_bound(rem0.take(8));
                    lemma_le_of_from_le(rem0.take(8));
                }
                if x <= usize::MAX as u128 {
                    proof {
                        assert(Self::spec_usize(x as usize) =~= rem0.take(8));
                        assert(rem0 =~= rem0.take(8) + rem0.skip(8));
                        assert(self.remaining() =~= rem0.skip(8));
                    }
                    Ok(x as usize)
                } else {
                    self.pos = pos0;
                    proof {
                        assert(self.remaining() == rem0);
                        assert forall|v: usize| !(#[trigger] Self::spec_usize(v)).is_prefix_of(
                            rem0,
                        ) by {
                            if Self::spec_usize(v).is_prefix_of(rem0) {
                                assert(rem0 =~= le_bytes(x as nat, 8) + rem0.skip(8));
                                crate::wire::lemma_le_prefix_unique(
                                    x as nat,
                                    v as nat,
                                    8,
                                    rem0.skip(8),
                                );
                            }
                        }
                    }
                    Err(DecodeErrorKind::TooLarge)
                }
            },
            Err(e) => Err(e),
        }
    }

    fn decode_isize(&mut self) -> (r: Result<isize, Self::Error>) {
        let ghost rem0 = self.remaining();
        let pos0 = self.pos;
        proof {
            lemma_pow256_vals();
            assert forall|v: isize| (#[trigger] Self::spec_isize(v)).len() == 8 by {
                lemma_le_bytes_len(((v as i64) as u64) as nat, 8);
            }
        }
        match self.get_le(8) {
            Ok(x) => {
                proof {
                    lemma_from_le_bound(rem0.take(8));
                    lemma_le_of_from_le(rem0.take(8));
                }
                let xu = x as u64;
                let xi = xu as i64;
                if isize::MIN as i64 <= xi && xi <= isize::MAX as i64 {
                    let w = xi as isize;
                    proof {
                        lemma_u64_cast_round(xu);
                        assert(w as i64 == xi);
                        assert(Self::spec_isize(w) =~= rem0.take(8));
                        assert(rem0 =~= rem0.take(8) + rem0.skip(8));
                        assert(self.remaining() =~= rem0.skip(8));
                    }
                    Ok(w)
                } else {
                    self.pos = pos0;
                    proof {
                        assert(self.remaining() == rem0);
                        assert forall|v: isize| !(#[trigger] Self::spec_isize(v)).is_prefix_of(
                            rem0,
                        ) by {
                            if Self::spec_isize(v).is_prefix_of(rem0) {
                                assert(rem0 =~= le_bytes(x as nat, 8) + rem0.skip(8));
                                crate::wire::lemma_le_prefix_unique(
                                    x as nat,
                                    ((v as i64) as u64) as nat,
                                    8,
                                    rem0.skip(8),
                                );
                                lemma_i64_cast_round(v as i64);
                            }
                        }
                    }
                    Err(DecodeErrorKind::TooLarge)
                }
            },
            Err(e) => Err(e),
        }
    }

    fn decode_str(&mut self) -> (r: Result<String, Self::Error>) {
        let ghost rem0 = self.remaining();
        let pos0 = self.pos;
        proof {
            lemma_pow256_vals();
        }
        match self.get_le(4) {
            Err(e) => {
                proof {
                    assert forall|s: Seq<char>| !(Self::str_ok(s) && (#[trigger] Self::spec_str(
                        s,
                    )).is_prefix_of(rem0)) by {
                        lemma_le_bytes_len(encode_utf8(s).len(), 4);
                    }
                }
                Err(e)
            },
            Ok(x) => {
                proof {
                    lemma_from_le_bound(rem0.take(4));
                    lemma_le_of_from_le(rem0.take(4));
                    assert(usize::MAX as nat >= 0xffffffff);
                    assert(rem0 =~= le_bytes(x as nat, 4) + rem0.skip(4));
                    assert(self.remaining() =~= rem0.skip(4));
                }
                let n = x as usize;
                let ghost rem1 = self.remaining();
                match self.take_bytes(n) {
                    Err(()) => {
                        self.pos = pos0;
                        proof {
                            assert(self.remaining() == rem0);
                            assert forall|s: Seq<char>| !(Self::str_ok(s) && (
                            #[trigger] Self::spec_str(s)).is_prefix_of(rem0)) by {
                                if Self::str_ok(s) && Self::spec_str(s).is_prefix_of(rem0) {
                                    lemma_le_bytes_len(encode_utf8(s).len(), 4);
                                    crate::wire::lemma_prefix_parts(
                                        le_bytes(encode_utf8(s).len(), 4),
                                        encode_utf8(s),
                                        rem0,
                                    );
                                    crate::wire::lemma_le_prefix_unique(
                                        x as nat,
                                        encode_utf8(s).len(),
                                        4,
                                        rem0.skip(4),
                                    );
                                }
                            }
                        }
                        Err(DecodeErrorKind::NotEnoughBytes)
                    },
                    Ok(bts) => {
                        let ghost bv = bts@;
                        match string_from_bytes(bts) {
                            None => {
                                self.pos = pos0;
                                proof {
                                    assert(self.remaining() == rem0);
                                    assert forall|s: Seq<char>| !(Self::str_ok(s) && (
                                    #[trigger] Self::spec_str(s)).is_prefix_of(rem0)) by {
                                        if Self::str_ok(s) && Self::spec_str(s).is_prefix_of(
                                            rem0,
                                        ) {
                                            lemma_le_bytes_len(encode_utf8(s).len(), 4);
                                            crate::wire::lemma_prefix_parts(
                                                le_bytes(encode_utf8(s).len(), 4),
                                                encode_utf8(s),
                                                rem0,
                                            );
                                            crate::wire::lemma_le_prefix_unique(
                                                x as nat,
                                                encode_utf8(s).len(),
                                                4,
                                                rem0.skip(4),
                                            );
                                            assert(encode_utf8(s) =~= rem1.subrange(0, n as int));
                                            assert(encode_utf8(s) == bv);
                                            encode_utf8_valid_utf8(s);
                                        }
                                    }
                                }
                                Err(DecodeErrorKind::Custom)
                            },
                            Some(t) => {
                                proof {
                                    decode_utf8_encode_utf8(bv);
                                    assert(bv == encode_utf8(t@));
                                    assert(Self::str_ok(t@));
                                    lemma_le_bytes_len(encode_utf8(t@).len(), 4);
                                    assert(Self::spec_str(t@) =~= rem0.take(4 + n as int)) by {
                                        assert(forall|i: int| #![auto]
                                            0 <= i < n ==> bv[i] == rem0[4 + i]);
                                    }
                                    assert(rem0 =~= rem0.take(4 + n as int) + rem0.skip(
                                        4 + n as int,
                                    ));
                                    assert(self.remaining() =~= rem0.skip(4 + n as int));
                                }
                                Ok(t)
                            },
                        }
                    },
                }
            },
        }
    }

    fn decode_bytes(&mut self) -> (r: Result<Vec<u8>, Self::Error>) {
        let ghost rem0 = self.remaining();
        let pos0 = self.pos;
        proof {
            lemma_pow256_vals();
        }
        match self.get_le(4) {
            Err(e) => {
                proof {
                    assert forall|b: Seq<u8>| !(#[trigger] Self::spec_bytes(b)).is_prefix_of(
                        rem0,
                    ) by {
                        lemma_le_bytes_len(b.len(), 4);
                    }
                }
                Err(e)
            },
            Ok(x) => {
                proof {
                    lemma_from_le_bound(rem0.take(4));
                    lemma_le_of_from_le(rem0.take(4));
                    assert(usize::MAX as nat >= 0xffffffff);
                    assert(rem0 =~= le_bytes(x as nat, 4) + rem0.skip(4));
                    assert(self.remaining() =~= rem0.skip(4));
                }
                let n = x as usize;
                let ghost rem1 = self.remaining();
                match self.take_bytes(n) {
                    Err(()) => {
                        self.pos = pos0;
                        proof {
                            assert(self.remaining() == rem0);
                            assert forall|b: Seq<u8>| !(
                            #[trigger] Self::spec_bytes(b)).is_prefix_of(rem0) by {
                                if Self::spec_bytes(b).is_prefix_of(rem0) {
                                    lemma_le_bytes_len(b.len(), 4);
                                    crate::wire::lemma_prefix_parts(
                                        le_bytes(b.len(), 4),
                                        b,
                                        rem0,
                                    );
                                    crate::wire::lemma_le_round_trip_mod(b.len(), 4);
                                    assert(le_bytes(b.len(), 4) =~= rem0.take(4));
                                    assert(b.len() % pow256(4) == x as nat);
                                    assert(b.len() % pow256(4) <= b.len()) by (nonlinear_arith)
                                        requires
                                            pow256(4) > 0,
                                    ;
                                }
                            }
                        }
                        Err(DecodeErrorKind::NotEnoughBytes)
                    },
                    Ok(bts) => {
                        proof {
                            assert(bts@.len() == n);
                            assert(Self::spec_bytes(bts@) =~= rem0.take(4 + n as int)) by {
                                assert(forall|i: int| #![auto]
                                    0 <= i < n ==> bts@[i] == rem0[4 + i]);
                            }
                            assert(rem0 =~= rem0.take(4 + n as int) + rem0.skip(4 + n as int));
                            assert(self.remaining() =~= rem0.skip(4 + n as int));
                        }
                        Ok(bts)
                    },
                }
            },
        }
    }

    fn decode_var_i32(&mut self) -> (r: Result<i32, Self::Error>) {
        let ghost rem0 = self.remaining();
        if self.pos > self.data.len() {
            proof {
                assert forall|v: i32| !(#[trigger] Self::spec_var_i32(v)).is_prefix_of(rem0) by {
                    lemma_leb_len(zigzag(v));
                }
            }
            return Err(DecodeErrorKind::NotEnoughBytes);
        }
        match leb_from(&self.data, self.pos) {
            Err(e) => {
                proof {
                    assert forall|v: i32| !(#[trigger] Self::spec_var_i32(v)).is_prefix_of(
                        rem0,
                    ) by {
                        if Self::spec_var_i32(v).is_prefix_of(rem0) {
                            assert((#[trigger] leb(zigzag(v))).is_prefix_of(
                                old(self).data@.skip(old(self).pos as int),
                            ));
                        }
                    }
                }
                Err(e)
            },
            Ok((z, used)) => {
                self.pos = self.pos + used;
                let v = unzigzag_exec(z);
                proof {
                    crate::wire::lemma_unzigzag_round_trip(z);
                    assert(Self::spec_var_i32(v) == leb(z));
                    assert(leb(z) =~= rem0.take(used as int));
                    assert(rem0 =~= rem0.take(used as int) + rem0.skip(used as int));
                    assert(self.remaining() =~= rem0.skip(used as int));
                }
                Ok(v)
            },
        }
    }

    fn decode_is_some(&mut self) -> (r: Result<bool, Self::Error>) {
        let ghost rem0 = self.remaining();
        let pos0 = self.pos;
        match self.take_bytes(1) {
            Err(()) => Err(DecodeErrorKind::NotEnoughBytes),
            Ok(b) => {
                let x = b[0];
                proof {
                    assert(b@[0] == rem0[0]);
                }
                if x == 1 {
                    proof {
                        assert(Self::spec_some() =~= rem0.take(1));
                        assert(rem0 =~= rem0.take(1) + rem0.skip(1));
                        assert(self.remaining() =~= rem0.skip(1));
                    }
                    Ok(true)
                } else if x == 0 {
                    proof {
                        assert(Self::spec_none() =~= rem0.take(1));
                        assert(rem0 =~= rem0.take(1) + rem0.skip(1));
                        assert(self.remaining() =~= rem0.skip(1));
                    }
                    Ok(false)
                } else {
                    self.pos = pos0;
                    proof {
                        assert(self.remaining() == rem0);
                        assert(Self::spec_some()[0] != rem0[0]);
                        assert(Self::spec_none()[0] != rem0[0]);
                        assert(!Self::spec_some().is_prefix_of(rem0));
                        assert(!Self::spec_none().is_prefix_of(rem0));
                    }
                    Err(DecodeErrorKind::Custom)
                }
            },
        }
    }

    fn decode_enum(&mut self, enum_name: &'static str) -> (r: Result<
        EnumIdentifier,
        Self::Error,
    >) {
        let ghost rem0 = self.remaining();
        proof {
            lemma_pow256_vals();
            assert forall|id: EnumIdentifier|
                Self::enum_ident_valid(id) ==> (#[trigger] Self::spec_enum_ident(id)).len()
                    == 4 by {
                match id {
                    EnumIdentifier::Index(i) => {
                        lemma_le_bytes_len(i as nat, 4);
                    },
                    EnumIdentifier::Name(_) => {
                    },
                }
            }
        }
        match self.get_le(4) {
            Ok(x) => {
                proof {
                    lemma_from_le_bound(rem0.take(4));
                    lemma_le_of_from_le(rem0.take(4));
                    assert(usize::MAX as nat >= 0xffffffff);
                }
                let id = EnumIdentifier::Index(x as usize);
                proof {
                    assert(Self::enum_ident_valid(id));
                    assert(Self::spec_enum_ident(id) =~= rem0.take(4));
                    assert(rem0 =~= rem0.take(4) + rem0.skip(4));
                    assert(self.remaining() =~= rem0.skip(4));
                }
                Ok(id)
            },
            Err(e) => Err(e),
        }
    }

    fn decode_tuple(&mut self) -> (r: Result<(), Self::Error>) {
        self.depth = Ghost(self.depth@ + 1);
        proof {
            assert(Self::spec_tuple_frame() =~= self.remaining().take(0));
            assert(Self::spec_tuple_frame() + self.remaining() =~= self.remaining());
        }
        Ok(())
    }

    fn decode_struct(&mut self) -> (r: Result<(), Self::Error>) {
        self.depth = Ghost(self.depth@ + 1);
        proof {
            assert(Self::spec_struct_frame() =~= self.remaining().take(0));
            assert(Self::spec_struct_frame() + self.remaining() =~= self.remaining());
        }
        Ok(())
    }

    fn decode_seq(&mut self) -> (r: Result<(), Self::Error>) {
        self.depth = Ghost(self.depth@ + 1);
        Ok(())
    }

    fn decode_seq_len(&mut self) -> (r: Result<usize, Self::Error>) {
        let ghost rem0 = self.remaining();
        proof {
            lemma_pow256_vals();
            assert forall|m: usize| (#[trigger] Self::spec_seq_frame(m)).len() == 4 by {
                lemma_le_bytes_len(m as nat, 4);
            }
        }
        match self.get_le(4) {
            Ok(x) => {
                proof {
                    lemma_from_le_bound(rem0.take(4));
                    lemma_le_of_from_le(rem0.take(4));
                    assert(usize::MAX as nat >= 0xffffffff);
                }
                let n = x as usize;
                proof {
                    assert(Self::spec_seq_frame(n) =~= rem0.take(4));
                    assert(rem0 =~= rem0.take(4) + rem0.skip(4));
                    assert(self.remaining() =~= rem0.skip(4));
                }
                Ok(n)
            },
            Err(e) => Err(e),
        }
    }
}

} // verus!

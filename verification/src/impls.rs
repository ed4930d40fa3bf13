//! Value-contract mappings for the primitive building blocks: fixed-width
//! numerics, booleans, text, optional values and sequences. These are the
//! hand-written counterparts of what a per-type code generator would emit.
//!
//! Each one refines the bare session-discipline contract of
//! [`Encode`] / [`Decode`] with the bytes actually moved: encoding appends
//! exactly the backend's wire image of the value, and decoding answers
//! exactly the value whose image the unread input begins with. That is
//! what makes the value-level round trip a consequence of the contracts
//! rather than of the bodies.

use vstd::prelude::*;

use crate::error::DecodeError;
use crate::error::DecodeErrorKind;
use crate::error::EncodeError;
use crate::error::EncodeErrorKind;
use crate::traits::Decode;
use crate::traits::Decoder;
use crate::traits::Encode;
use crate::traits::Encoder;
use crate::traits::decode_element;
use crate::traits::encode_element;
use crate::traits::lemma_prefix_append;
use crate::traits::lemma_prefix_trans;

verus! {

impl Encode for bool {
    fn encode<E: Encoder>(&self, encoder: &mut E) -> (r: Result<(), E::Error>)
        ensures
            r is Ok <==> E::spec_bool(*self).len() <= old(encoder).space(),
            r is Ok ==> final(encoder).written() == old(encoder).written() + E::spec_bool(*self)
                && final(encoder).space() == old(encoder).space() - E::spec_bool(*self).len(),
            r matches Err(e) ==> e.kind() == EncodeErrorKind::NotEnoughSpace
                && final(encoder).written() == old(encoder).written(),
    {
        let r = encoder.encode_bool(*self);
        proof {
            if r is Ok {
                lemma_prefix_append(old(encoder).written(), E::spec_bool(*self));
            }
        }
        r
    }
}

impl Decode for bool {
    fn decode<D: Decoder>(decoder: &mut D, place: &mut Option<Self>) -> (r: Result<
        (),
        D::Error,
    >)
        ensures
            r is Ok <==> exists|w: bool| (#[trigger] D::spec_bool(w)).is_prefix_of(
                old(decoder).remaining(),
            ),
            r is Ok ==> ((*final(place)) matches Some(w) && old(decoder).remaining() == D::spec_bool(
                w,
            ) + final(decoder).remaining()),
            r matches Err(e) ==> (old(decoder).remaining().len() == 0 ==> e.kind()
                == DecodeErrorKind::NotEnoughBytes),
    {
        match decoder.decode_bool() {
            Ok(v) => {
                *place = Some(v);
                Ok(())
            },
            Err(e) => Err(e),
        }
    }

    fn decode_placed<D: Decoder>(decoder: &mut D) -> (r: Result<Self, D::Error>)
        ensures
            r is Ok <==> exists|w: bool| (#[trigger] D::spec_bool(w)).is_prefix_of(
                old(decoder).remaining(),
            ),
            r matches Ok(w) ==> old(decoder).remaining() == D::spec_bool(w)
                + final(decoder).remaining(),
            r matches Err(e) ==> (old(decoder).remaining().len() == 0 ==> e.kind()
                == DecodeErrorKind::NotEnoughBytes),
    {
        let mut place: Option<bool> = None;
        match Self::decode(decoder, &mut place) {
            Ok(()) => match place {
                Some(v) => Ok(v),
                None => vstd::pervasive::unreached(),
            },
            Err(e) => Err(e),
        }
    }
}

impl Encode for u8 {
    fn encode<E: Encoder>(&self, encoder: &mut E) -> (r: Result<(), E::Error>)
        ensures
            r is Ok <==> E::spec_u8(*self).len() <= old(encoder).space(),
            r is Ok ==> final(encoder).written() == old(encoder).written() + E::spec_u8(*self)
                && final(encoder).space() == old(encoder).space() - E::spec_u8(*self).len(),
            r matches Err(e) ==> e.kind() == EncodeErrorKind::NotEnoughSpace
                && final(encoder).written() == old(encoder).written(),
    {
        let r = encoder.encode_u8(*self);
        proof {
            if r is Ok {
                lemma_prefix_append(old(encoder).written(), E::spec_u8(*self));
            }
        }
        r
    }
}

impl Decode for u8 {
    fn decode<D: Decoder>(decoder: &mut D, place: &mut Option<Self>) -> (r: Result<
        (),
        D::Error,
    >)
        ensures
            r is Ok <==> exists|w: u8| (#[trigger] D::spec_u8(w)).is_prefix_of(
                old(decoder).remaining(),
            ),
            r is Ok ==> ((*final(place)) matches Some(w) && old(decoder).remaining() == D::spec_u8(
                w,
            ) + final(decoder).remaining()),
            r matches Err(e) ==> e.kind() == DecodeErrorKind::NotEnoughBytes,
    {
        match decoder.decode_u8() {
            Ok(v) => {
                *place = Some(v);
                Ok(())
            },
            Err(e) => Err(e),
        }
    }

    fn decode_placed<D: Decoder>(decoder: &mut D) -> (r: Result<Self, D::Error>)
        ensures
            r is Ok <==> exists|w: u8| (#[trigger] D::spec_u8(w)).is_prefix_of(
                old(decoder).remaining(),
            ),
            r matches Ok(w) ==> old(decoder).remaining() == D::spec_u8(w)
                + final(decoder).remaining(),
            r matches Err(e) ==> e.kind() == DecodeErrorKind::NotEnoughBytes,
    {
        let mut place: Option<u8> = None;
        match Self::decode(decoder, &mut place) {
            Ok(()) => match place {
                Some(v) => Ok(v),
                None => vstd::pervasive::unreached(),
            },
            Err(e) => Err(e),
        }
    }
}

impl Encode for i8 {
    fn encode<E: Encoder>(&self, encoder: &mut E) -> (r: Result<(), E::Error>)
        ensures
            r is Ok <==> E::spec_i8(*self).len() <= old(encoder).space(),
            r is Ok ==> final(encoder).written() == old(encoder).written() + E::spec_i8(*self)
                && final(encoder).space() == old(encoder).space() - E::spec_i8(*self).len(),
            r matches Err(e) ==> e.kind() == EncodeErrorKind::NotEnoughSpace
                && final(encoder).written() == old(encoder).written(),
    {
        let r = encoder.encode_i8(*self);
        proof {
            if r is Ok {
                lemma_prefix_append(old(encoder).written(), E::spec_i8(*self));
            }
        }
        r
    }
}

impl Decode for i8 {
    fn decode<D: Decoder>(decoder: &mut D, place: &mut Option<Self>) -> (r: Result<
        (),
        D::Error,
    >)
        ensures
            r is Ok <==> exists|w: i8| (#[trigger] D::spec_i8(w)).is_prefix_of(
                old(decoder).remaining(),
            ),
            r is Ok ==> ((*final(place)) matches Some(w) && old(decoder).remaining() == D::spec_i8(
                w,
            ) + final(decoder).remaining()),
            r matches Err(e) ==> e.kind() == DecodeErrorKind::NotEnoughBytes,
    {
        match decoder.decode_i8() {
            Ok(v) => {
                *place = Some(v);
                Ok(())
            },
            Err(e) => Err(e),
        }
    }

    fn decode_placed<D: Decoder>(decoder: &mut D) -> (r: Result<Self, D::Error>)
        ensures
            r is Ok <==> exists|w: i8| (#[trigger] D::spec_i8(w)).is_prefix_of(
                old(decoder).remaining(),
            ),
            r matches Ok(w) ==> old(decoder).remaining() == D::spec_i8(w)
                + final(decoder).remaining(),
            r matches Err(e) ==> e.kind() == DecodeErrorKind::NotEnoughBytes,
    {
        let mut place: Option<i8> = None;
        match Self::decode(decoder, &mut place) {
            Ok(()) => match place {
                Some(v) => Ok(v),
                None => vstd::pervasive::unreached(),
            },
            Err(e) => Err(e),
        }
    }
}

impl Encode for u16 {
    fn encode<E: Encoder>(&self, encoder: &mut E) -> (r: Result<(), E::Error>)
        ensures
            r is Ok <==> E::spec_u16(*self).len() <= old(encoder).space(),
            r is Ok ==> final(encoder).written() == old(encoder).written() + E::spec_u16(*self)
                && final(encoder).space() == old(encoder).space() - E::spec_u16(*self).len(),
            r matches Err(e) ==> e.kind() == EncodeErrorKind::NotEnoughSpace
                && final(encoder).written() == old(encoder).written(),
    {
        let r = encoder.encode_u16(*self);
        proof {
            if r is Ok {
                lemma_prefix_append(old(encoder).written(), E::spec_u16(*self));
            }
        }
        r
    }
}

impl Decode for u16 {
    fn decode<D: Decoder>(decoder: &mut D, place: &mut Option<Self>) -> (r: Result<
        (),
        D::Error,
    >)
        ensures
            r is Ok <==> exists|w: u16| (#[trigger] D::spec_u16(w)).is_prefix_of(
                old(decoder).remaining(),
            ),
            r is Ok ==> ((*final(place)) matches Some(w) && old(decoder).remaining() == D::spec_u16(
                w,
            ) + final(decoder).remaining()),
            r matches Err(e) ==> e.kind() == DecodeErrorKind::NotEnoughBytes,
    {
        match decoder.decode_u16() {
            Ok(v) => {
                *place = Some(v);
                Ok(())
            },
            Err(e) => Err(e),
        }
    }

    fn decode_placed<D: Decoder>(decoder: &mut D) -> (r: Result<Self, D::Error>)
        ensures
            r is Ok <==> exists|w: u16| (#[trigger] D::spec_u16(w)).is_prefix_of(
                old(decoder).remaining(),
            ),
            r matches Ok(w) ==> old(decoder).remaining() == D::spec_u16(w)
                + final(decoder).remaining(),
            r matches Err(e) ==> e.kind() == DecodeErrorKind::NotEnoughBytes,
    {
        let mut place: Option<u16> = None;
        match Self::decode(decoder, &mut place) {
            Ok(()) => match place {
                Some(v) => Ok(v),
                None => vstd::pervasive::unreached(),
            },
            Err(e) => Err(e),
        }
    }
}

impl Encode for i16 {
    fn encode<E: Encoder>(&self, encoder: &mut E) -> (r: Result<(), E::Error>)
        ensures
            r is Ok <==> E::spec_i16(*self).len() <= old(encoder).space(),
            r is Ok ==> final(encoder).written() == old(encoder).written() + E::spec_i16(*self)
                && final(encoder).space() == old(encoder).space() - E::spec_i16(*self).len(),
            r matches Err(e) ==> e.kind() == EncodeErrorKind::NotEnoughSpace
                && final(encoder).written() == old(encoder).written(),
    {
        let r = encoder.encode_i16(*self);
        proof {
            if r is Ok {
                lemma_prefix_append(old(encoder).written(), E::spec_i16(*self));
            }
        }
        r
    }
}

impl Decode for i16 {
    fn decode<D: Decoder>(decoder: &mut D, place: &mut Option<Self>) -> (r: Result<
        (),
        D::Error,
    >)
        ensures
            r is Ok <==> exists|w: i16| (#[trigger] D::spec_i16(w)).is_prefix_of(
                old(decoder).remaining(),
            ),
            r is Ok ==> ((*final(place)) matches Some(w) && old(decoder).remaining() == D::spec_i16(
                w,
            ) + final(decoder).remaining()),
            r matches Err(e) ==> e.kind() == DecodeErrorKind::NotEnoughBytes,
    {
        match decoder.decode_i16() {
            Ok(v) => {
                *place = Some(v);
                Ok(())
            },
            Err(e) => Err(e),
        }
    }

    fn decode_placed<D: Decoder>(decoder: &mut D) -> (r: Result<Self, D::Error>)
        ensures
            r is Ok <==> exists|w: i16| (#[trigger] D::spec_i16(w)).is_prefix_of(
                old(decoder).remaining(),
            ),
            r matches Ok(w) ==> old(decoder).remaining() == D::spec_i16(w)
                + final(decoder).remaining(),
            r matches Err(e) ==> e.kind() == DecodeErrorKind::NotEnoughBytes,
    {
        let mut place: Option<i16> = None;
        match Self::decode(decoder, &mut place) {
            Ok(()) => match place {
                Some(v) => Ok(v),
                None => vstd::pervasive::unreached(),
            },
            Err(e) => Err(e),
        }
    }
}

impl Encode for u32 {
    fn encode<E: Encoder>(&self, encoder: &mut E) -> (r: Result<(), E::Error>)
        ensures
            r is Ok <==> E::spec_u32(*self).len() <= old(encoder).space(),
            r is Ok ==> final(encoder).written() == old(encoder).written() + E::spec_u32(*self)
                && final(encoder).space() == old(encoder).space() - E::spec_u32(*self).len(),
            r matches Err(e) ==> e.kind() == EncodeErrorKind::NotEnoughSpace
                && final(encoder).written() == old(encoder).written(),
    {
        let r = encoder.encode_u32(*self);
        proof {
            if r is Ok {
                lemma_prefix_append(old(encoder).written(), E::spec_u32(*self));
            }
        }
        r
    }
}

impl Decode for u32 {
    fn decode<D: Decoder>(decoder: &mut D, place: &mut Option<Self>) -> (r: Result<
        (),
        D::Error,
    >)
        ensures
            r is Ok <==> exists|w: u32| (#[trigger] D::spec_u32(w)).is_prefix_of(
                old(decoder).remaining(),
            ),
            r is Ok ==> ((*final(place)) matches Some(w) && old(decoder).remaining() == D::spec_u32(
                w,
            ) + final(decoder).remaining()),
            r matches Err(e) ==> e.kind() == DecodeErrorKind::NotEnoughBytes,
    {
        match decoder.decode_u32() {
            Ok(v) => {
                *place = Some(v);
                Ok(())
            },
            Err(e) => Err(e),
        }
    }

    fn decode_placed<D: Decoder>(decoder: &mut D) -> (r: Result<Self, D::Error>)
        ensures
            r is Ok <==> exists|w: u32| (#[trigger] D::spec_u32(w)).is_prefix_of(
                old(decoder).remaining(),
            ),
            r matches Ok(w) ==> old(decoder).remaining() == D::spec_u32(w)
                + final(decoder).remaining(),
            r matches Err(e) ==> e.kind() == DecodeErrorKind::NotEnoughBytes,
    {
        let mut place: Option<u32> = None;
        match Self::decode(decoder, &mut place) {
            Ok(()) => match place {
                Some(v) => Ok(v),
                None => vstd::pervasive::unreached(),
            },
            Err(e) => Err(e),
        }
    }
}

impl Encode for i32 {
    fn encode<E: Encoder>(&self, encoder: &mut E) -> (r: Result<(), E::Error>)
        ensures
            r is Ok <==> E::spec_i32(*self).len() <= old(encoder).space(),
            r is Ok ==> final(encoder).written() == old(encoder).written() + E::spec_i32(*self)
                && final(encoder).space() == old(encoder).space() - E::spec_i32(*self).len(),
            r matches Err(e) ==> e.kind() == EncodeErrorKind::NotEnoughSpace
                && final(encoder).written() == old(encoder).written(),
    {
        let r = encoder.encode_i32(*self);
        proof {
            if r is Ok {
                lemma_prefix_append(old(encoder).written(), E::spec_i32(*self));
            }
        }
        r
    }
}

impl Decode for i32 {
    fn decode<D: Decoder>(decoder: &mut D, place: &mut Option<Self>) -> (r: Result<
        (),
        D::Error,
    >)
        ensures
            r is Ok <==> exists|w: i32| (#[trigger] D::spec_i32(w)).is_prefix_of(
                old(decoder).remaining(),
            ),
            r is Ok ==> ((*final(place)) matches Some(w) && old(decoder).remaining() == D::spec_i32(
                w,
            ) + final(decoder).remaining()),
            r matches Err(e) ==> e.kind() == DecodeErrorKind::NotEnoughBytes,
    {
        match decoder.decode_i32() {
            Ok(v) => {
                *place = Some(v);
                Ok(())
            },
            Err(e) => Err(e),
        }
    }

    fn decode_placed<D: Decoder>(decoder: &mut D) -> (r: Result<Self, D::Error>)
        ensures
            r is Ok <==> exists|w: i32| (#[trigger] D::spec_i32(w)).is_prefix_of(
                old(decoder).remaining(),
            ),
            r matches Ok(w) ==> old(decoder).remaining() == D::spec_i32(w)
                + final(decoder).remaining(),
            r matches Err(e) ==> e.kind() == DecodeErrorKind::NotEnoughBytes,
    {
        let mut place: Option<i32> = None;
        match Self::decode(decoder, &mut place) {
            Ok(()) => match place {
                Some(v) => Ok(v),
                None => vstd::pervasive::unreached(),
            },
            Err(e) => Err(e),
        }
    }
}

impl Encode for u64 {
    fn encode<E: Encoder>(&self, encoder: &mut E) -> (r: Result<(), E::Error>)
        ensures
            r is Ok <==> E::spec_u64(*self).len() <= old(encoder).space(),
            r is Ok ==> final(encoder).written() == old(encoder).written() + E::spec_u64(*self)
                && final(encoder).space() == old(encoder).space() - E::spec_u64(*self).len(),
            r matches Err(e) ==> e.kind() == EncodeErrorKind::NotEnoughSpace
                && final(encoder).written() == old(encoder).written(),
    {
        let r = encoder.encode_u64(*self);
        proof {
            if r is Ok {
                lemma_prefix_append(old(encoder).written(), E::spec_u64(*self));
            }
        }
        r
    }
}

impl Decode for u64 {
    fn decode<D: Decoder>(decoder: &mut D, place: &mut Option<Self>) -> (r: Result<
        (),
        D::Error,
    >)
        ensures
            r is Ok <==> exists|w: u64| (#[trigger] D::spec_u64(w)).is_prefix_of(
                old(decoder).remaining(),
            ),
            r is Ok ==> ((*final(place)) matches Some(w) && old(decoder).remaining() == D::spec_u64(
                w,
            ) + final(decoder).remaining()),
            r matches Err(e) ==> e.kind() == DecodeErrorKind::NotEnoughBytes,
    {
        match decoder.decode_u64() {
            Ok(v) => {
                *place = Some(v);
                Ok(())
            },
            Err(e) => Err(e),
        }
    }

    fn decode_placed<D: Decoder>(decoder: &mut D) -> (r: Result<Self, D::Error>)
        ensures
            r is Ok <==> exists|w: u64| (#[trigger] D::spec_u64(w)).is_prefix_of(
                old(decoder).remaining(),
            ),
            r matches Ok(w) ==> old(decoder).remaining() == D::spec_u64(w)
                + final(decoder).remaining(),
            r matches Err(e) ==> e.kind() == DecodeErrorKind::NotEnoughBytes,
    {
        let mut place: Option<u64> = None;
        match Self::decode(decoder, &mut place) {
            Ok(()) => match place {
                Some(v) => Ok(v),
                None => vstd::pervasive::unreached(),
            },
            Err(e) => Err(e),
        }
    }
}

impl Encode for i64 {
    fn encode<E: Encoder>(&self, encoder: &mut E) -> (r: Result<(), E::Error>)
        ensures
            r is Ok <==> E::spec_i64(*self).len() <= old(encoder).space(),
            r is Ok ==> final(encoder).written() == old(encoder).written() + E::spec_i64(*self)
                && final(encoder).space() == old(encoder).space() - E::spec_i64(*self).len(),
            r matches Err(e) ==> e.kind() == EncodeErrorKind::NotEnoughSpace
                && final(encoder).written() == old(encoder).written(),
    {
        let r = encoder.encode_i64(*self);
        proof {
            if r is Ok {
                lemma_prefix_append(old(encoder).written(), E::spec_i64(*self));
            }
        }
        r
    }
}

impl Decode for i64 {
    fn decode<D: Decoder>(decoder: &mut D, place: &mut Option<Self>) -> (r: Result<
        (),
        D::Error,
    >)
        ensures
            r is Ok <==> exists|w: i64| (#[trigger] D::spec_i64(w)).is_prefix_of(
                old(decoder).remaining(),
            ),
            r is Ok ==> ((*final(place)) matches Some(w) && old(decoder).remaining() == D::spec_i64(
                w,
            ) + final(decoder).remaining()),
            r matches Err(e) ==> e.kind() == DecodeErrorKind::NotEnoughBytes,
    {
        match decoder.decode_i64() {
            Ok(v) => {
                *place = Some(v);
                Ok(())
            },
            Err(e) => Err(e),
        }
    }

    fn decode_placed<D: Decoder>(decoder: &mut D) -> (r: Result<Self, D::Error>)
        ensures
            r is Ok <==> exists|w: i64| (#[trigger] D::spec_i64(w)).is_prefix_of(
                old(decoder).remaining(),
            ),
            r matches Ok(w) ==> old(decoder).remaining() == D::spec_i64(w)
                + final(decoder).remaining(),
            r matches Err(e) ==> e.kind() == DecodeErrorKind::NotEnoughBytes,
    {
        let mut place: Option<i64> = None;
        match Self::decode(decoder, &mut place) {
            Ok(()) => match place {
                Some(v) => Ok(v),
                None => vstd::pervasive::unreached(),
            },
            Err(e) => Err(e),
        }
    }
}

impl Encode for u128 {
    fn encode<E: Encoder>(&self, encoder: &mut E) -> (r: Result<(), E::Error>)
        ensures
            r is Ok <==> E::spec_u128(*self).len() <= old(encoder).space(),
            r is Ok ==> final(encoder).written() == old(encoder).written() + E::spec_u128(*self)
                && final(encoder).space() == old(encoder).space() - E::spec_u128(*self).len(),
            r matches Err(e) ==> e.kind() == EncodeErrorKind::NotEnoughSpace
                && final(encoder).written() == old(encoder).written(),
    {
        let r = encoder.encode_u128(*self);
        proof {
            if r is Ok {
                lemma_prefix_append(old(encoder).written(), E::spec_u128(*self));
            }
        }
        r
    }
}

impl Decode for u128 {
    fn decode<D: Decoder>(decoder: &mut D, place: &mut Option<Self>) -> (r: Result<
        (),
        D::Error,
    >)
        ensures
            r is Ok <==> exists|w: u128| (#[trigger] D::spec_u128(w)).is_prefix_of(
                old(decoder).remaining(),
            ),
            r is Ok ==> ((*final(place)) matches Some(w) && old(decoder).remaining() == D::spec_u128(
                w,
            ) + final(decoder).remaining()),
            r matches Err(e) ==> e.kind() == DecodeErrorKind::NotEnoughBytes,
    {
        match decoder.decode_u128() {
            Ok(v) => {
                *place = Some(v);
                Ok(())
            },
            Err(e) => Err(e),
        }
    }

    fn decode_placed<D: Decoder>(decoder: &mut D) -> (r: Result<Self, D::Error>)
        ensures
            r is Ok <==> exists|w: u128| (#[trigger] D::spec_u128(w)).is_prefix_of(
                old(decoder).remaining(),
            ),
            r matches Ok(w) ==> old(decoder).remaining() == D::spec_u128(w)
                + final(decoder).remaining(),
            r matches Err(e) ==> e.kind() == DecodeErrorKind::NotEnoughBytes,
    {
        let mut place: Option<u128> = None;
        match Self::decode(decoder, &mut place) {
            Ok(()) => match place {
                Some(v) => Ok(v),
                None => vstd::pervasive::unreached(),
            },
            Err(e) => Err(e),
        }
    }
}

impl Encode for i128 {
    fn encode<E: Encoder>(&self, encoder: &mut E) -> (r: Result<(), E::Error>)
        ensures
            r is Ok <==> E::spec_i128(*self).len() <= old(encoder).space(),
            r is Ok ==> final(encoder).written() == old(encoder).written() + E::spec_i128(*self)
                && final(encoder).space() == old(encoder).space() - E::spec_i128(*self).len(),
            r matches Err(e) ==> e.kind() == EncodeErrorKind::NotEnoughSpace
                && final(encoder).written() == old(encoder).written(),
    {
        let r = encoder.encode_i128(*self);
        proof {
            if r is Ok {
                lemma_prefix_append(old(encoder).written(), E::spec_i128(*self));
            }
        }
        r
    }
}

impl Decode for i128 {
    fn decode<D: Decoder>(decoder: &mut D, place: &mut Option<Self>) -> (r: Result<
        (),
        D::Error,
    >)
        ensures
            r is Ok <==> exists|w: i128| (#[trigger] D::spec_i128(w)).is_prefix_of(
                old(decoder).remaining(),
            ),
            r is Ok ==> ((*final(place)) matches Some(w) && old(decoder).remaining() == D::spec_i128(
                w,
            ) + final(decoder).remaining()),
            r matches Err(e) ==> e.kind() == DecodeErrorKind::NotEnoughBytes,
    {
        match decoder.decode_i128() {
            Ok(v) => {
                *place = Some(v);
                Ok(())
            },
            Err(e) => Err(e),
        }
    }

    fn decode_placed<D: Decoder>(decoder: &mut D) -> (r: Result<Self, D::Error>)
        ensures
            r is Ok <==> exists|w: i128| (#[trigger] D::spec_i128(w)).is_prefix_of(
                old(decoder).remaining(),
            ),
            r matches Ok(w) ==> old(decoder).remaining() == D::spec_i128(w)
                + final(decoder).remaining(),
            r matches Err(e) ==> e.kind() == DecodeErrorKind::NotEnoughBytes,
    {
        let mut place: Option<i128> = None;
        match Self::decode(decoder, &mut place) {
            Ok(()) => match place {
                Some(v) => Ok(v),
                None => vstd::pervasive::unreached(),
            },
            Err(e) => Err(e),
        }
    }
}

impl Encode for usize {
    fn encode<E: Encoder>(&self, encoder: &mut E) -> (r: Result<(), E::Error>)
        ensures
            r is Ok <==> E::spec_usize(*self).len() <= old(encoder).space(),
            r is Ok ==> final(encoder).written() == old(encoder).written() + E::spec_usize(*self)
                && final(encoder).space() == old(encoder).space() - E::spec_usize(*self).len(),
            r matches Err(e) ==> e.kind() == EncodeErrorKind::NotEnoughSpace
                && final(encoder).written() == old(encoder).written(),
    {
        let r = encoder.encode_usize(*self);
        proof {
            if r is Ok {
                lemma_prefix_append(old(encoder).written(), E::spec_usize(*self));
            }
        }
        r
    }
}

impl Decode for usize {
    fn decode<D: Decoder>(decoder: &mut D, place: &mut Option<Self>) -> (r: Result<
        (),
        D::Error,
    >)
        ensures
            (exists|w: usize| (#[trigger] D::spec_usize(w)).is_prefix_of(
                old(decoder).remaining(),
            )) ==> r is Ok,
            r is Ok ==> ((*final(place)) matches Some(w) && old(decoder).remaining() == D::spec_usize(
                w,
            ) + final(decoder).remaining()),
            r matches Err(e) ==> e.kind() == DecodeErrorKind::NotEnoughBytes || e.kind()
                == DecodeErrorKind::TooLarge,
    {
        match decoder.decode_usize() {
            Ok(v) => {
                *place = Some(v);
                Ok(())
            },
            Err(e) => Err(e),
        }
    }

    fn decode_placed<D: Decoder>(decoder: &mut D) -> (r: Result<Self, D::Error>)
        ensures
            (exists|w: usize| (#[trigger] D::spec_usize(w)).is_prefix_of(
                old(decoder).remaining(),
            )) ==> r is Ok,
            r matches Ok(w) ==> old(decoder).remaining() == D::spec_usize(w)
                + final(decoder).remaining(),
            r matches Err(e) ==> e.kind() == DecodeErrorKind::NotEnoughBytes || e.kind()
                == DecodeErrorKind::TooLarge,
    {
        let mut place: Option<usize> = None;
        match Self::decode(decoder, &mut place) {
            Ok(()) => match place {
                Some(v) => Ok(v),
                None => vstd::pervasive::unreached(),
            },
            Err(e) => Err(e),
        }
    }
}

impl Encode for isize {
    fn encode<E: Encoder>(&self, encoder: &mut E) -> (r: Result<(), E::Error>)
        ensures
            r is Ok <==> E::spec_isize(*self).len() <= old(encoder).space(),
            r is Ok ==> final(encoder).written() == old(encoder).written() + E::spec_isize(*self)
                && final(encoder).space() == old(encoder).space() - E::spec_isize(*self).len(),
            r matches Err(e) ==> e.kind() == EncodeErrorKind::NotEnoughSpace
                && final(encoder).written() == old(encoder).written(),
    {
        let r = encoder.encode_isize(*self);
        proof {
            if r is Ok {
                lemma_prefix_append(old(encoder).written(), E::spec_isize(*self));
            }
        }
        r
    }
}

impl Decode for isize {
    fn decode<D: Decoder>(decoder: &mut D, place: &mut Option<Self>) -> (r: Result<
        (),
        D::Error,
    >)
        ensures
            (exists|w: isize| (#[trigger] D::spec_isize(w)).is_prefix_of(
                old(decoder).remaining(),
            )) ==> r is Ok,
            r is Ok ==> ((*final(place)) matches Some(w) && old(decoder).remaining() == D::spec_isize(
                w,
            ) + final(decoder).remaining()),
            r matches Err(e) ==> e.kind() == DecodeErrorKind::NotEnoughBytes || e.kind()
                == DecodeErrorKind::TooLarge,
    {
        match decoder.decode_isize() {
            Ok(v) => {
                *place = Some(v);
                Ok(())
            },
            Err(e) => Err(e),
        }
    }

    fn decode_placed<D: Decoder>(decoder: &mut D) -> (r: Result<Self, D::Error>)
        ensures
            (exists|w: isize| (#[trigger] D::spec_isize(w)).is_prefix_of(
                old(decoder).remaining(),
            )) ==> r is Ok,
            r matches Ok(w) ==> old(decoder).remaining() == D::spec_isize(w)
                + final(decoder).remaining(),
            r matches Err(e) ==> e.kind() == DecodeErrorKind::NotEnoughBytes || e.kind()
                == DecodeErrorKind::TooLarge,
    {
        let mut place: Option<isize> = None;
        match Self::decode(decoder, &mut place) {
            Ok(()) => match place {
                Some(v) => Ok(v),
                None => vstd::pervasive::unreached(),
            },
            Err(e) => Err(e),
        }
    }
}

impl Encode for String {
    fn encode<E: Encoder>(&self, encoder: &mut E) -> (r: Result<(), E::Error>)
        ensures
            r is Ok <==> E::str_ok(self@) && E::spec_str(self@).len() <= old(encoder).space(),
            r is Ok ==> final(encoder).written() == old(encoder).written() + E::spec_str(self@)
                && final(encoder).space() == old(encoder).space() - E::spec_str(self@).len(),
            r matches Err(e) ==> (e.kind() == EncodeErrorKind::NotEnoughSpace || e.kind()
                == EncodeErrorKind::TooLarge) && final(encoder).written() == old(
                encoder,
            ).written(),
    {
        let r = encoder.encode_str(self.as_str());
        proof {
            if r is Ok {
                lemma_prefix_append(old(encoder).written(), E::spec_str(self@));
            }
        }
        r
    }
}

impl Decode for String {
    fn decode<D: Decoder>(decoder: &mut D, place: &mut Option<Self>) -> (r: Result<
        (),
        D::Error,
    >)
        ensures
            r is Ok <==> exists|s: Seq<char>| D::str_ok(s) && (#[trigger] D::spec_str(
                s,
            )).is_prefix_of(old(decoder).remaining()),
            r is Ok ==> ((*final(place)) matches Some(w) && old(decoder).remaining() == D::spec_str(
                w@,
            ) + final(decoder).remaining()),
            r matches Err(e) ==> (old(decoder).remaining().len() == 0 ==> e.kind()
                == DecodeErrorKind::NotEnoughBytes),
    {
        match decoder.decode_str() {
            Ok(v) => {
                *place = Some(v);
                Ok(())
            },
            Err(e) => Err(e),
        }
    }

    fn decode_placed<D: Decoder>(decoder: &mut D) -> (r: Result<Self, D::Error>)
        ensures
            r is Ok <==> exists|s: Seq<char>| D::str_ok(s) && (#[trigger] D::spec_str(
                s,
            )).is_prefix_of(old(decoder).remaining()),
            r matches Ok(w) ==> old(decoder).remaining() == D::spec_str(w@)
                + final(decoder).remaining(),
            r matches Err(e) ==> (old(decoder).remaining().len() == 0 ==> e.kind()
                == DecodeErrorKind::NotEnoughBytes),
    {
        let mut place: Option<String> = None;
        match Self::decode(decoder, &mut place) {
            Ok(()) => match place {
                Some(v) => Ok(v),
                None => vstd::pervasive::unreached(),
            },
            Err(e) => Err(e),
        }
    }
}

/// An optional value is a presence flag followed, when present, by the
/// payload.
impl<T: Encode> Encode for Option<T> {
    fn encode<E: Encoder>(&self, encoder: &mut E) -> (r: Result<(), E::Error>)
        ensures
            (*self) is None ==> (r is Ok <==> E::spec_none().len() <= old(encoder).space()),
            r is Ok && (*self) is None ==> final(encoder).written() == old(encoder).written()
                + E::spec_none(),
            r is Ok && (*self) is Some ==> (old(encoder).written() + E::spec_some()).is_prefix_of(
                final(encoder).written(),
            ),
    {
        match self {
            None => {
                let r = encoder.encode_none();
                proof {
                    if r is Ok {
                        lemma_prefix_append(old(encoder).written(), E::spec_none());
                    }
                }
                r
            },
            Some(x) => {
                match encoder.encode_some() {
                    Err(e) => Err(e),
                    Ok(()) => {
                        let ghost w1 = encoder.written();
                        let r = x.encode(encoder);
                        proof {
                            if r is Ok {
                                lemma_prefix_append(old(encoder).written(), E::spec_some());
                                lemma_prefix_trans(
                                    old(encoder).written(),
                                    w1,
                                    encoder.written(),
                                );
                            }
                        }
                        r
                    },
                }
            },
        }
    }
}

impl<T: Decode> Decode for Option<T> {
    fn decode<D: Decoder>(decoder: &mut D, place: &mut Option<Self>) -> (r: Result<
        (),
        D::Error,
    >)
        ensures
            r is Ok ==> ((*final(place)) matches Some(w) && match w {
                None => old(decoder).remaining() == D::spec_none() + final(decoder).remaining(),
                Some(_) => D::spec_some().is_prefix_of(old(decoder).remaining()),
            }),
            D::spec_none().is_prefix_of(old(decoder).remaining()) && !D::spec_some().is_prefix_of(
                old(decoder).remaining(),
            ) ==> (r is Ok && *final(place) == Some(None::<T>)),
            r is Ok && D::spec_some().is_prefix_of(old(decoder).remaining())
                && !D::spec_none().is_prefix_of(old(decoder).remaining())
                ==> ((*final(place)) matches Some(w) && w is Some),
    {
        let ghost rem0 = decoder.remaining();
        match decoder.decode_is_some() {
            Err(e) => Err(e),
            Ok(false) => {
                *place = Some(None);
                Ok(())
            },
            Ok(true) => {
                proof {
                    lemma_prefix_append(D::spec_some(), decoder.remaining());
                }
                let mut inner: Option<T> = None;
                match T::decode(decoder, &mut inner) {
                    Err(e) => Err(e),
                    Ok(()) => match inner {
                        Some(v) => {
                            *place = Some(Some(v));
                            Ok(())
                        },
                        None => vstd::pervasive::unreached(),
                    },
                }
            },
        }
    }

    fn decode_placed<D: Decoder>(decoder: &mut D) -> (r: Result<Self, D::Error>)
        ensures
            r matches Ok(w) ==> match w {
                None => old(decoder).remaining() == D::spec_none() + final(decoder).remaining(),
                Some(_) => D::spec_some().is_prefix_of(old(decoder).remaining()),
            },
            D::spec_none().is_prefix_of(old(decoder).remaining()) && !D::spec_some().is_prefix_of(
                old(decoder).remaining(),
            ) ==> (r matches Ok(w) && w is None),
    {
        let mut place: Option<Option<T>> = None;
        match Self::decode(decoder, &mut place) {
            Ok(()) => match place {
                Some(v) => Ok(v),
                None => vstd::pervasive::unreached(),
            },
            Err(e) => Err(e),
        }
    }
}

/// A sequence is a length-bearing sequence session holding one element
/// per entry, in order.
impl<T: Encode> Encode for Vec<T> {
    fn encode<E: Encoder>(&self, encoder: &mut E) -> (r: Result<(), E::Error>)
        ensures
            r is Ok ==> E::seq_len_ok(self@.len() as usize) && (old(encoder).written()
                + E::spec_seq_frame(self@.len() as usize)).is_prefix_of(final(encoder).written()),
    {
        let n = self.len();
        proof {
            assert(self@.len() as usize == n);
        }
        match encoder.encode_seq(n) {
            Err(e) => {
                return Err(e);
            },
            Ok(()) => {},
        }
        proof {
            lemma_prefix_append(old(encoder).written(), E::spec_seq_frame(n));
        }
        let mut i: usize = 0;
        while i < n
            invariant
                i <= n,
                n == self@.len(),
                E::seq_len_ok(n),
                encoder.sessions() == old(encoder).sessions() + 1,
                (old(encoder).written() + E::spec_seq_frame(n)).is_prefix_of(encoder.written()),
            decreases n - i,
        {
            let ghost wi = encoder.written();
            match encode_element(encoder, &self[i]) {
                Err(e) => {
                    return Err(e);
                },
                Ok(()) => {},
            }
            proof {
                lemma_prefix_trans(
                    old(encoder).written() + E::spec_seq_frame(n),
                    wi,
                    encoder.written(),
                );
            }
            i = i + 1;
        }
        let ghost wl = encoder.written();
        match encoder.end() {
            Err(e) => Err(e),
            Ok(()) => {
                proof {
                    lemma_prefix_trans(
                        old(encoder).written() + E::spec_seq_frame(n),
                        wl,
                        encoder.written(),
                    );
                    lemma_prefix_trans(
                        old(encoder).written(),
                        old(encoder).written() + E::spec_seq_frame(n),
                        encoder.written(),
                    );
                    lemma_prefix_append(old(encoder).written(), E::spec_seq_frame(n));
                }
                Ok(())
            },
        }
    }
}

impl<T: Decode> Decode for Vec<T> {
    fn decode<D: Decoder>(decoder: &mut D, place: &mut Option<Self>) -> (r: Result<
        (),
        D::Error,
    >)
        ensures
            r is Ok ==> ((*final(place)) matches Some(v) && D::spec_seq_frame(
                v@.len() as usize,
            ).is_prefix_of(old(decoder).remaining())),
    {
        let ghost rem0 = decoder.remaining();
        match decoder.decode_seq() {
            Err(e) => {
                return Err(e);
            },
            Ok(()) => {},
        }
        let n = match decoder.decode_seq_len() {
            Err(e) => {
                return Err(e);
            },
            Ok(n) => n,
        };
        proof {
            lemma_prefix_append(D::spec_seq_frame(n), decoder.remaining());
        }
        let mut out: Vec<T> = Vec::new();
        let mut i: usize = 0;
        while i < n
            invariant
                i <= n,
                out@.len() == i,
                decoder.sessions() == old(decoder).sessions() + 1,
                *place == *old(place),
                D::spec_seq_frame(n).is_prefix_of(old(decoder).remaining()),
            decreases n - i,
        {
            let mut slot: Option<T> = None;
            match decode_element(decoder, &mut slot) {
                Err(e) => {
                    return Err(e);
                },
                Ok(()) => {},
            }
            match slot {
                Some(v) => out.push(v),
                None => {
                    return vstd::pervasive::unreached();
                },
            }
            i = i + 1;
        }
        match decoder.end() {
            Err(e) => Err(e),
            Ok(()) => {
                proof {
                    assert(out@.len() as usize == n);
                }
                *place = Some(out);
                Ok(())
            },
        }
    }

    fn decode_placed<D: Decoder>(decoder: &mut D) -> (r: Result<Self, D::Error>)
        ensures
            r matches Ok(v) ==> D::spec_seq_frame(v@.len() as usize).is_prefix_of(
                old(decoder).remaining(),
            ),
    {
        let mut place: Option<Vec<T>> = None;
        match Self::decode(decoder, &mut place) {
            Ok(()) => match place {
                Some(v) => Ok(v),
                None => vstd::pervasive::unreached(),
            },
            Err(e) => Err(e),
        }
    }
}

} // verus!


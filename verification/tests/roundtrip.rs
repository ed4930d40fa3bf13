use serialization::codec::VecDecoder;
use serialization::codec::VecEncoder;
use serialization::enumid::resolve_variant;
use serialization::error::DecodeError;
use serialization::error::DecodeErrorKind;
use serialization::error::EncodeError;
use serialization::error::EncodeErrorKind;
use serialization::traits::BinaryDecoder;
use serialization::traits::BinaryEncoder;
use serialization::traits::CheckPrimitiveTypeSize;
use serialization::traits::CompositeDecoder;
use serialization::traits::CompositeEncoder;
use serialization::traits::Decode;
use serialization::traits::Decoder;
use serialization::traits::Encode;
use serialization::traits::Encoder;
use serialization::traits::EnumIdentifier;
use serialization::traits::PrimitiveKind;

fn decoder_for(enc: VecEncoder) -> VecDecoder {
    VecDecoder::new(enc.into_bytes())
}

#[test]
fn round_trip_unsigned_fixed() {
    let mut enc = VecEncoder::new(1024);
    enc.encode_u8(0xab).unwrap();
    enc.encode_u16(0x1234).unwrap();
    enc.encode_u32(0xdeadbeef).unwrap();
    enc.encode_u64(0x0123456789abcdef).unwrap();
    enc.encode_u128(0x0102030405060708090a0b0c0d0e0f10).unwrap();
    let mut dec = decoder_for(enc);
    assert_eq!(dec.decode_u8().unwrap(), 0xab);
    assert_eq!(dec.decode_u16().unwrap(), 0x1234);
    assert_eq!(dec.decode_u32().unwrap(), 0xdeadbeef);
    assert_eq!(dec.decode_u64().unwrap(), 0x0123456789abcdef);
    assert_eq!(dec.decode_u128().unwrap(), 0x0102030405060708090a0b0c0d0e0f10);
}

#[test]
fn round_trip_signed_fixed() {
    let mut enc = VecEncoder::new(1024);
    enc.encode_i8(-7).unwrap();
    enc.encode_i16(-12345).unwrap();
    enc.encode_i32(i32::MIN).unwrap();
    enc.encode_i64(-1).unwrap();
    enc.encode_i128(i128::MIN).unwrap();
    enc.encode_isize(-42).unwrap();
    enc.encode_usize(98765).unwrap();
    let mut dec = decoder_for(enc);
    assert_eq!(dec.decode_i8().unwrap(), -7);
    assert_eq!(dec.decode_i16().unwrap(), -12345);
    assert_eq!(dec.decode_i32().unwrap(), i32::MIN);
    assert_eq!(dec.decode_i64().unwrap(), -1);
    assert_eq!(dec.decode_i128().unwrap(), i128::MIN);
    assert_eq!(dec.decode_isize().unwrap(), -42);
    assert_eq!(dec.decode_usize().unwrap(), 98765);
}

#[test]
fn round_trip_bool() {
    let mut enc = VecEncoder::new(16);
    enc.encode_bool(true).unwrap();
    enc.encode_bool(false).unwrap();
    let mut dec = decoder_for(enc);
    assert_eq!(dec.decode_bool().unwrap(), true);
    assert_eq!(dec.decode_bool().unwrap(), false);
}

#[test]
fn u16_wire_is_little_endian() {
    let mut enc = VecEncoder::new(16);
    enc.encode_u16(0x1234).unwrap();
    assert_eq!(enc.into_bytes(), vec![0x34, 0x12]);
}

#[test]
fn round_trip_str() {
    let mut enc = VecEncoder::new(1024);
    enc.encode_str("hello, wire").unwrap();
    enc.encode_str("").unwrap();
    enc.encode_str("snowman \u{2603}").unwrap();
    let mut dec = decoder_for(enc);
    assert_eq!(dec.decode_str().unwrap(), "hello, wire");
    assert_eq!(dec.decode_str().unwrap(), "");
    assert_eq!(dec.decode_str().unwrap(), "snowman \u{2603}");
}

#[test]
fn str_wire_has_length_frame() {
    let mut enc = VecEncoder::new(64);
    enc.encode_str("ABCD").unwrap();
    assert_eq!(enc.into_bytes(), vec![4, 0, 0, 0, b'A', b'B', b'C', b'D']);
}

#[test]
fn round_trip_bytes() {
    let mut enc = VecEncoder::new(1024);
    enc.encode_bytes(&[9, 8, 7]).unwrap();
    enc.encode_bytes(&[]).unwrap();
    let mut dec = decoder_for(enc);
    assert_eq!(dec.decode_bytes().unwrap(), vec![9, 8, 7]);
    assert_eq!(dec.decode_bytes().unwrap(), Vec::<u8>::new());
}

#[test]
fn round_trip_var_i32() {
    let cases = [0, 1, -1, 63, 64, -64, -65, 300, -300, i32::MAX, i32::MIN];
    let mut enc = VecEncoder::new(1024);
    for v in cases {
        enc.encode_var_i32(v).unwrap();
    }
    let mut dec = decoder_for(enc);
    for v in cases {
        assert_eq!(dec.decode_var_i32().unwrap(), v);
    }
}

#[test]
fn var_i32_is_compact_for_small_values() {
    let mut enc = VecEncoder::new(64);
    enc.encode_var_i32(1).unwrap();
    assert_eq!(enc.into_bytes(), vec![2]);
    let mut enc2 = VecEncoder::new(64);
    enc2.encode_var_i32(-1).unwrap();
    assert_eq!(enc2.into_bytes(), vec![1]);
}

#[test]
fn var_i32_rejects_non_canonical_padding() {
    let mut dec = VecDecoder::new(vec![0x80, 0x00]);
    assert!(dec.decode_var_i32().is_err());
}

#[test]
fn sequence_length_zero_one_many() {
    for n in [0usize, 1, 17] {
        let mut enc = VecEncoder::new(4096);
        enc.encode_seq(n).unwrap();
        for i in 0..n {
            enc.encode_u32(i as u32).unwrap();
        }
        enc.end().unwrap();
        let mut dec = decoder_for(enc);
        dec.decode_seq().unwrap();
        assert_eq!(dec.decode_seq_len().unwrap(), n);
        for i in 0..n {
            assert_eq!(dec.decode_u32().unwrap(), i as u32);
        }
        dec.end().unwrap();
    }
}

#[test]
fn vec_value_contract_round_trip() {
    let v: Vec<u32> = vec![5, 10, 4000000000];
    let mut enc = VecEncoder::new(4096);
    v.encode(&mut enc).unwrap();
    let mut dec = decoder_for(enc);
    let back = <Vec<u32> as Decode>::decode_placed(&mut dec).unwrap();
    assert_eq!(back, v);
}

#[test]
fn option_absent_then_present() {
    let absent: Option<u16> = None;
    let present: Option<u16> = Some(0x7f0f);
    let mut enc = VecEncoder::new(64);
    absent.encode(&mut enc).unwrap();
    present.encode(&mut enc).unwrap();
    let mut dec = decoder_for(enc);
    assert_eq!(<Option<u16> as Decode>::decode_placed(&mut dec).unwrap(), None);
    assert_eq!(<Option<u16> as Decode>::decode_placed(&mut dec).unwrap(), Some(0x7f0f));
}

#[test]
fn option_presence_query() {
    let mut enc = VecEncoder::new(64);
    enc.encode_none().unwrap();
    enc.encode_some().unwrap();
    enc.encode_u8(99).unwrap();
    let mut dec = decoder_for(enc);
    assert_eq!(dec.decode_is_some().unwrap(), false);
    assert_eq!(dec.decode_is_some().unwrap(), true);
    assert_eq!(dec.decode_u8().unwrap(), 99);
}

#[test]
fn string_value_contract_round_trip() {
    let s = String::from("framed text");
    let mut enc = VecEncoder::new(256);
    s.encode(&mut enc).unwrap();
    let mut dec = decoder_for(enc);
    assert_eq!(<String as Decode>::decode_placed(&mut dec).unwrap(), s);
}

#[test]
fn enum_round_trip_index_three_of_five() {
    let names = vec!["north", "south", "east", "west", "center"];
    let mut enc = VecEncoder::new(64);
    enc.encode_enum_variant_key("direction", "west", 3).unwrap();
    let mut dec = decoder_for(enc);
    let id = dec.decode_enum("direction").unwrap();
    match id {
        EnumIdentifier::Index(i) => assert_eq!(i, 3),
        EnumIdentifier::Name(_) => panic!("this backend persists indices"),
    }
    assert_eq!(resolve_variant(&names, &id).unwrap(), 3);
}

#[test]
fn enum_out_of_range_index_is_rejected() {
    let names = vec!["north", "south", "east", "west", "center"];
    let id = EnumIdentifier::Index(9);
    assert_eq!(
        resolve_variant(&names, &id).unwrap_err(),
        DecodeErrorKind::InvalidEnumVariantIndex
    );
}

#[test]
fn enum_name_resolution() {
    let names = vec!["north", "south", "east", "west", "center"];
    assert_eq!(resolve_variant(&names, &EnumIdentifier::Name("east")).unwrap(), 2);
    assert_eq!(
        resolve_variant(&names, &EnumIdentifier::Name("nowhere")).unwrap_err(),
        DecodeErrorKind::InvalidEnumVariantName
    );
}

#[test]
fn buffer_exhaustion_not_enough_bytes() {
    let mut dec = VecDecoder::new(vec![1, 2]);
    assert_eq!(dec.decode_u32().unwrap_err(), DecodeErrorKind::NotEnoughBytes);
    let mut place: Option<u32> = None;
    assert!(u32::decode(&mut dec, &mut place).is_err());
    assert!(place.is_none());
    assert_eq!(dec.decode_u16().unwrap(), 0x0201);
}

#[test]
fn raw_read_bytes_exhaustion() {
    let mut dec = VecDecoder::new(vec![1, 2, 3]);
    assert!(dec.read_bytes(4).is_err());
    assert_eq!(dec.read_bytes(3).unwrap(), vec![1, 2, 3]);
}

#[test]
fn encoder_out_of_space() {
    let mut enc = VecEncoder::new(2);
    assert_eq!(enc.encode_u32(1).unwrap_err(), EncodeErrorKind::NotEnoughSpace);
    assert_eq!(enc.encode_u16(0x0102).unwrap(), ());
    assert_eq!(enc.encode_u8(3).unwrap_err(), EncodeErrorKind::NotEnoughSpace);
    assert_eq!(enc.into_bytes(), vec![2, 1]);
}

#[test]
fn encoder_too_large_values() {
    let mut enc = VecEncoder::new(64);
    if usize::BITS > 32 {
        let over = u32::MAX as usize + 1;
        assert_eq!(enc.encode_seq(over).unwrap_err(), EncodeErrorKind::TooLarge);
        assert_eq!(
            enc.encode_enum_variant_key("e", "v", over).unwrap_err(),
            EncodeErrorKind::TooLarge
        );
    }
}

#[test]
fn decode_bool_rejects_other_bytes() {
    let mut dec = VecDecoder::new(vec![7]);
    assert_eq!(dec.decode_bool().unwrap_err(), DecodeErrorKind::Custom);
    assert_eq!(dec.decode_u8().unwrap(), 7);
}

#[test]
fn skip_bytes_both_sides() {
    let mut enc = VecEncoder::new(8);
    enc.encode_u8(1).unwrap();
    enc.skip_bytes(2);
    enc.encode_u8(4).unwrap();
    let bytes = enc.into_bytes();
    assert_eq!(bytes.len(), 4);
    let mut dec = VecDecoder::new(bytes);
    assert_eq!(dec.decode_u8().unwrap(), 1);
    dec.skip_bytes(2);
    assert_eq!(dec.decode_u8().unwrap(), 4);
}

#[test]
fn write_bytes_respects_capacity() {
    let mut enc = VecEncoder::new(3);
    assert!(enc.write_bytes(&[1, 2, 3, 4]).is_err());
    assert!(enc.write_bytes(&[1, 2, 3]).is_ok());
    assert_eq!(enc.into_bytes(), vec![1, 2, 3]);
}

#[test]
fn composite_sessions_nest() {
    let mut enc = VecEncoder::new(256);
    enc.encode_struct().unwrap();
    enc.encode_u8(5).unwrap();
    enc.encode_tuple().unwrap();
    enc.encode_u8(6).unwrap();
    enc.end().unwrap();
    enc.end().unwrap();
    let mut dec = decoder_for(enc);
    dec.decode_struct().unwrap();
    assert_eq!(dec.decode_u8().unwrap(), 5);
    dec.decode_tuple().unwrap();
    assert_eq!(dec.decode_u8().unwrap(), 6);
    dec.end().unwrap();
    dec.end().unwrap();
}

#[test]
fn platform_width_declared_not_sized() {
    assert!(!VecEncoder::is_sized(PrimitiveKind::Usize));
    assert!(!VecDecoder::is_sized(PrimitiveKind::Isize));
    assert!(VecEncoder::is_sized(PrimitiveKind::U32));
    assert!(VecEncoder::byte_order_agrees());
}

#[test]
fn var_i32_too_large_is_rejected() {
    // five continuation-heavy groups carry more than four bytes' worth
    let mut dec = VecDecoder::new(vec![0xff, 0xff, 0xff, 0xff, 0x7f]);
    assert_eq!(dec.decode_var_i32().unwrap_err(), DecodeErrorKind::TooLarge);
    // the widest folded value still round-trips
    let mut dec2 = VecDecoder::new(vec![0xff, 0xff, 0xff, 0xff, 0x0f]);
    assert_eq!(dec2.decode_var_i32().unwrap(), i32::MIN);
}

#[test]
fn error_constructors_report_their_kinds() {
    assert_eq!(
        <EncodeErrorKind as EncodeError>::not_enough_bytes_in_the_buffer(),
        EncodeErrorKind::NotEnoughSpace
    );
    assert_eq!(<EncodeErrorKind as EncodeError>::too_large(), EncodeErrorKind::TooLarge);
    assert_eq!(<EncodeErrorKind as EncodeError>::custom(), EncodeErrorKind::Custom);
    assert_eq!(
        <DecodeErrorKind as DecodeError>::not_enough_bytes_in_the_buffer(),
        DecodeErrorKind::NotEnoughBytes
    );
    assert_eq!(<DecodeErrorKind as DecodeError>::too_large(), DecodeErrorKind::TooLarge);
    assert_eq!(
        <DecodeErrorKind as DecodeError>::invalid_enum_variant_name(),
        DecodeErrorKind::InvalidEnumVariantName
    );
    assert_eq!(
        <DecodeErrorKind as DecodeError>::invalid_enum_variant_index(),
        DecodeErrorKind::InvalidEnumVariantIndex
    );
    assert_eq!(<DecodeErrorKind as DecodeError>::custom(), DecodeErrorKind::Custom);
}

#[test]
fn nested_optional_sequence_round_trip() {
    let v: Vec<Option<u16>> = vec![Some(1), None, Some(65535)];
    let mut enc = VecEncoder::new(1024);
    v.encode(&mut enc).unwrap();
    let mut dec = decoder_for(enc);
    assert_eq!(<Vec<Option<u16>> as Decode>::decode_placed(&mut dec).unwrap(), v);
}

#[test]
fn decode_placed_primitives() {
    let mut enc = VecEncoder::new(64);
    enc.encode_u32(0xfeedface).unwrap();
    enc.encode_i16(-2).unwrap();
    enc.encode_bool(true).unwrap();
    let mut dec = decoder_for(enc);
    assert_eq!(u32::decode_placed(&mut dec).unwrap(), 0xfeedface);
    assert_eq!(i16::decode_placed(&mut dec).unwrap(), -2);
    assert_eq!(bool::decode_placed(&mut dec).unwrap(), true);
    assert_eq!(
        u32::decode_placed(&mut dec).unwrap_err(),
        DecodeErrorKind::NotEnoughBytes
    );
}

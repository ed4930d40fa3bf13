use serialization::codec::VecDecoder;
use serialization::codec::VecEncoder;
use serialization::descriptor::FieldKind;
use serialization::descriptor::FieldSpec;
use serialization::descriptor::TypeDescriptor;
use serialization::descriptor::eligible_run_len;
use serialization::error::DecodeErrorKind;
use serialization::fastpath::decode_run_fast;
use serialization::fastpath::decode_run_fieldwise;
use serialization::traits::Decoder;
use serialization::traits::Encoder;
use serialization::traits::PrimitiveKind;

fn three_primitive_fields() -> TypeDescriptor {
    let specs = vec![
        FieldSpec { name: "a", kind: FieldKind::Primitive(PrimitiveKind::U8), size: 1 },
        FieldSpec { name: "b", kind: FieldKind::Primitive(PrimitiveKind::U16), size: 2 },
        FieldSpec { name: "c", kind: FieldKind::Primitive(PrimitiveKind::U32), size: 4 },
    ];
    TypeDescriptor::build::<VecDecoder>(&specs).unwrap()
}

#[test]
fn descriptor_layout_is_packed() {
    let desc = three_primitive_fields();
    assert_eq!(desc.field_count(), 3);
    assert_eq!(desc.byte_size(), 7);
    assert_eq!(desc.field_at(0).offset, 0);
    assert_eq!(desc.field_at(1).offset, 1);
    assert_eq!(desc.field_at(2).offset, 3);
    assert!(desc.field_at(0).eligible);
    assert!(desc.field_at(1).eligible);
    assert!(desc.field_at(2).eligible);
    assert_eq!(desc.field_at(0).name, "a");
}

#[test]
fn ineligible_kinds_break_runs() {
    let specs = vec![
        FieldSpec { name: "a", kind: FieldKind::Primitive(PrimitiveKind::U16), size: 2 },
        FieldSpec { name: "t", kind: FieldKind::Text, size: 24 },
        FieldSpec { name: "b", kind: FieldKind::Primitive(PrimitiveKind::U8), size: 1 },
        FieldSpec { name: "n", kind: FieldKind::Optional, size: 2 },
        FieldSpec { name: "u", kind: FieldKind::Primitive(PrimitiveKind::Usize), size: 8 },
    ];
    let desc = TypeDescriptor::build::<VecDecoder>(&specs).unwrap();
    assert_eq!(eligible_run_len(&desc, 0), 1);
    assert_eq!(eligible_run_len(&desc, 1), 0);
    assert_eq!(eligible_run_len(&desc, 2), 1);
    assert_eq!(eligible_run_len(&desc, 3), 0);
    // a platform-width integer is declared not wire-sized by this backend
    assert_eq!(eligible_run_len(&desc, 4), 0);
}

#[test]
fn fast_path_equivalent_to_fieldwise() {
    let desc = three_primitive_fields();
    let wire = {
        let mut enc = VecEncoder::new(64);
        enc.encode_u8(0x11).unwrap();
        enc.encode_u16(0x2233).unwrap();
        enc.encode_u32(0x44556677).unwrap();
        enc.into_bytes()
    };

    let mut fast_dest = vec![0u8; 7];
    let mut d1 = VecDecoder::new(wire.clone());
    assert_eq!(decode_run_fast(&mut d1, &desc, 0, &mut fast_dest).unwrap(), 3);

    let mut slow_dest = vec![0u8; 7];
    let mut d2 = VecDecoder::new(wire);
    assert_eq!(decode_run_fieldwise(&mut d2, &desc, 0, &mut slow_dest).unwrap(), 3);

    assert_eq!(fast_dest, slow_dest);
    assert_eq!(fast_dest, vec![0x11, 0x33, 0x22, 0x77, 0x66, 0x55, 0x44]);
}

#[test]
fn fast_path_exhaustion_leaves_destination_untouched() {
    let desc = three_primitive_fields();
    let mut dest = vec![0xaa; 7];
    let mut dec = VecDecoder::new(vec![1, 2, 3]);
    assert_eq!(
        decode_run_fast(&mut dec, &desc, 0, &mut dest).unwrap_err(),
        DecodeErrorKind::NotEnoughBytes
    );
    assert_eq!(dest, vec![0xaa; 7]);
    assert_eq!(dec.decode_u8().unwrap(), 1);
}

#[test]
fn four_byte_fields_then_text_scenario() {
    // an aggregate of four single-byte fields followed by length-framed text
    let specs = vec![
        FieldSpec { name: "f0", kind: FieldKind::Primitive(PrimitiveKind::U8), size: 1 },
        FieldSpec { name: "f1", kind: FieldKind::Primitive(PrimitiveKind::U8), size: 1 },
        FieldSpec { name: "f2", kind: FieldKind::Primitive(PrimitiveKind::U8), size: 1 },
        FieldSpec { name: "f3", kind: FieldKind::Primitive(PrimitiveKind::U8), size: 1 },
    ];
    let desc = TypeDescriptor::build::<VecDecoder>(&specs).unwrap();

    let wire = {
        let mut enc = VecEncoder::new(64);
        enc.encode_u8(11).unwrap();
        enc.encode_u8(22).unwrap();
        enc.encode_u8(33).unwrap();
        enc.encode_u8(44).unwrap();
        enc.encode_str("ABCD").unwrap();
        enc.into_bytes()
    };

    // once through the bulk run
    let mut dest = vec![0u8; 4];
    let mut dec = VecDecoder::new(wire.clone());
    assert_eq!(decode_run_fast(&mut dec, &desc, 0, &mut dest).unwrap(), 4);
    assert_eq!(dest, vec![11, 22, 33, 44]);
    assert_eq!(dec.decode_str().unwrap(), "ABCD");

    // once field by field
    let mut dec2 = VecDecoder::new(wire);
    assert_eq!(dec2.decode_u8().unwrap(), 11);
    assert_eq!(dec2.decode_u8().unwrap(), 22);
    assert_eq!(dec2.decode_u8().unwrap(), 33);
    assert_eq!(dec2.decode_u8().unwrap(), 44);
    assert_eq!(dec2.decode_str().unwrap(), "ABCD");
}

#[test]
fn empty_run_defers_to_per_field_path() {
    let specs = vec![
        FieldSpec { name: "t", kind: FieldKind::Text, size: 24 },
        FieldSpec { name: "a", kind: FieldKind::Primitive(PrimitiveKind::U8), size: 1 },
    ];
    let desc = TypeDescriptor::build::<VecDecoder>(&specs).unwrap();
    let mut dest = vec![0u8; 25];
    let mut dec = VecDecoder::new(vec![1, 2, 3, 4]);
    assert_eq!(decode_run_fast(&mut dec, &desc, 0, &mut dest).unwrap(), 0);
    assert_eq!(dec.decode_u8().unwrap(), 1);
}

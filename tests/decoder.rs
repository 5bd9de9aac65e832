use xdrust::deserializer::{DecodeError, Deserializer, Schema, Value};

fn decode(bytes: Vec<u8>, schema: &Schema) -> (Result<Value, DecodeError>, u32) {
    let mut d = Deserializer::new(bytes);
    let r = d.decode(schema);
    (r, d.get_bytes_consumed())
}

#[test]
fn struct_fields_are_positional() {
    let schema = Schema::Struct(vec![Schema::I32, Schema::I32]);
    let (r, n) = decode(vec![0, 0, 0, 5, 0, 0, 0, 7], &schema);
    assert_eq!(r, Ok(Value::Struct(vec![Value::I32(5), Value::I32(7)])));
    assert_eq!(n, 8);
}

#[test]
fn enum_discriminant_selects_member() {
    let color = Schema::Variants(vec![None, None, None]);
    let (r, n) = decode(vec![0, 0, 0, 1], &color);
    assert_eq!(r, Ok(Value::Variant(1, None)));
    assert_eq!(n, 4);
}

#[test]
fn union_discriminant_is_ordinal() {
    // Declared arms labelled 1 and 2, then the default arm.
    let u = Schema::Variants(vec![Some(Schema::I32), Some(Schema::U32), None]);
    let (r, _) = decode(vec![0, 0, 0, 0, 0xff, 0xff, 0xff, 0xfe], &u);
    assert_eq!(r, Ok(Value::Variant(0, Some(Box::new(Value::I32(-2))))));
    let (r, _) = decode(vec![0, 0, 0, 2], &u);
    assert_eq!(r, Ok(Value::Variant(2, None)));
}

#[test]
fn unknown_variant_is_an_error() {
    let u = Schema::Variants(vec![None, None]);
    let (r, _) = decode(vec![0, 0, 0, 2], &u);
    assert_eq!(r, Err(DecodeError::UnknownVariant(2)));
}

#[test]
fn empty_sequence_reads_only_the_count() {
    let s = Schema::Sequence(Box::new(Schema::U64));
    let (r, n) = decode(vec![0, 0, 0, 0, 9, 9, 9], &s);
    assert_eq!(r, Ok(Value::Sequence(vec![])));
    assert_eq!(n, 4);
}

#[test]
fn sequence_of_elements() {
    let s = Schema::Sequence(Box::new(Schema::U16));
    let (r, n) = decode(vec![0, 0, 0, 2, 0x01, 0x02, 0xff, 0xff], &s);
    assert_eq!(r, Ok(Value::Sequence(vec![Value::U16(0x0102), Value::U16(0xffff)])));
    assert_eq!(n, 8);
}

#[test]
fn short_read_is_an_error() {
    let (r, _) = decode(vec![0, 0, 1], &Schema::U32);
    assert_eq!(r, Err(DecodeError::ShortRead));
    let s = Schema::Sequence(Box::new(Schema::U8));
    let (r, _) = decode(vec![0, 0, 0, 3, 1, 2], &s);
    assert_eq!(r, Err(DecodeError::ShortRead));
}

#[test]
fn rejected_shapes() {
    for s in [
        Schema::Bool,
        Schema::Text,
        Schema::Bytes,
        Schema::Optional(Box::new(Schema::U8)),
        Schema::Dict(Box::new(Schema::U8), Box::new(Schema::U8)),
        Schema::Tuple(vec![Schema::U8]),
    ] {
        let (r, n) = decode(vec![0, 0, 0, 0, 0, 0, 0, 0], &s);
        assert_eq!(r, Err(DecodeError::Unsupported));
        assert_eq!(n, 0);
    }
}

#[test]
fn scalar_widths_big_endian() {
    assert_eq!(decode(vec![0x80], &Schema::I8).0, Ok(Value::I8(-128)));
    assert_eq!(decode(vec![0x80], &Schema::U8).0, Ok(Value::U8(128)));
    assert_eq!(decode(vec![0xff, 0xfe], &Schema::I16).0, Ok(Value::I16(-2)));
    assert_eq!(decode(vec![0, 0, 0, 0, 0, 0, 1, 0], &Schema::U64).0, Ok(Value::U64(256)));
    assert_eq!(
        decode(vec![0xff, 0xff, 0xff, 0xff, 0xff, 0xff, 0xff, 0xff], &Schema::I64).0,
        Ok(Value::I64(-1))
    );
    let (r, _) = decode(vec![0x3f, 0x80, 0, 0], &Schema::F32);
    assert_eq!(r, Ok(Value::F32Bits(1.0f32.to_bits())));
    let (r, _) = decode(1.5f64.to_bits().to_be_bytes().to_vec(), &Schema::F64);
    assert_eq!(r, Ok(Value::F64Bits(1.5f64.to_bits())));
}

#[test]
fn encoded_struct_decodes_to_same_value() {
    let schema = Schema::Struct(vec![
        Schema::U32,
        Schema::Sequence(Box::new(Schema::I16)),
        Schema::Variants(vec![None, Some(Schema::U8)]),
    ]);
    let mut bytes = Vec::new();
    bytes.extend_from_slice(&7u32.to_be_bytes());
    bytes.extend_from_slice(&2u32.to_be_bytes());
    bytes.extend_from_slice(&(-3i16).to_be_bytes());
    bytes.extend_from_slice(&4i16.to_be_bytes());
    bytes.extend_from_slice(&1u32.to_be_bytes());
    bytes.push(9);
    let (r, n) = decode(bytes.clone(), &schema);
    assert_eq!(
        r,
        Ok(Value::Struct(vec![
            Value::U32(7),
            Value::Sequence(vec![Value::I16(-3), Value::I16(4)]),
            Value::Variant(1, Some(Box::new(Value::U8(9)))),
        ]))
    );
    assert_eq!(n as usize, bytes.len());
}

#[test]
fn failed_decode_consumes_nothing() {
    let mut d = Deserializer::new(vec![0, 0, 0, 5, 0, 0]);
    let schema = Schema::Struct(vec![Schema::I32, Schema::I32]);
    assert_eq!(d.decode(&schema), Err(DecodeError::ShortRead));
    assert_eq!(d.get_bytes_consumed(), 0);
    assert_eq!(d.decode(&Schema::I32), Ok(Value::I32(5)));
    assert_eq!(d.get_bytes_consumed(), 4);
}

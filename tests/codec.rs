use marine_macro_impl::{ParsedType, RecordType, RecordFields, RecordField};
use marine_macro_impl::wire::{Value, LinearMemory, CodecError, write_value, read_value};
use marine_macro_impl::record_codec::{serialize_record, deserialize_record, serializer_plan, FieldAccess, FieldWrite, FieldStep, VectorHelper};

fn named(name: &str, ty: ParsedType) -> RecordField {
    RecordField { name: Some(name.to_string()), ty }
}

fn record(name: &str, fields: Vec<RecordField>) -> RecordType {
    RecordType { name: name.to_string(), fields: RecordFields::Named(fields) }
}

fn round_trip(reg: &[RecordType], ty: &ParsedType, v: &Value) -> Value {
    let mut mem = LinearMemory::new();
    let mut inline = Vec::new();
    write_value(&mut mem, reg, ty, v, &mut inline).expect("write");
    assert_eq!(inline.len(), ty.wire_size());
    read_value(&mem, reg, ty, &inline, 16).expect("read")
}

#[test]
fn scalars_round_trip() {
    let cases = vec![
        (ParsedType::Boolean, Value::Boolean(true)),
        (ParsedType::Boolean, Value::Boolean(false)),
        (ParsedType::I8, Value::I8(-5)),
        (ParsedType::U8, Value::U8(200)),
        (ParsedType::I16, Value::I16(-30000)),
        (ParsedType::U16, Value::U16(65535)),
        (ParsedType::I32, Value::I32(i32::MIN)),
        (ParsedType::U32, Value::U32(0xdead_beef)),
        (ParsedType::I64, Value::I64(-1)),
        (ParsedType::U64, Value::U64(u64::MAX)),
        (ParsedType::F32, Value::F32(1.5f32.to_bits())),
        (ParsedType::F64, Value::F64((-2.25f64).to_bits())),
    ];
    for (ty, v) in cases {
        assert_eq!(round_trip(&[], &ty, &v), v);
    }
}

#[test]
fn scalar_bytes_are_little_endian() {
    let mut mem = LinearMemory::new();
    let mut inline = Vec::new();
    write_value(&mut mem, &[], &ParsedType::I32, &Value::I32(0x0102_0304), &mut inline).unwrap();
    assert_eq!(inline, vec![4, 3, 2, 1]);
    let mut inline = Vec::new();
    write_value(&mut mem, &[], &ParsedType::Boolean, &Value::Boolean(true), &mut inline).unwrap();
    assert_eq!(inline, vec![1]);
    let mut inline = Vec::new();
    write_value(&mut mem, &[], &ParsedType::I16, &Value::I16(-2), &mut inline).unwrap();
    assert_eq!(inline, vec![0xfe, 0xff]);
    assert_eq!(mem.len(), 0);
}

#[test]
fn text_is_pointer_and_length() {
    let mut mem = LinearMemory::new();
    mem.allocate(&[9, 9, 9]).unwrap();
    let mut inline = Vec::new();
    let v = Value::Text(b"hello".to_vec());
    write_value(&mut mem, &[], &ParsedType::Utf8String, &v, &mut inline).unwrap();
    assert_eq!(inline, vec![3, 0, 0, 0, 5, 0, 0, 0]);
    assert_eq!(mem.as_bytes(), &[9, 9, 9, b'h', b'e', b'l', b'l', b'o'][..]);
    assert_eq!(read_value(&mem, &[], &ParsedType::Utf8Str, &inline, 0), Some(v));
}

#[test]
fn nested_vectors_round_trip() {
    let ty = ParsedType::Vector(Box::new(ParsedType::Vector(Box::new(ParsedType::U16))));
    let v = Value::Vector(vec![
        Value::Vector(vec![Value::U16(1), Value::U16(2)]),
        Value::Vector(vec![]),
        Value::Vector(vec![Value::U16(65535)]),
    ]);
    assert_eq!(round_trip(&[], &ty, &v), v);
}

#[test]
fn records_with_vectors_of_records_round_trip() {
    let reg = vec![
        record("Point", vec![named("x", ParsedType::I32), named("label", ParsedType::Utf8String)]),
        record(
            "Shape",
            vec![
                named("closed", ParsedType::Boolean),
                named("points", ParsedType::Vector(Box::new(ParsedType::Record("Point".to_string())))),
                named("origin", ParsedType::Record("Point".to_string())),
            ],
        ),
    ];
    let point = |x: i32, l: &str| Value::Record(vec![Value::I32(x), Value::Text(l.as_bytes().to_vec())]);
    let v = Value::Record(vec![
        Value::Boolean(true),
        Value::Vector(vec![point(1, "a"), point(-7, "bee")]),
        point(0, ""),
    ]);
    let ty = ParsedType::Record("Shape".to_string());
    assert_eq!(round_trip(&reg, &ty, &v), v);
}

#[test]
fn record_with_int_and_string_is_packed() {
    let rec = record("Pair", vec![named("a", ParsedType::I32), named("b", ParsedType::Utf8String)]);
    let reg = vec![rec.clone()];
    let values = vec![Value::I32(-2), Value::Text(b"xyz".to_vec())];
    let mut mem = LinearMemory::new();
    let (ptr, len) = serialize_record(&mut mem, &reg, &rec, &values).unwrap();
    assert_eq!(len, 12);
    assert_eq!(ptr, 3);
    let bytes = &mem.as_bytes()[ptr as usize..(ptr + len) as usize];
    assert_eq!(bytes, &[0xfe, 0xff, 0xff, 0xff, 0, 0, 0, 0, 3, 0, 0, 0][..]);
    assert_eq!(deserialize_record(&mem, &reg, &rec, ptr, len, 4), Some(values));
}

#[test]
fn unit_record_is_empty() {
    let rec = RecordType { name: "Nothing".to_string(), fields: RecordFields::Unit };
    let reg = vec![rec.clone()];
    let mut mem = LinearMemory::new();
    let (_ptr, len) = serialize_record(&mut mem, &reg, &rec, &[]).unwrap();
    assert_eq!(len, 0);
    assert_eq!(mem.len(), 0);
    assert_eq!(deserialize_record(&mem, &reg, &rec, 1000, 0, 0), Some(vec![]));
    assert!(serializer_plan(&rec).is_empty());
}

#[test]
fn deserialize_rejects_wrong_length() {
    let rec = record("One", vec![named("a", ParsedType::U8)]);
    let mem = LinearMemory::from_bytes(vec![7, 8]).unwrap();
    assert_eq!(deserialize_record(&mem, &[], &rec, 0, 2, 1), None);
    assert_eq!(deserialize_record(&mem, &[], &rec, 1, 1, 1), Some(vec![Value::U8(8)]));
    assert_eq!(deserialize_record(&mem, &[], &rec, 2, 1, 1), None);
}

#[test]
fn write_errors() {
    let mut mem = LinearMemory::new();
    let mut out = Vec::new();
    assert_eq!(write_value(&mut mem, &[], &ParsedType::I32, &Value::U32(1), &mut out), Err(CodecError::TypeMismatch));
    assert_eq!(
        write_value(&mut mem, &[], &ParsedType::Record("Missing".to_string()), &Value::Record(vec![]), &mut out),
        Err(CodecError::UnknownRecord)
    );
    let reg = vec![record("R", vec![named("a", ParsedType::U8)])];
    assert_eq!(
        write_value(&mut mem, &reg, &ParsedType::Record("R".to_string()), &Value::Record(vec![]), &mut out),
        Err(CodecError::TypeMismatch)
    );
}

#[test]
fn reading_is_bounded() {
    let ty = ParsedType::Vector(Box::new(ParsedType::U8));
    let mut mem = LinearMemory::new();
    let mut inline = Vec::new();
    write_value(&mut mem, &[], &ty, &Value::Vector(vec![Value::U8(1)]), &mut inline).unwrap();
    assert_eq!(read_value(&mem, &[], &ty, &inline, 0), None);
    assert_eq!(read_value(&mem, &[], &ty, &inline, 1), Some(Value::Vector(vec![Value::U8(1)])));
    let out_of_range = vec![0, 0, 0, 0, 9, 0, 0, 0];
    assert_eq!(read_value(&mem, &[], &ty, &out_of_range, 1), None);
    assert_eq!(read_value(&mem, &[], &ty, &inline[..4], 1), None);
}

#[test]
fn allocation_and_memory_bounds() {
    let mut mem = LinearMemory::new();
    assert_eq!(mem.allocate(&[1, 2]), Some(0));
    assert_eq!(mem.allocate(&[3]), Some(2));
    assert_eq!(mem.read(1, 2), Some(&[2u8, 3][..]));
    assert_eq!(mem.read(2, 2), None);
}

#[test]
fn serializer_plan_follows_fields() {
    let rec = record(
        "Mixed",
        vec![
            named("flag", ParsedType::Boolean),
            named("n", ParsedType::U64),
            named("s", ParsedType::Utf8Str),
            named("v", ParsedType::Vector(Box::new(ParsedType::I8))),
            named("r", ParsedType::Record("Other".to_string())),
        ],
    );
    let plan = serializer_plan(&rec);
    assert_eq!(
        plan,
        vec![
            FieldStep { access: FieldAccess::Named("flag".to_string()), write: FieldWrite::BoolByte },
            FieldStep { access: FieldAccess::Named("n".to_string()), write: FieldWrite::Scalar(8) },
            FieldStep { access: FieldAccess::Named("s".to_string()), write: FieldWrite::TextPointerLength },
            FieldStep {
                access: FieldAccess::Named("v".to_string()),
                write: FieldWrite::VectorPointerLength {
                    element: ParsedType::I8,
                    helper: VectorHelper { field: Some("v".to_string()), position: 3 },
                },
            },
            FieldStep { access: FieldAccess::Named("r".to_string()), write: FieldWrite::RecordPointer("Other".to_string()) },
        ]
    );
    let tuple = RecordType {
        name: "T".to_string(),
        fields: RecordFields::Unnamed(vec![RecordField { name: None, ty: ParsedType::I16 }]),
    };
    assert_eq!(
        serializer_plan(&tuple),
        vec![FieldStep { access: FieldAccess::Position(0), write: FieldWrite::Scalar(2) }]
    );
}

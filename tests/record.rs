use embedded_serialize::{
    derive_deserialize, derive_serialize, platform_info, Capability, DeserializeError, FieldType,
    FieldValue, Fields, Platform, RejectedShape, SerializeError, TypeShape,
};

#[test]
fn record_composition() {
    let shape = TypeShape::Struct(Fields::Named(vec![FieldType::U16, FieldType::U8]));
    let enc = derive_serialize(&shape).unwrap();
    let dec = derive_deserialize(&shape).unwrap();
    let values = vec![FieldValue::U16(0x0102), FieldValue::U8(0x03)];
    let mut buf = [0u8; 3];
    assert_eq!(enc.serialize(&values, &mut buf).unwrap(), 3);
    assert_eq!(buf, [0x01, 0x02, 0x03]);
    assert_eq!(dec.deserialize(&buf).unwrap(), values);
}

#[test]
fn positional_record_round_trip() {
    let shape = TypeShape::Struct(Fields::Unnamed(vec![
        FieldType::Bool,
        FieldType::I32,
        FieldType::I8,
        FieldType::U32,
        FieldType::I16,
    ]));
    let codec = derive_serialize(&shape).unwrap();
    let values = vec![
        FieldValue::Bool(true),
        FieldValue::I32(-2),
        FieldValue::I8(-1),
        FieldValue::U32(0xDEAD_BEEF),
        FieldValue::I16(i16::MIN),
    ];
    let mut buf = [0u8; 12];
    assert_eq!(codec.serialize(&values, &mut buf).unwrap(), 12);
    assert_eq!(buf, [1, 0xFF, 0xFF, 0xFF, 0xFE, 0xFF, 0xDE, 0xAD, 0xBE, 0xEF, 0x80, 0x00]);
    assert_eq!(codec.deserialize(&buf).unwrap(), values);
}

#[test]
fn unit_record_is_empty() {
    let codec = derive_serialize(&TypeShape::Struct(Fields::Unit)).unwrap();
    let mut buf: [u8; 0] = [];
    assert_eq!(codec.serialize(&[], &mut buf).unwrap(), 0);
    assert_eq!(codec.deserialize(&buf).unwrap(), vec![]);
}

#[test]
fn record_failure_stops_at_first_field() {
    let shape = TypeShape::Struct(Fields::Named(vec![FieldType::U16, FieldType::U32]));
    let codec = derive_serialize(&shape).unwrap();
    let values = vec![FieldValue::U16(0x0102), FieldValue::U32(7)];
    let mut buf = [0xAAu8; 4];
    assert!(matches!(codec.serialize(&values, &mut buf), Err(SerializeError::BufferTooSmall)));
    assert_eq!(buf, [0x01, 0x02, 0xAA, 0xAA]);
    assert!(matches!(codec.deserialize(&buf), Err(DeserializeError::BufferTooSmall)));
    let flags = derive_deserialize(&TypeShape::Struct(Fields::Named(vec![FieldType::Bool, FieldType::U8])))
        .unwrap();
    assert!(matches!(flags.deserialize(&[2, 0]), Err(DeserializeError::InvalidData)));
}

#[test]
fn generation_rejects_non_records() {
    let e = derive_serialize(&TypeShape::Enum).unwrap_err();
    assert_eq!(e.capability, Capability::Serialize);
    assert_eq!(e.shape, RejectedShape::Enum);
    assert_eq!(e.message(), "Serialize can only be derived for structs, not enums");
    let e = derive_deserialize(&TypeShape::Union).unwrap_err();
    assert_eq!(e.shape, RejectedShape::Union);
    assert_eq!(e.message(), "Deserialize can only be derived for structs, not unions");
    let e = derive_deserialize(&TypeShape::Enum).unwrap_err();
    assert_eq!(e.message(), "Deserialize can only be derived for structs, not enums");
}

#[test]
fn platform_names() {
    assert_eq!(platform_info(Platform::Esp32), "ESP32 Platform");
    assert_eq!(platform_info(Platform::Arduino32), "Arduino32 Platform");
}

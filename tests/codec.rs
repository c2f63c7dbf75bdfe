use embedded_serialize::{Deserialize, DeserializeError, Serialize, SerializeError};

fn round_trip<T: Serialize + Deserialize + PartialEq + core::fmt::Debug + Copy>(v: T, width: usize) {
    let mut buf = [0xAAu8; 8];
    let n = v.serialize(&mut buf).unwrap();
    assert_eq!(n, width);
    assert_eq!(T::deserialize(&buf).unwrap(), v);
}

#[test]
fn round_trip_unsigned() {
    for v in [0u8, 1, 0x7F, u8::MAX] {
        round_trip(v, 1);
    }
    for v in [0u16, 1, 0x1234, u16::MAX] {
        round_trip(v, 2);
    }
    for v in [0u32, 1, 0x0102_0304, u32::MAX] {
        round_trip(v, 4);
    }
}

#[test]
fn round_trip_signed() {
    for v in [0i8, -1, i8::MIN, i8::MAX] {
        round_trip(v, 1);
    }
    for v in [0i16, -1, i16::MIN, i16::MAX] {
        round_trip(v, 2);
    }
    for v in [0i32, -1, i32::MIN, i32::MAX] {
        round_trip(v, 4);
    }
}

#[test]
fn round_trip_bool() {
    round_trip(true, 1);
    round_trip(false, 1);
}

#[test]
fn big_endian_byte_order() {
    let mut buf = [0u8; 2];
    assert_eq!(0x1234u16.serialize(&mut buf).unwrap(), 2);
    assert_eq!(buf, [0x12, 0x34]);
    let mut buf = [0u8; 4];
    assert_eq!(0x0102_0304u32.serialize(&mut buf).unwrap(), 4);
    assert_eq!(buf, [0x01, 0x02, 0x03, 0x04]);
    assert_eq!(u16::deserialize(&[0x12, 0x34]).unwrap(), 0x1234);
    assert_eq!(u32::deserialize(&[0x01, 0x02, 0x03, 0x04]).unwrap(), 0x0102_0304);
}

#[test]
fn signed_uses_twos_complement_bits() {
    let mut buf = [0u8; 4];
    (-2i16).serialize(&mut buf).unwrap();
    assert_eq!(buf[..2], [0xFF, 0xFE]);
    (-1i32).serialize(&mut buf).unwrap();
    assert_eq!(buf, [0xFF; 4]);
    assert_eq!(i8::deserialize(&[0x80]).unwrap(), -128);
}

#[test]
fn writes_only_the_value_width() {
    let mut buf = [0xEEu8; 6];
    assert_eq!(0xABCDu16.serialize(&mut buf).unwrap(), 2);
    assert_eq!(buf, [0xAB, 0xCD, 0xEE, 0xEE, 0xEE, 0xEE]);
}

#[test]
fn bool_domain() {
    assert_eq!(bool::deserialize(&[0x00]).unwrap(), false);
    assert_eq!(bool::deserialize(&[0x01]).unwrap(), true);
    assert!(matches!(bool::deserialize(&[0x02]), Err(DeserializeError::InvalidData)));
    assert!(matches!(bool::deserialize(&[0xFF]), Err(DeserializeError::InvalidData)));
    let mut buf = [9u8; 1];
    true.serialize(&mut buf).unwrap();
    assert_eq!(buf, [1]);
    false.serialize(&mut buf).unwrap();
    assert_eq!(buf, [0]);
}

#[test]
fn encode_buffer_too_small_leaves_buffer_unchanged() {
    let mut buf = [0x5Au8; 3];
    assert!(matches!(0x0102_0304u32.serialize(&mut buf), Err(SerializeError::BufferTooSmall)));
    assert_eq!(buf, [0x5A; 3]);
    assert!(matches!((-7i32).serialize(&mut buf), Err(SerializeError::BufferTooSmall)));
    assert_eq!(buf, [0x5A; 3]);
    let mut one = [0x5Au8; 1];
    assert!(matches!(0x0102u16.serialize(&mut one), Err(SerializeError::BufferTooSmall)));
    assert!(matches!(5i16.serialize(&mut one), Err(SerializeError::BufferTooSmall)));
    assert_eq!(one, [0x5A]);
    let mut empty: [u8; 0] = [];
    assert!(matches!(7u8.serialize(&mut empty), Err(SerializeError::BufferTooSmall)));
    assert!(matches!((-7i8).serialize(&mut empty), Err(SerializeError::BufferTooSmall)));
    assert!(matches!(true.serialize(&mut empty), Err(SerializeError::BufferTooSmall)));
}

#[test]
fn decode_buffer_too_small() {
    assert!(matches!(u8::deserialize(&[]), Err(DeserializeError::BufferTooSmall)));
    assert!(matches!(i8::deserialize(&[]), Err(DeserializeError::BufferTooSmall)));
    assert!(matches!(bool::deserialize(&[]), Err(DeserializeError::BufferTooSmall)));
    assert!(matches!(u16::deserialize(&[1]), Err(DeserializeError::BufferTooSmall)));
    assert!(matches!(i16::deserialize(&[1]), Err(DeserializeError::BufferTooSmall)));
    assert!(matches!(u32::deserialize(&[1, 2, 3]), Err(DeserializeError::BufferTooSmall)));
    assert!(matches!(i32::deserialize(&[1, 2, 3]), Err(DeserializeError::BufferTooSmall)));
}

#[test]
fn array_round_trip_keeps_order() {
    let a: [u8; 4] = [4, 3, 2, 1];
    let mut buf = [0u8; 4];
    assert_eq!(a.serialize(&mut buf).unwrap(), 4);
    assert_eq!(buf, [4, 3, 2, 1]);
    let b = <[u8; 4]>::deserialize(&buf).unwrap();
    assert_eq!(b, a);
}

#[test]
fn array_of_wider_elements() {
    let a: [u16; 2] = [0x0102, 0x0304];
    let mut buf = [0u8; 4];
    assert_eq!(a.serialize(&mut buf).unwrap(), 4);
    assert_eq!(buf, [1, 2, 3, 4]);
    assert_eq!(<[u16; 2]>::deserialize(&buf).unwrap(), a);
    let e: [i32; 0] = [];
    assert_eq!(e.serialize(&mut buf).unwrap(), 0);
    assert_eq!(<[i32; 0]>::deserialize(&[]).unwrap(), e);
}

#[test]
fn array_failure_leaves_earlier_elements_written() {
    let a: [u16; 2] = [0x0102, 0x0304];
    let mut buf = [0u8; 3];
    assert!(matches!(a.serialize(&mut buf), Err(SerializeError::BufferTooSmall)));
    assert_eq!(buf, [1, 2, 0]);
    assert!(matches!(<[u16; 2]>::deserialize(&[1, 2, 3]), Err(DeserializeError::BufferTooSmall)));
    assert!(matches!(<[bool; 3]>::deserialize(&[1, 7, 0]), Err(DeserializeError::InvalidData)));
}

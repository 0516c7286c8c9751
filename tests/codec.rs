use blister::format::error::Error;
use blister::format::ext::{decode_value, encode_value, read_kv, write_kv};
use blister::format::values::Sha1;
use blister::format::{Key, TypedMap, Value};

fn round_trip(v: Value) -> Value {
    let mut out = Vec::new();
    let n = encode_value(&v, &mut out).unwrap();
    assert_eq!(n, out.len());
    assert_eq!(out[0], v.data_type());
    let (back, m) = decode_value(out[0], &out[1..]).unwrap();
    assert_eq!(m + 1, n);
    back
}

#[test]
fn lib_write_and_read() {
    let mut old = TypedMap::new();
    old.insert(Key(0), Value::U8(0));
    old.insert(Key(1), Value::U16(1));
    old.insert(Key(2), Value::U32(2));
    old.insert(Key(3), Value::U64(3));
    old.insert(Key(4), Value::ShortString("short string".to_owned()));
    old.insert(Key(5), Value::LongString("long string".to_owned()));
    old.insert(Key(6), Value::Binary(vec![6, 6, 6, 6, 6, 6]));
    old.insert(Key(7), Value::Bool(true));
    old.insert(Key(8), Value::Float(8.8f32.to_bits()));
    old.insert(Key(9), Value::Sha1(Sha1([9; 20])));

    let len = old.len();

    let mut buffer = Vec::new();
    old.write(&mut buffer).unwrap();

    let mut new = TypedMap::with_capacity(len);
    new.read(buffer.as_slice()).unwrap();

    assert_eq!(old, new);
}

#[test]
fn every_kind_round_trips() {
    let values = vec![
        Value::U8(200),
        Value::U16(0xbeef),
        Value::U32(0xdead_beef),
        Value::U64(u64::MAX - 1),
        Value::ShortString(String::new()),
        Value::ShortString("x".repeat(255)),
        Value::LongString("y".repeat(65535)),
        Value::LongString("héllo wörld".to_owned()),
        Value::Binary(Vec::new()),
        Value::Binary(vec![1, 2, 3]),
        Value::Bool(false),
        Value::Bool(true),
        Value::Float(1.5f32.to_bits()),
        Value::Sha1(Sha1([7; 20])),
    ];
    for v in values {
        assert_eq!(round_trip(v.clone()), v);
    }
}

#[test]
fn exact_little_endian_bytes() {
    let mut out = Vec::new();
    assert_eq!(encode_value(&Value::U16(0x0102), &mut out).unwrap(), 3);
    assert_eq!(out, vec![1, 0x02, 0x01]);

    let mut out = Vec::new();
    assert_eq!(encode_value(&Value::ShortString("ab".to_owned()), &mut out).unwrap(), 4);
    assert_eq!(out, vec![4, 2, b'a', b'b']);

    let mut out = Vec::new();
    assert_eq!(write_kv(&mut out, Key(0x0403_0201), &Value::Bool(true)).unwrap(), 6);
    assert_eq!(out, vec![1, 2, 3, 4, 7, 1]);

    let mut out = Vec::new();
    assert_eq!(encode_value(&Value::Binary(vec![9]), &mut out).unwrap(), 6);
    assert_eq!(out, vec![6, 1, 0, 0, 0, 9]);
}

#[test]
fn oversized_lengths_are_refused() {
    let mut out = vec![42];
    let r = encode_value(&Value::ShortString("x".repeat(256)), &mut out);
    assert!(matches!(r, Err(Error::IntegerOverflow)));
    let r = encode_value(&Value::LongString("x".repeat(65536)), &mut out);
    assert!(matches!(r, Err(Error::IntegerOverflow)));
    assert_eq!(out, vec![42]);
}

#[test]
fn decode_errors() {
    assert!(matches!(decode_value(10, &[0]), Err(Error::InvalidDataType(10))));
    assert!(matches!(decode_value(7, &[2]), Err(Error::InvalidBoolean(2))));
    assert!(matches!(decode_value(4, &[2, 0xff, 0xfe]), Err(Error::InvalidUtf8(_))));
    assert!(matches!(decode_value(2, &[1, 2, 3]), Err(Error::UnexpectedEof)));
    assert!(matches!(decode_value(6, &[5, 0, 0, 0, 1]), Err(Error::UnexpectedEof)));
    assert!(matches!(read_kv(&[1, 0, 0]), Err(Error::UnexpectedEof)));
}

#[test]
fn read_kv_reports_bytes_taken() {
    let bytes = [5, 0, 0, 0, 1, 0x34, 0x12, 99, 99];
    let (n, (k, v)) = read_kv(&bytes).unwrap();
    assert_eq!(n, 7);
    assert_eq!(k, Key(5));
    assert_eq!(v, Value::U16(0x1234));
}

#[test]
fn empty_map_round_trips() {
    let old = TypedMap::new();
    let mut buffer = Vec::new();
    old.write(&mut buffer).unwrap();
    assert_eq!(buffer, vec![0, 0, 0, 0]);
    let mut new = TypedMap::new();
    assert_eq!(new.read(&buffer).unwrap(), 4);
    assert!(new.is_empty());
    assert_eq!(old, new);
}

#[test]
fn map_framing_leaves_trailing_bytes() {
    let mut old = TypedMap::new();
    old.insert(Key(1), Value::U8(2));
    let mut buffer = Vec::new();
    old.write(&mut buffer).unwrap();
    assert_eq!(buffer, vec![6, 0, 0, 0, 1, 0, 0, 0, 0, 2]);
    buffer.extend_from_slice(&[0xaa, 0xbb]);
    let mut new = TypedMap::new();
    assert_eq!(new.read(&buffer).unwrap(), 10);
    assert_eq!(new, old);
}

#[test]
fn map_entry_past_declared_length_fails() {
    let bytes = [5, 0, 0, 0, 1, 0, 0, 0, 0, 2];
    let mut m = TypedMap::new();
    assert!(matches!(m.read(&bytes), Err(Error::UnexpectedEof)));
    let short = [9, 0, 0, 0, 1];
    let mut m = TypedMap::new();
    assert!(matches!(m.read(&short), Err(Error::UnexpectedEof)));
}

#[test]
fn map_operations() {
    let mut m = TypedMap::new();
    assert_eq!(m.insert(Key(3), Value::U8(1)), None);
    assert_eq!(m.insert(Key(3), Value::U8(2)), Some(Value::U8(1)));
    assert!(m.contains_key(Key(3)));
    assert_eq!(m.get(Key(3)), Some(&Value::U8(2)));
    assert_eq!(m.get_key_value(Key(3)), Some((Key(3), &Value::U8(2))));
    if let Some(v) = m.get_mut(Key(3)) {
        *v = Value::Bool(false);
    }
    assert!(m.get_mut(Key(4)).is_none());
    assert_eq!(m.get(Key(3)), Some(&Value::Bool(false)));
    m.insert(Key(3), Value::U8(2));
    assert_eq!(m.remove_entry(Key(3)), Some((Key(3), Value::U8(2))));
    assert_eq!(m.remove(Key(3)), None);
    assert_eq!(m.len(), 0);
}

#[test]
fn digests_compare_by_bytes() {
    assert_eq!(Sha1([1; 20]), Sha1::from([1; 20]));
    let mut other = [1; 20];
    other[19] = 2;
    assert_ne!(Sha1([1; 20]), Sha1(other));
}

#[test]
fn map_keys_and_default() {
    let mut m = TypedMap::default();
    assert!(m.keys().is_empty());
    m.insert(Key(7), Value::from(1u8));
    m.insert(Key(2), Value::from(true));
    m.insert(Key(7), Value::from(2u16));
    let mut keys = m.keys();
    keys.sort_by_key(|k| k.0);
    assert_eq!(keys, vec![Key(2), Key(7)]);
}

#[test]
fn conversions_into_values() {
    assert_eq!(Value::from(1u8), Value::U8(1));
    assert_eq!(Value::from(2u16), Value::U16(2));
    assert_eq!(Value::from(3u32), Value::U32(3));
    assert_eq!(Value::from(4u64), Value::U64(4));
    assert_eq!(Value::from("s".to_owned()), Value::LongString("s".to_owned()));
    assert_eq!(Value::from(vec![1u8]), Value::Binary(vec![1]));
    assert_eq!(Value::from(false), Value::Bool(false));
    assert_eq!(Value::from(Sha1([5; 20])), Value::Sha1(Sha1([5; 20])));
}

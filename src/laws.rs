use vstd::prelude::*;

use crate::codec::{
    array_of,
    be16, be32, from_be16, from_be32, spec_deserialize_prefix, spec_serialize_prefix, Deserialize,
    DeserializeError, Serialize, SerializeError,
};
use crate::record::{conforms, field_offset, spec_decode_field, spec_decode_prefix, FieldType, FieldValue};
use crate::codec::{bool_byte, write_fixed};

verus! {

broadcast use vstd::layout::layout_of_primitives;

/// Big-endian 16-bit bytes read back give the value written.
pub proof fn lemma_be16_round_trip(v: u16)
    ensures
        from_be16(be16(v)) == v,
{
    assert((((v >> 8) as u8) as u16) << 8 | (v as u8) as u16 == v) by (bit_vector);
}

/// Big-endian 32-bit bytes read back give the value written.
pub proof fn lemma_be32_round_trip(v: u32)
    ensures
        from_be32(be32(v)) == v,
{
    assert((((v >> 24) as u8) as u32) << 24 | (((v >> 16) as u8) as u32) << 16 | (((v >> 8) as u8) as u32) << 8
        | (v as u8) as u32 == v) by (bit_vector);
}

/// Every primitive value, written into a buffer large enough for it, takes
/// exactly its width and reads back as the same value.
pub proof fn lemma_round_trip(v: FieldValue, buf: Seq<u8>)
    requires
        buf.len() >= v.spec_field_type().spec_width(),
    ensures
        v.spec_serialize(buf).0 == Ok::<usize, SerializeError>(v.spec_field_type().spec_width() as usize),
        spec_decode_field(v.spec_field_type(), v.spec_serialize(buf).1) == Ok::<FieldValue, DeserializeError>(v),
{
    match v {
        FieldValue::U16(x) => lemma_be16_round_trip(x),
        FieldValue::I16(x) => {
            lemma_be16_round_trip(x as u16);
            assert((x as u16) as i16 == x) by (bit_vector);
        },
        FieldValue::U32(x) => lemma_be32_round_trip(x),
        FieldValue::I32(x) => {
            lemma_be32_round_trip(x as u32);
            assert((x as u32) as i32 == x) by (bit_vector);
        },
        FieldValue::I8(x) => {
            assert((x as u8) as i8 == x) by (bit_vector);
        },
        _ => {},
    }
}

/// A primitive value written into a buffer shorter than its width fails with
/// `BufferTooSmall` and leaves every byte of the buffer as it was.
pub proof fn lemma_too_small(v: FieldValue, buf: Seq<u8>)
    requires
        buf.len() < v.spec_field_type().spec_width(),
    ensures
        v.spec_serialize(buf) == (Err::<usize, SerializeError>(SerializeError::BufferTooSmall), buf),
{
}


/// Bytes written one after another land in order at the front of the buffer.
pub proof fn lemma_serialize_bytes(a: Seq<u8>, k: int, buf: Seq<u8>)
    requires
        0 <= k <= a.len(),
        a.len() <= buf.len(),
        a.len() <= usize::MAX,
    ensures
        spec_serialize_prefix(a, k, buf) == (Ok::<usize, SerializeError>(k as usize), a.take(k) + buf.skip(k)),
    decreases k,
{
    if k > 0 {
        lemma_serialize_bytes(a, k - 1, buf);
        let b = a.take(k - 1) + buf.skip(k - 1);
        assert(b.skip(k - 1) =~= buf.skip(k - 1));
        assert(b.take(k - 1) =~= a.take(k - 1));
        assert(buf.skip(k - 1).skip(1) =~= buf.skip(k));
        assert(a.take(k - 1) + (seq![a[k - 1]] + buf.skip(k)) =~= a.take(k) + buf.skip(k));
    } else {
        assert(a.take(0) + buf.skip(0) =~= buf);
    }
}

/// Bytes read one after another with a stride of one are the bytes themselves.
pub proof fn lemma_deserialize_bytes(bytes: Seq<u8>, k: int)
    requires
        0 <= k <= bytes.len(),
    ensures
        spec_deserialize_prefix::<u8>(bytes, 1, k) == Ok::<Seq<u8>, DeserializeError>(bytes.take(k)),
    decreases k,
{
    if k > 0 {
        lemma_deserialize_bytes(bytes, k - 1);
        assert((k - 1) * 1 == k - 1);
        assert(bytes.take(k - 1).push(bytes.skip(k - 1)[0]) =~= bytes.take(k));
    } else {
        assert(bytes.take(0) =~= Seq::<u8>::empty());
    }
}

/// An array of bytes, written into a buffer large enough for it, reads back
/// as the same array, in the same order.
pub proof fn lemma_array_round_trip<const N: usize>(a: [u8; N], buf: Seq<u8>)
    requires
        buf.len() >= N,
    ensures
        a.spec_serialize(buf).0 == Ok::<usize, SerializeError>(N),
        <[u8; N]>::spec_deserialize(a.spec_serialize(buf).1) == Ok::<[u8; N], DeserializeError>(a),
{
    lemma_serialize_bytes(a@, N as int, buf);
    let out = a@ + buf.skip(N as int);
    lemma_deserialize_bytes(out, N as int);
    assert(out.take(N as int) =~= a@);
    assert(vstd::layout::size_of::<u8>() == 1);
    let c = array_of::<u8, N>(a@);
    assert(c@ == a@);
    assert(c =~= a);
    assert(spec_deserialize_prefix::<u8>(out, vstd::layout::size_of::<u8>(), N as int) == Ok::<Seq<u8>, DeserializeError>(a@));
    assert(a.spec_serialize(buf).1 == out);
}


/// The bytes that encode one field value.
pub open spec fn field_bytes(v: FieldValue) -> Seq<u8> {
    match v {
        FieldValue::U8(x) => seq![x],
        FieldValue::U16(x) => be16(x),
        FieldValue::U32(x) => be32(x),
        FieldValue::I8(x) => seq![x as u8],
        FieldValue::I16(x) => be16(x as u16),
        FieldValue::I32(x) => be32(x as u32),
        FieldValue::Bool(x) => seq![bool_byte(x)],
    }
}

/// The concatenation of the encodings of the first `k` of `values`.
pub open spec fn record_bytes(values: Seq<FieldValue>, k: int) -> Seq<u8>
    decreases k,
{
    if k <= 0 {
        Seq::empty()
    } else {
        record_bytes(values, k - 1) + field_bytes(values[k - 1])
    }
}

/// Writing a field value writes its bytes whole, or nothing.
pub proof fn lemma_field_writes_bytes(v: FieldValue, buf: Seq<u8>)
    ensures
        v.spec_serialize(buf) == write_fixed(field_bytes(v), buf),
        field_bytes(v).len() == v.spec_field_type().spec_width(),
{
}

/// Decoding a field reads only the first bytes of its width.
pub proof fn lemma_decode_field_reads_width(t: FieldType, bytes: Seq<u8>)
    requires
        bytes.len() >= t.spec_width(),
    ensures
        spec_decode_field(t, bytes) == spec_decode_field(t, bytes.take(t.spec_width() as int)),
{
}

/// The encoding of a record's first `k` fields is as long as their offsets
/// say, and starts with the encoding of any shorter prefix.
pub proof fn lemma_record_bytes(values: Seq<FieldValue>, types: Seq<FieldType>, j: int, k: int)
    requires
        conforms(values, types),
        0 <= j <= k <= values.len(),
    ensures
        record_bytes(values, k).len() == field_offset(types, k),
        record_bytes(values, j).len() <= record_bytes(values, k).len(),
        record_bytes(values, k).take(record_bytes(values, j).len() as int) == record_bytes(values, j),
    decreases k,
{
    if k > j {
        lemma_record_bytes(values, types, j, k - 1);
        lemma_field_writes_bytes(values[k - 1], Seq::empty());
        assert(record_bytes(values, k).take(record_bytes(values, j).len() as int)
            =~= record_bytes(values, k - 1).take(record_bytes(values, j).len() as int));
    } else if k > 0 {
        lemma_record_bytes(values, types, 0, k - 1);
        lemma_field_writes_bytes(values[k - 1], Seq::empty());
        assert(record_bytes(values, k).take(record_bytes(values, k).len() as int) =~= record_bytes(values, k));
    } else {
        assert(record_bytes(values, 0).take(0) =~= record_bytes(values, 0));
    }
}

/// Serializing the first `k` fields of a record writes their encodings,
/// concatenated in declaration order, at the front of the buffer.
pub proof fn lemma_record_serialize(values: Seq<FieldValue>, types: Seq<FieldType>, k: int, buf: Seq<u8>)
    requires
        conforms(values, types),
        0 <= k <= values.len(),
        buf.len() >= field_offset(types, values.len() as int),
        buf.len() <= usize::MAX,
    ensures
        spec_serialize_prefix(values, k, buf) == (
            Ok::<usize, SerializeError>(field_offset(types, k) as usize),
            record_bytes(values, k) + buf.skip(field_offset(types, k) as int),
        ),
        field_offset(types, k) <= field_offset(types, values.len() as int),
    decreases k,
{
    lemma_record_bytes(values, types, k, k);
    if k > 0 {
        lemma_record_serialize(values, types, k - 1, buf);
        lemma_offset_grows(types, k, values.len() as int);
        let off = field_offset(types, k - 1);
        let v = values[k - 1];
        lemma_field_writes_bytes(v, buf.skip(off as int));
        let b = record_bytes(values, k - 1) + buf.skip(off as int);
        lemma_record_bytes(values, types, k - 1, k - 1);
        assert(b.skip(off as int) =~= buf.skip(off as int));
        assert(b.take(off as int) =~= record_bytes(values, k - 1));
        assert(buf.skip(off as int).skip(field_bytes(v).len() as int) =~= buf.skip(field_offset(types, k) as int));
        assert(record_bytes(values, k - 1) + (field_bytes(v) + buf.skip(field_offset(types, k) as int))
            =~= record_bytes(values, k) + buf.skip(field_offset(types, k) as int));
    } else {
        lemma_offset_grows(types, 0, values.len() as int);
        assert(record_bytes(values, 0) + buf.skip(0) =~= buf);
    }
}

/// Field offsets never decrease.
pub proof fn lemma_offset_grows(types: Seq<FieldType>, j: int, k: int)
    requires
        0 <= j <= k,
    ensures
        field_offset(types, j) <= field_offset(types, k),
    decreases k,
{
    if k > j {
        lemma_offset_grows(types, j, k - 1);
    }
}


/// A field value decodes from its own bytes.
pub proof fn lemma_field_bytes_decode(v: FieldValue)
    ensures
        spec_decode_field(v.spec_field_type(), field_bytes(v)) == Ok::<FieldValue, DeserializeError>(v),
{
    let fb = field_bytes(v);
    lemma_field_writes_bytes(v, fb);
    lemma_round_trip(v, fb);
    assert(fb + fb.skip(fb.len() as int) =~= fb);
}

/// Decoding the first `k` fields of bytes that start with a record's
/// encoding gives back the record's first `k` values.
pub proof fn lemma_record_decode(values: Seq<FieldValue>, types: Seq<FieldType>, k: int, bytes: Seq<u8>)
    requires
        conforms(values, types),
        0 <= k <= values.len(),
        bytes.take(field_offset(types, values.len() as int) as int) == record_bytes(values, values.len() as int),
        bytes.len() >= field_offset(types, values.len() as int),
    ensures
        spec_decode_prefix(types, bytes, k) == Ok::<Seq<FieldValue>, DeserializeError>(values.take(k)),
    decreases k,
{
    let n = values.len() as int;
    if k > 0 {
        lemma_record_decode(values, types, k - 1, bytes);
        let v = values[k - 1];
        let t = types[k - 1];
        let off = field_offset(types, k - 1) as int;
        let w = t.spec_width() as int;
        lemma_record_bytes(values, types, k, n);
        lemma_record_bytes(values, types, k - 1, k - 1);
        lemma_field_writes_bytes(v, Seq::empty());
        assert(bytes.skip(off).take(w) =~= field_bytes(v)) by {
            assert(record_bytes(values, n).take(off + w) == record_bytes(values, k));
            assert(bytes.skip(off).take(w) =~= record_bytes(values, k).skip(off));
            assert(record_bytes(values, k).skip(off) =~= field_bytes(v));
        }
        lemma_decode_field_reads_width(t, bytes.skip(off));
        lemma_decode_field_reads_width(t, field_bytes(v));
        assert(field_bytes(v).take(w) =~= field_bytes(v));
        lemma_field_bytes_decode(v);
        assert(values.take(k - 1).push(v) =~= values.take(k));
    } else {
        assert(values.take(0) =~= Seq::<FieldValue>::empty());
    }
}

/// A record written field by field into a buffer large enough for all its
/// fields is the concatenation of the field encodings in declaration order,
/// followed by the untouched rest of the buffer; decoding those bytes with
/// the same field types gives back the same record.
pub proof fn lemma_record_round_trip(types: Seq<FieldType>, values: Seq<FieldValue>, buf: Seq<u8>)
    requires
        conforms(values, types),
        buf.len() >= field_offset(types, types.len() as int),
        buf.len() <= usize::MAX,
    ensures
        spec_serialize_prefix(values, values.len() as int, buf) == (
            Ok::<usize, SerializeError>(field_offset(types, types.len() as int) as usize),
            record_bytes(values, values.len() as int) + buf.skip(field_offset(types, types.len() as int) as int),
        ),
        spec_decode_prefix(types, spec_serialize_prefix(values, values.len() as int, buf).1, types.len() as int)
            == Ok::<Seq<FieldValue>, DeserializeError>(values),
{
    let n = values.len() as int;
    lemma_record_serialize(values, types, n, buf);
    lemma_record_bytes(values, types, n, n);
    let out = record_bytes(values, n) + buf.skip(field_offset(types, n) as int);
    assert(out.take(field_offset(types, n) as int) =~= record_bytes(values, n));
    lemma_record_decode(values, types, n, out);
    assert(values.take(n) =~= values);
}

} // verus!

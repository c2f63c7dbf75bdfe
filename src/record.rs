use vstd::prelude::*;

use crate::codec::{
    serialize_all, spec_serialize_prefix, Deserialize,
    DeserializeError, Serialize, SerializeError,
};

verus! {

broadcast use vstd::layout::layout_of_primitives;

/// The declared type of one field of a record.
#[derive(Debug, Clone, Copy, PartialEq, Eq, Structural)]
pub enum FieldType {
    U8,
    U16,
    U32,
    I8,
    I16,
    I32,
    Bool,
}

/// The value of one field of a record.
#[derive(Debug, Clone, Copy, PartialEq, Eq, Structural)]
pub enum FieldValue {
    U8(u8),
    U16(u16),
    U32(u32),
    I8(i8),
    I16(i16),
    I32(i32),
    Bool(bool),
}

impl FieldType {
    /// The in-memory size of the field's type, which is also its encoded width.
    pub open spec fn spec_width(self) -> nat {
        match self {
            FieldType::U8 | FieldType::I8 | FieldType::Bool => 1,
            FieldType::U16 | FieldType::I16 => 2,
            FieldType::U32 | FieldType::I32 => 4,
        }
    }

    /// The in-memory size of the field's type.
    pub fn width(&self) -> (r: usize)
        ensures
            r == self.spec_width(),
    {
        match self {
            FieldType::U8 => core::mem::size_of::<u8>(),
            FieldType::U16 => core::mem::size_of::<u16>(),
            FieldType::U32 => core::mem::size_of::<u32>(),
            FieldType::I8 => core::mem::size_of::<i8>(),
            FieldType::I16 => core::mem::size_of::<i16>(),
            FieldType::I32 => core::mem::size_of::<i32>(),
            FieldType::Bool => core::mem::size_of::<bool>(),
        }
    }
}


impl FieldValue {
    /// The declared type that this value belongs to.
    pub open spec fn spec_field_type(self) -> FieldType {
        match self {
            FieldValue::U8(_) => FieldType::U8,
            FieldValue::U16(_) => FieldType::U16,
            FieldValue::U32(_) => FieldType::U32,
            FieldValue::I8(_) => FieldType::I8,
            FieldValue::I16(_) => FieldType::I16,
            FieldValue::I32(_) => FieldType::I32,
            FieldValue::Bool(_) => FieldType::Bool,
        }
    }
}

impl Serialize for FieldValue {
    open spec fn spec_serialize(&self, buf: Seq<u8>) -> (Result<usize, SerializeError>, Seq<u8>) {
        match *self {
            FieldValue::U8(v) => v.spec_serialize(buf),
            FieldValue::U16(v) => v.spec_serialize(buf),
            FieldValue::U32(v) => v.spec_serialize(buf),
            FieldValue::I8(v) => v.spec_serialize(buf),
            FieldValue::I16(v) => v.spec_serialize(buf),
            FieldValue::I32(v) => v.spec_serialize(buf),
            FieldValue::Bool(v) => v.spec_serialize(buf),
        }
    }

    proof fn lemma_serialize_bounds(&self, buf: Seq<u8>) {
    }

    fn serialize(&self, buf: &mut [u8]) -> (r: Result<usize, SerializeError>) {
        match self {
            FieldValue::U8(v) => v.serialize(buf),
            FieldValue::U16(v) => v.serialize(buf),
            FieldValue::U32(v) => v.serialize(buf),
            FieldValue::I8(v) => v.serialize(buf),
            FieldValue::I16(v) => v.serialize(buf),
            FieldValue::I32(v) => v.serialize(buf),
            FieldValue::Bool(v) => v.serialize(buf),
        }
    }
}

/// Wraps the outcome of a primitive decode into a field value.
pub open spec fn lift<T>(r: Result<T, DeserializeError>, wrap: spec_fn(T) -> FieldValue) -> Result<FieldValue, DeserializeError> {
    match r {
        Ok(v) => Ok(wrap(v)),
        Err(e) => Err(e),
    }
}

/// Outcome of decoding one field of type `t` from the start of `bytes`.
pub open spec fn spec_decode_field(t: FieldType, bytes: Seq<u8>) -> Result<FieldValue, DeserializeError> {
    match t {
        FieldType::U8 => lift(u8::spec_deserialize(bytes), |v: u8| FieldValue::U8(v)),
        FieldType::U16 => lift(u16::spec_deserialize(bytes), |v: u16| FieldValue::U16(v)),
        FieldType::U32 => lift(u32::spec_deserialize(bytes), |v: u32| FieldValue::U32(v)),
        FieldType::I8 => lift(i8::spec_deserialize(bytes), |v: i8| FieldValue::I8(v)),
        FieldType::I16 => lift(i16::spec_deserialize(bytes), |v: i16| FieldValue::I16(v)),
        FieldType::I32 => lift(i32::spec_deserialize(bytes), |v: i32| FieldValue::I32(v)),
        FieldType::Bool => lift(bool::spec_deserialize(bytes), |v: bool| FieldValue::Bool(v)),
    }
}

/// Decodes one field of type `t` from the start of `buf`, through the
/// `Deserialize` implementation of that type.
pub fn decode_field(t: FieldType, buf: &[u8]) -> (r: Result<FieldValue, DeserializeError>)
    ensures
        r == spec_decode_field(t, buf@),
        r matches Ok(v) ==> v.spec_field_type() == t && t.spec_width() <= buf@.len(),
{
    match t {
        FieldType::U8 => match u8::deserialize(buf) {
            Ok(v) => Ok(FieldValue::U8(v)),
            Err(e) => Err(e),
        },
        FieldType::U16 => match u16::deserialize(buf) {
            Ok(v) => Ok(FieldValue::U16(v)),
            Err(e) => Err(e),
        },
        FieldType::U32 => match u32::deserialize(buf) {
            Ok(v) => Ok(FieldValue::U32(v)),
            Err(e) => Err(e),
        },
        FieldType::I8 => match i8::deserialize(buf) {
            Ok(v) => Ok(FieldValue::I8(v)),
            Err(e) => Err(e),
        },
        FieldType::I16 => match i16::deserialize(buf) {
            Ok(v) => Ok(FieldValue::I16(v)),
            Err(e) => Err(e),
        },
        FieldType::I32 => match i32::deserialize(buf) {
            Ok(v) => Ok(FieldValue::I32(v)),
            Err(e) => Err(e),
        },
        FieldType::Bool => match bool::deserialize(buf) {
            Ok(v) => Ok(FieldValue::Bool(v)),
            Err(e) => Err(e),
        },
    }
}


/// The fields of a record type, in declaration order.
#[derive(Debug)]
pub enum Fields {
    /// Fields with names: `struct S { a: u16, b: u8 }`.
    Named(Vec<FieldType>),
    /// Positional fields: `struct S(u16, u8);`.
    Unnamed(Vec<FieldType>),
    /// No fields: `struct S;`.
    Unit,
}

/// The shape of a type definition that a codec is asked for.
#[derive(Debug)]
pub enum TypeShape {
    /// A plain record type.
    Struct(Fields),
    /// A tagged union.
    Enum,
    /// An untagged union.
    Union,
}

/// Which capability was asked for.
#[derive(Debug, Clone, Copy, PartialEq, Eq, Structural)]
pub enum Capability {
    Serialize,
    Deserialize,
}

/// A shape that no codec can be generated for.
#[derive(Debug, Clone, Copy, PartialEq, Eq, Structural)]
pub enum RejectedShape {
    Enum,
    Union,
}

/// Generation refused a type that is not a plain record.
#[derive(Debug, Clone, Copy, PartialEq, Eq, Structural)]
pub struct DeriveError {
    pub capability: Capability,
    pub shape: RejectedShape,
}

impl DeriveError {
    /// The diagnostic, naming the capability and the unsupported shape.
    pub fn message(&self) -> (r: &'static str)
        ensures
            self.capability == Capability::Serialize && self.shape == RejectedShape::Enum
                ==> r@ == "Serialize can only be derived for structs, not enums"@,
            self.capability == Capability::Serialize && self.shape == RejectedShape::Union
                ==> r@ == "Serialize can only be derived for structs, not unions"@,
            self.capability == Capability::Deserialize && self.shape == RejectedShape::Enum
                ==> r@ == "Deserialize can only be derived for structs, not enums"@,
            self.capability == Capability::Deserialize && self.shape == RejectedShape::Union
                ==> r@ == "Deserialize can only be derived for structs, not unions"@,
    {
        match (self.capability, self.shape) {
            (Capability::Serialize, RejectedShape::Enum) => "Serialize can only be derived for structs, not enums",
            (Capability::Serialize, RejectedShape::Union) => "Serialize can only be derived for structs, not unions",
            (Capability::Deserialize, RejectedShape::Enum) => "Deserialize can only be derived for structs, not enums",
            (Capability::Deserialize, RejectedShape::Union) => "Deserialize can only be derived for structs, not unions",
        }
    }
}

/// The field types of a record, in declaration order.
pub open spec fn field_types(f: Fields) -> Seq<FieldType> {
    match f {
        Fields::Named(v) => v@,
        Fields::Unnamed(v) => v@,
        Fields::Unit => Seq::empty(),
    }
}

/// The outcome of generating `capability` for `shape`: the record's field
/// types, or the rejected shape.
pub open spec fn spec_derive(capability: Capability, shape: TypeShape) -> Result<Seq<FieldType>, DeriveError> {
    match shape {
        TypeShape::Struct(f) => Ok(field_types(f)),
        TypeShape::Enum => Err(DeriveError { capability, shape: RejectedShape::Enum }),
        TypeShape::Union => Err(DeriveError { capability, shape: RejectedShape::Union }),
    }
}

/// The codec of one record type: its field types in declaration order. It
/// encodes a record as the concatenation of its fields' encodings and decodes
/// the fields in the same order.
#[derive(Debug)]
pub struct RecordCodec {
    pub fields: Vec<FieldType>,
}

/// Whether `values` is a record of the field types `types`.
pub open spec fn conforms(values: Seq<FieldValue>, types: Seq<FieldType>) -> bool {
    &&& values.len() == types.len()
    &&& forall|i: int| 0 <= i < values.len() ==> (#[trigger] values[i]).spec_field_type() == types[i]
}

/// The byte offset of field `k`: the sum of the in-memory sizes of the
/// fields before it.
pub open spec fn field_offset(types: Seq<FieldType>, k: int) -> nat
    decreases k,
{
    if k <= 0 {
        0
    } else {
        field_offset(types, k - 1) + types[k - 1].spec_width()
    }
}

/// Outcome of decoding the first `k` fields of `types` from `bytes`, field
/// `i` starting at `field_offset(types, i)`; the first failure stops the walk.
pub open spec fn spec_decode_prefix(types: Seq<FieldType>, bytes: Seq<u8>, k: int) -> Result<Seq<FieldValue>, DeserializeError>
    decreases k,
{
    if k <= 0 {
        Ok(Seq::empty())
    } else {
        match spec_decode_prefix(types, bytes, k - 1) {
            Err(e) => Err(e),
            Ok(s) => match spec_decode_field(types[k - 1], bytes.skip(field_offset(types, k - 1) as int)) {
                Ok(v) => Ok(s.push(v)),
                Err(e) => Err(e),
            },
        }
    }
}

/// Once a prefix fails, every longer prefix fails with the same error.
pub proof fn lemma_decode_prefix_stops(types: Seq<FieldType>, bytes: Seq<u8>, k: int, m: int)
    requires
        0 < k <= m,
        spec_decode_prefix(types, bytes, k) is Err,
    ensures
        spec_decode_prefix(types, bytes, m) == spec_decode_prefix(types, bytes, k),
    decreases m - k,
{
    if m > k {
        lemma_decode_prefix_stops(types, bytes, k, m - 1);
    }
}

/// Generates the serializing codec for a type of the given shape; a type
/// that is not a plain record is refused.
pub fn derive_serialize(shape: &TypeShape) -> (r: Result<RecordCodec, DeriveError>)
    ensures
        match spec_derive(Capability::Serialize, *shape) {
            Ok(types) => r matches Ok(c) && c.fields@ == types,
            Err(e) => r == Err::<RecordCodec, DeriveError>(e),
        },
{
    derive_codec(Capability::Serialize, shape)
}

/// Generates the deserializing codec for a type of the given shape; a type
/// that is not a plain record is refused.
pub fn derive_deserialize(shape: &TypeShape) -> (r: Result<RecordCodec, DeriveError>)
    ensures
        match spec_derive(Capability::Deserialize, *shape) {
            Ok(types) => r matches Ok(c) && c.fields@ == types,
            Err(e) => r == Err::<RecordCodec, DeriveError>(e),
        },
{
    derive_codec(Capability::Deserialize, shape)
}

fn derive_codec(capability: Capability, shape: &TypeShape) -> (r: Result<RecordCodec, DeriveError>)
    ensures
        match spec_derive(capability, *shape) {
            Ok(types) => r matches Ok(c) && c.fields@ == types,
            Err(e) => r == Err::<RecordCodec, DeriveError>(e),
        },
{
    match shape {
        TypeShape::Struct(fields) => {
            let types = match fields {
                Fields::Named(v) => v.clone(),
                Fields::Unnamed(v) => v.clone(),
                Fields::Unit => Vec::new(),
            };
            Ok(RecordCodec { fields: types })
        },
        TypeShape::Enum => Err(DeriveError { capability, shape: RejectedShape::Enum }),
        TypeShape::Union => Err(DeriveError { capability, shape: RejectedShape::Union }),
    }
}

impl RecordCodec {
    /// Serializes the record `values` into `buf`, field by field in
    /// declaration order, each where the previous one ended; stops at the
    /// first failure, leaving earlier fields written.
    pub fn serialize(&self, values: &[FieldValue], buf: &mut [u8]) -> (r: Result<usize, SerializeError>)
        requires
            conforms(values@, self.fields@),
        ensures
            (r, final(buf)@) == spec_serialize_prefix(values@, values@.len() as int, old(buf)@),
    {
        serialize_all(values, buf)
    }

    /// Deserializes a record from `buf`: each field is decoded in
    /// declaration order, starting the in-memory size of the previous
    /// field's type after it; stops at the first failure.
    pub fn deserialize(&self, buf: &[u8]) -> (r: Result<Vec<FieldValue>, DeserializeError>)
        ensures
            match spec_decode_prefix(self.fields@, buf@, self.fields@.len() as int) {
                Ok(s) => r matches Ok(v) && v@ == s,
                Err(e) => r == Err::<Vec<FieldValue>, DeserializeError>(e),
            },
    {
        let mut values: Vec<FieldValue> = Vec::new();
        let mut offset: usize = 0;
        let mut i: usize = 0;
        while i < self.fields.len()
            invariant
                0 <= i <= self.fields@.len(),
                offset == field_offset(self.fields@, i as int),
                offset <= buf@.len(),
                spec_decode_prefix(self.fields@, buf@, i as int) == Ok::<Seq<FieldValue>, DeserializeError>(values@),
            decreases self.fields@.len() - i,
        {
            let t = self.fields[i];
            let (_, rest) = buf.split_at(offset);
            assert(rest@ =~= buf@.skip(offset as int));
            match decode_field(t, rest) {
                Ok(v) => {
                    values.push(v);
                    assert(t.spec_width() <= buf@.len() - offset);
                    assert(buf@.len() == buf.len());
                    assert(values@ =~= spec_decode_prefix(self.fields@, buf@, i as int).unwrap().push(v));
                    offset = offset + t.width();
                },
                Err(e) => {
                    proof {
                        lemma_decode_prefix_stops(self.fields@, buf@, i + 1, self.fields@.len() as int);
                    }
                    return Err(e);
                },
            }
            i = i + 1;
        }
        Ok(values)
    }
}

} // verus!

use vstd::prelude::*;

verus! {

/// Errors that can occur during serialization.
#[derive(Debug)]
pub enum SerializeError {
    /// The buffer has fewer bytes than the value needs.
    BufferTooSmall,
    /// A failure defined by an implementation of `Serialize`.
    Custom(&'static str),
}

/// Errors that can occur during deserialization.
#[derive(Debug)]
pub enum DeserializeError {
    /// The buffer has fewer bytes than the value needs.
    BufferTooSmall,
    /// The bytes lie outside the legal domain of the type.
    InvalidData,
    /// A failure defined by an implementation of `Deserialize`.
    Custom(&'static str),
}

/// Serialize data to bytes.
pub trait Serialize {
    /// Outcome of serializing `self` into a buffer holding `buf`: the result
    /// and the buffer's contents afterwards.
    spec fn spec_serialize(&self, buf: Seq<u8>) -> (Result<usize, SerializeError>, Seq<u8>);

    /// Serializing never changes the buffer's length and never reports more
    /// bytes than the buffer holds.
    proof fn lemma_serialize_bounds(&self, buf: Seq<u8>)
        ensures
            self.spec_serialize(buf).1.len() == buf.len(),
            self.spec_serialize(buf).0 matches Ok(n) ==> n <= buf.len(),
    ;

    /// Serializes the data into the provided buffer, starting at its first
    /// byte. Returns the number of bytes written.
    fn serialize(&self, buf: &mut [u8]) -> (r: Result<usize, SerializeError>)
        ensures
            (r, final(buf)@) == self.spec_serialize(old(buf)@),
    ;
}

/// Deserialize data from bytes.
pub trait Deserialize: Sized {
    /// Outcome of deserializing a value from the bytes `bytes`.
    spec fn spec_deserialize(bytes: Seq<u8>) -> Result<Self, DeserializeError>;

    /// Deserializes a value from the provided buffer, starting at its first
    /// byte.
    fn deserialize(buf: &[u8]) -> (r: Result<Self, DeserializeError>)
        ensures
            r == Self::spec_deserialize(buf@),
    ;
}

/// Outcome of writing the fixed encoding `enc` at the start of `buf`: it is
/// written whole when it fits, and the buffer is left untouched otherwise.
pub open spec fn write_fixed(enc: Seq<u8>, buf: Seq<u8>) -> (Result<usize, SerializeError>, Seq<u8>) {
    if buf.len() < enc.len() {
        (Err(SerializeError::BufferTooSmall), buf)
    } else {
        (Ok(enc.len() as usize), enc + buf.skip(enc.len() as int))
    }
}

impl Serialize for u8 {
    open spec fn spec_serialize(&self, buf: Seq<u8>) -> (Result<usize, SerializeError>, Seq<u8>) {
        write_fixed(seq![*self], buf)
    }

    proof fn lemma_serialize_bounds(&self, buf: Seq<u8>) {
    }

    fn serialize(&self, buf: &mut [u8]) -> (r: Result<usize, SerializeError>) {
        if buf.len() < 1 {
            return Err(SerializeError::BufferTooSmall);
        }
        buf[0] = *self;
        assert(buf@ =~= seq![*self] + old(buf)@.skip(1));
        Ok(1)
    }
}


/// Big-endian bytes of a 16-bit value.
pub open spec fn be16(v: u16) -> Seq<u8> {
    seq![(v >> 8) as u8, v as u8]
}

/// Big-endian bytes of a 32-bit value.
pub open spec fn be32(v: u32) -> Seq<u8> {
    seq![(v >> 24) as u8, (v >> 16) as u8, (v >> 8) as u8, v as u8]
}

/// The 16-bit value whose big-endian bytes start `b`.
pub open spec fn from_be16(b: Seq<u8>) -> u16 {
    ((b[0] as u16) << 8) | (b[1] as u16)
}

/// The 32-bit value whose big-endian bytes start `b`.
pub open spec fn from_be32(b: Seq<u8>) -> u32 {
    ((b[0] as u32) << 24) | ((b[1] as u32) << 16) | ((b[2] as u32) << 8) | (b[3] as u32)
}

/// Outcome of reading a fixed-width value from `bytes`: `BufferTooSmall`
/// when fewer than `width` bytes are there, else `value`.
pub open spec fn read_fixed<T>(bytes: Seq<u8>, width: nat, value: T) -> Result<T, DeserializeError> {
    if bytes.len() < width {
        Err(DeserializeError::BufferTooSmall)
    } else {
        Ok(value)
    }
}

impl Deserialize for u8 {
    open spec fn spec_deserialize(bytes: Seq<u8>) -> Result<u8, DeserializeError> {
        read_fixed(bytes, 1, bytes[0])
    }

    fn deserialize(buf: &[u8]) -> (r: Result<u8, DeserializeError>) {
        if buf.len() < 1 {
            return Err(DeserializeError::BufferTooSmall);
        }
        Ok(buf[0])
    }
}

impl Serialize for u16 {
    open spec fn spec_serialize(&self, buf: Seq<u8>) -> (Result<usize, SerializeError>, Seq<u8>) {
        write_fixed(be16(*self), buf)
    }

    proof fn lemma_serialize_bounds(&self, buf: Seq<u8>) {
    }

    fn serialize(&self, buf: &mut [u8]) -> (r: Result<usize, SerializeError>) {
        if buf.len() < 2 {
            return Err(SerializeError::BufferTooSmall);
        }
        let v: u16 = *self;
        buf[0] = (v >> 8) as u8;
        buf[1] = v as u8;
        assert(buf@ =~= be16(v) + old(buf)@.skip(2));
        Ok(2)
    }
}

impl Deserialize for u16 {
    open spec fn spec_deserialize(bytes: Seq<u8>) -> Result<u16, DeserializeError> {
        read_fixed(bytes, 2, from_be16(bytes))
    }

    fn deserialize(buf: &[u8]) -> (r: Result<u16, DeserializeError>) {
        if buf.len() < 2 {
            return Err(DeserializeError::BufferTooSmall);
        }
        let b0: u8 = buf[0];
        let b1: u8 = buf[1];
        Ok(((b0 as u16) << 8) | (b1 as u16))
    }
}

impl Serialize for u32 {
    open spec fn spec_serialize(&self, buf: Seq<u8>) -> (Result<usize, SerializeError>, Seq<u8>) {
        write_fixed(be32(*self), buf)
    }

    proof fn lemma_serialize_bounds(&self, buf: Seq<u8>) {
    }

    fn serialize(&self, buf: &mut [u8]) -> (r: Result<usize, SerializeError>) {
        if buf.len() < 4 {
            return Err(SerializeError::BufferTooSmall);
        }
        let v: u32 = *self;
        buf[0] = (v >> 24) as u8;
        buf[1] = (v >> 16) as u8;
        buf[2] = (v >> 8) as u8;
        buf[3] = v as u8;
        assert(buf@ =~= be32(v) + old(buf)@.skip(4));
        Ok(4)
    }
}

impl Deserialize for u32 {
    open spec fn spec_deserialize(bytes: Seq<u8>) -> Result<u32, DeserializeError> {
        read_fixed(bytes, 4, from_be32(bytes))
    }

    fn deserialize(buf: &[u8]) -> (r: Result<u32, DeserializeError>) {
        if buf.len() < 4 {
            return Err(DeserializeError::BufferTooSmall);
        }
        let b0: u8 = buf[0];
        let b1: u8 = buf[1];
        let b2: u8 = buf[2];
        let b3: u8 = buf[3];
        Ok(((b0 as u32) << 24) | ((b1 as u32) << 16) | ((b2 as u32) << 8) | (b3 as u32))
    }
}

impl Serialize for i8 {
    open spec fn spec_serialize(&self, buf: Seq<u8>) -> (Result<usize, SerializeError>, Seq<u8>) {
        write_fixed(seq![*self as u8], buf)
    }

    proof fn lemma_serialize_bounds(&self, buf: Seq<u8>) {
    }

    fn serialize(&self, buf: &mut [u8]) -> (r: Result<usize, SerializeError>) {
        if buf.len() < 1 {
            return Err(SerializeError::BufferTooSmall);
        }
        buf[0] = *self as u8;
        assert(buf@ =~= seq![*self as u8] + old(buf)@.skip(1));
        Ok(1)
    }
}

impl Deserialize for i8 {
    open spec fn spec_deserialize(bytes: Seq<u8>) -> Result<i8, DeserializeError> {
        read_fixed(bytes, 1, bytes[0] as i8)
    }

    fn deserialize(buf: &[u8]) -> (r: Result<i8, DeserializeError>) {
        if buf.len() < 1 {
            return Err(DeserializeError::BufferTooSmall);
        }
        Ok(buf[0] as i8)
    }
}

impl Serialize for i16 {
    open spec fn spec_serialize(&self, buf: Seq<u8>) -> (Result<usize, SerializeError>, Seq<u8>) {
        write_fixed(be16(*self as u16), buf)
    }

    proof fn lemma_serialize_bounds(&self, buf: Seq<u8>) {
    }

    fn serialize(&self, buf: &mut [u8]) -> (r: Result<usize, SerializeError>) {
        let u_val: u16 = (*self) as u16;
        u_val.serialize(buf)
    }
}

impl Deserialize for i16 {
    open spec fn spec_deserialize(bytes: Seq<u8>) -> Result<i16, DeserializeError> {
        read_fixed(bytes, 2, from_be16(bytes) as i16)
    }

    fn deserialize(buf: &[u8]) -> (r: Result<i16, DeserializeError>) {
        let u_val = u16::deserialize(buf)?;
        Ok(u_val as i16)
    }
}

impl Serialize for i32 {
    open spec fn spec_serialize(&self, buf: Seq<u8>) -> (Result<usize, SerializeError>, Seq<u8>) {
        write_fixed(be32(*self as u32), buf)
    }

    proof fn lemma_serialize_bounds(&self, buf: Seq<u8>) {
    }

    fn serialize(&self, buf: &mut [u8]) -> (r: Result<usize, SerializeError>) {
        let u_val: u32 = (*self) as u32;
        u_val.serialize(buf)
    }
}

impl Deserialize for i32 {
    open spec fn spec_deserialize(bytes: Seq<u8>) -> Result<i32, DeserializeError> {
        read_fixed(bytes, 4, from_be32(bytes) as i32)
    }

    fn deserialize(buf: &[u8]) -> (r: Result<i32, DeserializeError>) {
        let u_val = u32::deserialize(buf)?;
        Ok(u_val as i32)
    }
}

/// The byte that encodes a boolean.
pub open spec fn bool_byte(b: bool) -> u8 {
    if b { 1 } else { 0 }
}

impl Serialize for bool {
    open spec fn spec_serialize(&self, buf: Seq<u8>) -> (Result<usize, SerializeError>, Seq<u8>) {
        write_fixed(seq![bool_byte(*self)], buf)
    }

    proof fn lemma_serialize_bounds(&self, buf: Seq<u8>) {
    }

    fn serialize(&self, buf: &mut [u8]) -> (r: Result<usize, SerializeError>) {
        if buf.len() == 0 {
            return Err(SerializeError::BufferTooSmall);
        }
        buf[0] = if *self { 1 } else { 0 };
        assert(buf@ =~= seq![bool_byte(*self)] + old(buf)@.skip(1));
        Ok(1)
    }
}

impl Deserialize for bool {
    open spec fn spec_deserialize(bytes: Seq<u8>) -> Result<bool, DeserializeError> {
        if bytes.len() < 1 {
            Err(DeserializeError::BufferTooSmall)
        } else if bytes[0] == 0 {
            Ok(false)
        } else if bytes[0] == 1 {
            Ok(true)
        } else {
            Err(DeserializeError::InvalidData)
        }
    }

    fn deserialize(buf: &[u8]) -> (r: Result<bool, DeserializeError>) {
        if buf.len() == 0 {
            return Err(DeserializeError::BufferTooSmall);
        }
        match buf[0] {
            0 => Ok(false),
            1 => Ok(true),
            _ => Err(DeserializeError::InvalidData),
        }
    }
}


/// Outcome of serializing the first `k` of `items` one after another into a
/// buffer holding `buf`: each item is written where the previous one ended,
/// and the first failure stops the walk, leaving earlier items written.
pub open spec fn spec_serialize_prefix<T: Serialize>(items: Seq<T>, k: int, buf: Seq<u8>) -> (Result<usize, SerializeError>, Seq<u8>)
    decreases k,
{
    if k <= 0 {
        (Ok(0), buf)
    } else {
        let before = spec_serialize_prefix(items, k - 1, buf);
        match before.0 {
            Err(e) => before,
            Ok(off) => {
                let step = items[k - 1].spec_serialize(before.1.skip(off as int));
                let out = before.1.take(off as int) + step.1;
                match step.0 {
                    Ok(n) => (Ok((off + n) as usize), out),
                    Err(e) => (Err(e), out),
                }
            },
        }
    }
}

/// Serializing a prefix of items keeps the buffer's length and never reports
/// more bytes than the buffer holds.
pub proof fn lemma_serialize_prefix_bounds<T: Serialize>(items: Seq<T>, k: int, buf: Seq<u8>)
    requires
        k <= items.len(),
    ensures
        spec_serialize_prefix(items, k, buf).1.len() == buf.len(),
        spec_serialize_prefix(items, k, buf).0 matches Ok(n) ==> n <= buf.len(),
    decreases k,
{
    if k > 0 {
        lemma_serialize_prefix_bounds(items, k - 1, buf);
        let before = spec_serialize_prefix(items, k - 1, buf);
        if let Ok(off) = before.0 {
            items[k - 1].lemma_serialize_bounds(before.1.skip(off as int));
        }
    }
}

/// Once a prefix fails, every longer prefix fails with the same error and
/// leaves the same bytes.
pub proof fn lemma_serialize_prefix_stops<T: Serialize>(items: Seq<T>, k: int, m: int, buf: Seq<u8>)
    requires
        0 < k <= m,
        spec_serialize_prefix(items, k, buf).0 is Err,
    ensures
        spec_serialize_prefix(items, m, buf) == spec_serialize_prefix(items, k, buf),
    decreases m - k,
{
    if m > k {
        lemma_serialize_prefix_stops(items, k, m - 1, buf);
    }
}

/// Serializes `items` one after another into `buf`, each starting where the
/// previous one ended; stops at the first failure. Returns the total number of
/// bytes written.
pub fn serialize_all<T: Serialize>(items: &[T], buf: &mut [u8]) -> (r: Result<usize, SerializeError>)
    ensures
        (r, final(buf)@) == spec_serialize_prefix(items@, items@.len() as int, old(buf)@),
{
    let mut total: usize = 0;
    let mut i: usize = 0;
    while i < items.len()
        invariant
            0 <= i <= items@.len(),
            spec_serialize_prefix(items@, i as int, old(buf)@) == (Ok::<usize, SerializeError>(total), buf@),
            total <= buf@.len(),
            buf@.len() == old(buf)@.len(),
        decreases items@.len() - i,
    {
        proof {
            lemma_serialize_prefix_bounds(items@, i + 1, old(buf)@);
        }
        let ghost prev = buf@;
        let ghost step = items@[i as int].spec_serialize(prev.skip(total as int));
        proof {
            items@[i as int].lemma_serialize_bounds(prev.skip(total as int));
        }
        let (head, tail) = buf.split_at_mut(total);
        assert(tail@ =~= prev.skip(total as int));
        let res = items[i].serialize(tail);
        assert(buf@ =~= prev.take(total as int) + step.1);
        assert(res == step.0);
        match res {
            Ok(size) => {
                assert(size <= prev.skip(total as int).len());
                assert(prev.len() == buf.len());
                total = total + size;
            },
            Err(e) => {
                proof {
                    lemma_serialize_prefix_stops(items@, i + 1, items@.len() as int, old(buf)@);
                }
                return Err(e);
            },
        }
        i = i + 1;
    }
    Ok(total)
}


impl<T: Serialize, const N: usize> Serialize for [T; N] {
    open spec fn spec_serialize(&self, buf: Seq<u8>) -> (Result<usize, SerializeError>, Seq<u8>) {
        spec_serialize_prefix(self@, N as int, buf)
    }

    proof fn lemma_serialize_bounds(&self, buf: Seq<u8>) {
        lemma_serialize_prefix_bounds(self@, N as int, buf);
    }

    fn serialize(&self, buf: &mut [u8]) -> (r: Result<usize, SerializeError>) {
        serialize_all(vstd::array::array_as_slice(self), buf)
    }
}

/// Outcome of deserializing `k` values one after another from `bytes`, the
/// `i`-th starting `i * stride` bytes in; the first failure stops the walk,
/// and a start beyond the end of `bytes` is `BufferTooSmall`.
pub open spec fn spec_deserialize_prefix<T: Deserialize>(bytes: Seq<u8>, stride: nat, k: int) -> Result<Seq<T>, DeserializeError>
    decreases k,
{
    if k <= 0 {
        Ok(Seq::empty())
    } else {
        match spec_deserialize_prefix::<T>(bytes, stride, k - 1) {
            Err(e) => Err(e),
            Ok(items) => {
                let start = (k - 1) * stride;
                if start > bytes.len() {
                    Err(DeserializeError::BufferTooSmall)
                } else {
                    match T::spec_deserialize(bytes.skip(start)) {
                        Ok(v) => Ok(items.push(v)),
                        Err(e) => Err(e),
                    }
                }
            },
        }
    }
}

/// Once a prefix fails, every longer prefix fails with the same error.
pub proof fn lemma_deserialize_prefix_stops<T: Deserialize>(bytes: Seq<u8>, stride: nat, k: int, m: int)
    requires
        0 < k <= m,
        spec_deserialize_prefix::<T>(bytes, stride, k) is Err,
    ensures
        spec_deserialize_prefix::<T>(bytes, stride, m) == spec_deserialize_prefix::<T>(bytes, stride, k),
    decreases m - k,
{
    if m > k {
        lemma_deserialize_prefix_stops::<T>(bytes, stride, k, m - 1);
    }
}

/// The array whose elements are `s`.
pub open spec fn array_of<T, const N: usize>(s: Seq<T>) -> [T; N] {
    choose|a: [T; N]| a@ == s
}

impl<T: Deserialize + Copy + Default, const N: usize> Deserialize for [T; N] {
    /// Elements are read in order, each starting the in-memory size of `T`
    /// after the previous one.
    open spec fn spec_deserialize(bytes: Seq<u8>) -> Result<[T; N], DeserializeError> {
        match spec_deserialize_prefix::<T>(bytes, vstd::layout::size_of::<T>(), N as int) {
            Ok(s) => Ok(array_of::<T, N>(s)),
            Err(e) => Err(e),
        }
    }

    fn deserialize(buf: &[u8]) -> (r: Result<[T; N], DeserializeError>) {
        let stride: usize = core::mem::size_of::<T>();
        let ghost w: nat = vstd::layout::size_of::<T>();
        let mut array: [T; N] = vstd::array::array_fill_for_copy_types(T::default());
        let mut offset: usize = 0;
        let mut i: usize = 0;
        assert(array@.take(0) =~= Seq::<T>::empty());
        while i < N
            invariant
                0 <= i <= N,
                stride as nat == w,
                w == vstd::layout::size_of::<T>(),
                i == 0 ==> offset == 0,
                i > 0 ==> offset <= buf@.len(),
                i > 0 ==> offset as int == (i - 1) * w,
                spec_deserialize_prefix::<T>(buf@, w, i as int) == Ok::<Seq<T>, DeserializeError>(array@.take(i as int)),
            decreases N - i,
        {
            if i > 0 {
                assert(i * w == (i - 1) * w + w) by (nonlinear_arith);
                if stride > buf.len() - offset {
                    assert(spec_deserialize_prefix::<T>(buf@, w, i + 1) == Err::<Seq<T>, DeserializeError>(DeserializeError::BufferTooSmall));
                    proof {
                        lemma_deserialize_prefix_stops::<T>(buf@, w, i + 1, N as int);
                    }
                    return Err(DeserializeError::BufferTooSmall);
                }
                offset = offset + stride;
            }
            assert(offset as int == i * w) by (nonlinear_arith)
                requires
                    i > 0 ==> offset as int == (i - 1) * w + w,
                    i == 0 ==> offset == 0;
            let (_, rest) = buf.split_at(offset);
            assert(rest@ =~= buf@.skip(offset as int));
            match T::deserialize(rest) {
                Ok(item) => {
                    let ghost before = array@;
                    array[i] = item;
                    assert(array@.take(i + 1) =~= before.take(i as int).push(item));
                    assert(spec_deserialize_prefix::<T>(buf@, w, i + 1) == Ok::<Seq<T>, DeserializeError>(before.take(i as int).push(item)));
                },
                Err(e) => {
                    assert(spec_deserialize_prefix::<T>(buf@, w, i + 1) == Err::<Seq<T>, DeserializeError>(e));
                    proof {
                        lemma_deserialize_prefix_stops::<T>(buf@, w, i + 1, N as int);
                    }
                    return Err(e);
                },
            }
            i = i + 1;
        }
        assert(array@.take(N as int) =~= array@);
        proof {
            let a = array_of::<T, N>(array@);
            assert(a@ == array@);
            assert(a =~= array);
        }
        Ok(array)
    }
}

} // verus!

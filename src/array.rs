use crate::bytes::{
    le_u16, le_u32, lemma_slice_len, lemma_u16_bytes_round_trip, lemma_u32_bytes_round_trip,
    read_u16_le, read_u32_le, u16_bytes, u32_bytes,
};
use crate::chunk::Chunk;
use crate::error::DecodeError;
use crate::text::utf8_string;
use vstd::prelude::*;
use vstd::utf8::{decode_utf8, valid_utf8};

verus! {

/// A value stored in a fixed number of bytes.
pub trait FixedLayout: Sized {
    /// How many bytes a value takes.
    spec fn spec_size() -> nat;

    /// The value that `b` (of `spec_size()` bytes) holds.
    spec fn spec_from_bytes(b: Seq<u8>) -> Self;

    /// The bytes that store `v`.
    spec fn spec_to_bytes(v: Self) -> Seq<u8>;

    /// Storing a value read from bytes gives those bytes back.
    proof fn lemma_round_trip(b: Seq<u8>)
        requires
            b.len() == Self::spec_size(),
        ensures
            Self::spec_to_bytes(Self::spec_from_bytes(b)) == b,
    ;

    fn byte_size() -> (r: usize)
        ensures
            r as nat == Self::spec_size(),
            r > 0,
    ;

    fn read_at(data: &[u8], pos: usize) -> (r: Self)
        requires
            pos + Self::spec_size() <= data@.len(),
        ensures
            r == Self::spec_from_bytes(data@.subrange(pos as int, pos + Self::spec_size())),
    ;
}

impl FixedLayout for u8 {
    open spec fn spec_size() -> nat {
        1
    }

    open spec fn spec_from_bytes(b: Seq<u8>) -> u8 {
        b[0]
    }

    open spec fn spec_to_bytes(v: u8) -> Seq<u8> {
        seq![v]
    }

    proof fn lemma_round_trip(b: Seq<u8>) {
        assert(seq![b[0]] =~= b);
    }

    fn byte_size() -> (r: usize) {
        1
    }

    fn read_at(data: &[u8], pos: usize) -> (r: u8) {
        data[pos]
    }
}

impl FixedLayout for u16 {
    open spec fn spec_size() -> nat {
        2
    }

    open spec fn spec_from_bytes(b: Seq<u8>) -> u16 {
        le_u16(b, 0) as u16
    }

    open spec fn spec_to_bytes(v: u16) -> Seq<u8> {
        u16_bytes(v)
    }

    proof fn lemma_round_trip(b: Seq<u8>) {
        lemma_u16_bytes_round_trip(b, 0);
        assert(b.subrange(0, 2) =~= b);
    }

    fn byte_size() -> (r: usize) {
        2
    }

    fn read_at(data: &[u8], pos: usize) -> (r: u16) {
        let r = read_u16_le(data, pos);
        assert(le_u16(data@, pos as int) == le_u16(data@.subrange(pos as int, pos + 2), 0));
        r
    }
}

impl FixedLayout for u32 {
    open spec fn spec_size() -> nat {
        4
    }

    open spec fn spec_from_bytes(b: Seq<u8>) -> u32 {
        le_u32(b, 0) as u32
    }

    open spec fn spec_to_bytes(v: u32) -> Seq<u8> {
        u32_bytes(v)
    }

    proof fn lemma_round_trip(b: Seq<u8>) {
        lemma_u32_bytes_round_trip(b, 0);
        assert(b.subrange(0, 4) =~= b);
    }

    fn byte_size() -> (r: usize) {
        4
    }

    fn read_at(data: &[u8], pos: usize) -> (r: u32) {
        let r = read_u32_le(data, pos);
        assert(le_u32(data@, pos as int) == le_u32(data@.subrange(pos as int, pos + 4), 0));
        r
    }
}

impl FixedLayout for Chunk {
    open spec fn spec_size() -> nat {
        8
    }

    open spec fn spec_from_bytes(b: Seq<u8>) -> Chunk {
        Chunk { magic: [b[0], b[1], b[2], b[3]], size: le_u32(b, 4) as u32 }
    }

    open spec fn spec_to_bytes(v: Chunk) -> Seq<u8> {
        seq![v.magic[0], v.magic[1], v.magic[2], v.magic[3]] + u32_bytes(v.size)
    }

    proof fn lemma_round_trip(b: Seq<u8>) {
        lemma_u32_bytes_round_trip(b, 4);
        let c = Self::spec_from_bytes(b);
        assert(Self::spec_to_bytes(c) =~= b);
    }

    fn byte_size() -> (r: usize) {
        8
    }

    fn read_at(data: &[u8], pos: usize) -> (r: Chunk) {
        proof {
            lemma_slice_len(data);
        }
        let c = Chunk {
            magic: [data[pos], data[pos + 1], data[pos + 2], data[pos + 3]],
            size: read_u32_le(data, pos + 4),
        };
        let ghost b = data@.subrange(pos as int, pos + 8);
        assert(le_u32(data@, pos + 4) == le_u32(b, 4));
        assert(c.magic =~= Self::spec_from_bytes(b).magic);
        c
    }
}

/// A `count` of values of type `T` stored one after the other from byte
/// `offset` of a backing blob.
#[derive(Debug)]
pub struct WowArray<T> {
    pub count: u32,
    pub offset: u32,
    /// Marks the element type; holds no data.
    pub element_type: core::marker::PhantomData<T>,
}

/// An array of bytes: a string.
pub type WowCharArray = WowArray<u8>;

impl<T> WowArray<T> {
    pub fn new(count: u32, offset: u32) -> (r: Self)
        ensures
            r.count == count,
            r.offset == offset,
    {
        WowArray { count, offset, element_type: core::marker::PhantomData }
    }
}

impl<T> FixedLayout for WowArray<T> {
    open spec fn spec_size() -> nat {
        8
    }

    open spec fn spec_from_bytes(b: Seq<u8>) -> WowArray<T> {
        WowArray {
            count: le_u32(b, 0) as u32,
            offset: le_u32(b, 4) as u32,
            element_type: core::marker::PhantomData,
        }
    }

    open spec fn spec_to_bytes(v: WowArray<T>) -> Seq<u8> {
        u32_bytes(v.count) + u32_bytes(v.offset)
    }

    proof fn lemma_round_trip(b: Seq<u8>) {
        lemma_u32_bytes_round_trip(b, 0);
        lemma_u32_bytes_round_trip(b, 4);
        assert(Self::spec_to_bytes(Self::spec_from_bytes(b)) =~= b);
    }

    fn byte_size() -> (r: usize) {
        8
    }

    fn read_at(data: &[u8], pos: usize) -> (r: WowArray<T>) {
        proof {
            lemma_slice_len(data);
        }
        let count = read_u32_le(data, pos);
        let offset = read_u32_le(data, pos + 4);
        let ghost b = data@.subrange(pos as int, pos + 8);
        assert(le_u32(data@, pos as int) == le_u32(b, 0));
        assert(le_u32(data@, pos + 4) == le_u32(b, 4));
        WowArray { count, offset, element_type: core::marker::PhantomData }
    }
}

/// Element `i` of `count` values of `T` stored from byte `offset` of `b`.
pub open spec fn element_at<T: FixedLayout>(b: Seq<u8>, offset: int, i: int) -> T {
    let size = T::spec_size() as int;
    T::spec_from_bytes(b.subrange(offset + i * size, offset + i * size + size))
}

/// The `count` values of `T` stored from byte `offset` of `b`; an empty array
/// resolves to nothing wherever it points, and any other must lie wholly
/// within `b`.
pub open spec fn resolve<T: FixedLayout>(b: Seq<u8>, count: nat, offset: int) -> Result<
    Seq<T>,
    DecodeError,
> {
    if count == 0 {
        Ok(Seq::empty())
    } else if offset + count * T::spec_size() > b.len() {
        Err(DecodeError::OutOfBounds)
    } else {
        Ok(Seq::new(count, |i: int| element_at::<T>(b, offset, i)))
    }
}

/// The values stored one after the other.
pub open spec fn store_all<T: FixedLayout>(s: Seq<T>) -> Seq<u8>
    decreases s.len(),
{
    if s.len() == 0 {
        Seq::empty()
    } else {
        store_all(s.drop_last()) + T::spec_to_bytes(s.last())
    }
}

/// The results of resolving each array in turn against the same blob; the
/// first that fails decides the error.
pub open spec fn resolve_each<U: FixedLayout>(b: Seq<u8>, arrays: Seq<WowArray<U>>) -> Result<
    Seq<Seq<U>>,
    DecodeError,
>
    decreases arrays.len(),
{
    if arrays.len() == 0 {
        Ok(Seq::empty())
    } else {
        match resolve_each(b, arrays.drop_last()) {
            Err(e) => Err(e),
            Ok(done) => match resolve::<U>(
                b,
                arrays.last().count as nat,
                arrays.last().offset as int,
            ) {
                Err(e) => Err(e),
                Ok(last) => Ok(done.push(last)),
            },
        }
    }
}

/// The contents of each vector.
pub open spec fn vec_views<U>(s: Seq<Vec<U>>) -> Seq<Seq<U>> {
    s.map_values(|inner: Vec<U>| inner@)
}

/// Reads `count` values of `T` from byte `offset` of `data`.
fn read_elements<T: FixedLayout>(data: &[u8], count: usize, offset: usize) -> (r: Result<
    Vec<T>,
    DecodeError,
>)
    ensures
        match r {
            Ok(v) => resolve::<T>(data@, count as nat, offset as int) == Ok::<_, DecodeError>(v@),
            Err(e) => resolve::<T>(data@, count as nat, offset as int) == Err::<Seq<T>, _>(e),
        },
{
    let mut result: Vec<T> = Vec::new();
    if count == 0 {
        assert(result@ =~= Seq::<T>::empty());
        return Ok(result);
    }
    let size = T::byte_size();
    let len = data.len();
    proof {
        assert(count as int * size as int <= usize::MAX as int * usize::MAX as int) by (
        nonlinear_arith)
            requires
                count <= usize::MAX,
                size <= usize::MAX,
        ;
    }
    if offset as u128 + count as u128 * size as u128 > len as u128 {
        return Err(DecodeError::OutOfBounds);
    }
    let mut pos: usize = offset;
    let mut i: usize = 0;
    while i < count
        invariant
            size == T::spec_size(),
            offset + count * size <= data@.len() <= usize::MAX,
            i <= count,
            pos == offset + i * size,
            result@ =~= Seq::new(i as nat, |k: int| element_at::<T>(data@, offset as int, k)),
        decreases count - i,
    {
        proof {
            assert(pos + size <= offset + count * size) by (nonlinear_arith)
                requires
                    pos == offset + i * size,
                    i < count,
            ;
        }
        let v = T::read_at(data, pos);
        result.push(v);
        proof {
            assert(pos + size == offset + (i + 1) * size) by (nonlinear_arith)
                requires
                    pos == offset + i * size,
            ;
        }
        pos = pos + size;
        i = i + 1;
        assert(result@ =~= Seq::new(i as nat, |k: int| element_at::<T>(data@, offset as int, k)));
    }
    Ok(result)
}

impl<T: FixedLayout> WowArray<T> {
    /// The values this array points at in `data`.
    pub fn to_vec(&self, data: &[u8]) -> (r: Result<Vec<T>, DecodeError>)
        ensures
            match r {
                Ok(v) => resolve::<T>(data@, self.count as nat, self.offset as int) == Ok::<
                    _,
                    DecodeError,
                >(v@),
                Err(e) => resolve::<T>(data@, self.count as nat, self.offset as int) == Err::<
                    Seq<T>,
                    _,
                >(e),
            },
    {
        read_elements(data, self.count as usize, self.offset as usize)
    }
}

impl<U: FixedLayout> WowArray<WowArray<U>> {
    /// Resolves this array of arrays, then each inner array against the same
    /// `data`: inner offsets count from the start of `data`, not from the
    /// outer element.
    pub fn to_nested_vec(&self, data: &[u8]) -> (r: Result<Vec<Vec<U>>, DecodeError>)
        ensures
            match resolve::<WowArray<U>>(data@, self.count as nat, self.offset as int) {
                Err(e) => r == Err::<Vec<Vec<U>>, _>(e),
                Ok(outer) => match r {
                    Ok(v) => resolve_each(data@, outer) == Ok::<_, DecodeError>(
                        vec_views(v@),
                    ),
                    Err(e) => resolve_each(data@, outer) == Err::<Seq<Seq<U>>, _>(e),
                },
            },
    {
        let outer = self.to_vec(data)?;
        let mut result: Vec<Vec<U>> = Vec::new();
        assert(outer@.subrange(0, 0) =~= Seq::<WowArray<U>>::empty());
        assert(vec_views(result@) =~= Seq::<Seq<U>>::empty());
        let mut i: usize = 0;
        while i < outer.len()
            invariant
                i <= outer@.len(),
                resolve::<WowArray<U>>(data@, self.count as nat, self.offset as int) == Ok::<
                    _,
                    DecodeError,
                >(outer@),
                resolve_each(data@, outer@.subrange(0, i as int)) == Ok::<_, DecodeError>(
                    vec_views(result@),
                ),
            decreases outer@.len() - i,
        {
            let ghost prefix = outer@.subrange(0, i as int + 1);
            assert(prefix.drop_last() =~= outer@.subrange(0, i as int));
            let inner = match outer[i].to_vec(data) {
                Ok(v) => v,
                Err(e) => {
                    proof {
                        assert(prefix.last() == outer@[i as int]);
                        assert(resolve_each(data@, prefix) == Err::<Seq<Seq<U>>, _>(e));
                        lemma_resolve_each_error_sticks(data@, outer@, (i + 1) as nat);
                    }
                    return Err(e);
                },
            };
            let ghost before = result@;
            result.push(inner);
            assert(vec_views(result@) =~= vec_views(before).push(inner@));
            i = i + 1;
        }
        assert(outer@.subrange(0, outer@.len() as int) =~= outer@);
        Ok(result)
    }
}

/// Once a prefix of the arrays fails to resolve, the whole list fails with
/// the same error.
proof fn lemma_resolve_each_error_sticks<U: FixedLayout>(b: Seq<u8>, arrays: Seq<WowArray<U>>, m: nat)
    requires
        m <= arrays.len(),
        resolve_each(b, arrays.subrange(0, m as int)) is Err,
    ensures
        resolve_each(b, arrays) == resolve_each(b, arrays.subrange(0, m as int)),
    decreases arrays.len(),
{
    if arrays.len() > m {
        let shorter = arrays.drop_last();
        assert(shorter.subrange(0, m as int) =~= arrays.subrange(0, m as int));
        lemma_resolve_each_error_sticks(b, shorter, m);
    } else {
        assert(arrays.subrange(0, m as int) =~= arrays);
    }
}

impl WowArray<u8> {
    /// The bytes this array points at, as text; `InvalidValue` where they are
    /// not UTF-8.
    pub fn to_string(&self, data: &[u8]) -> (r: Result<String, DecodeError>)
        ensures
            match resolve::<u8>(data@, self.count as nat, self.offset as int) {
                Err(e) => r == Err::<String, _>(e),
                Ok(bytes) => match r {
                    Ok(s) => valid_utf8(bytes) && s@ == decode_utf8(bytes),
                    Err(e) => e == DecodeError::InvalidValue && !valid_utf8(bytes),
                },
            },
    {
        let bytes = self.to_vec(data)?;
        match utf8_string(bytes) {
            Some(s) => Ok(s),
            None => Err(DecodeError::InvalidValue),
        }
    }
}

impl Chunk {
    /// Reads one value of `T` from the start of this chunk's payload.
    pub fn parse<T: FixedLayout>(&self, data: &[u8]) -> (r: Result<T, DecodeError>)
        ensures
            match r {
                Ok(v) => T::spec_size() <= data@.len() && v == T::spec_from_bytes(
                    data@.subrange(0, T::spec_size() as int),
                ),
                Err(e) => e == DecodeError::TruncatedInput && T::spec_size() > data@.len(),
            },
    {
        if T::byte_size() > data.len() {
            return Err(DecodeError::TruncatedInput);
        }
        Ok(T::read_at(data, 0))
    }

    /// Reads this chunk's payload as `size / size_per_data` values of `T`
    /// stored one after the other. The chunk's size must be a whole number
    /// of `size_per_data`.
    pub fn parse_array<T: FixedLayout>(&self, data: &[u8], size_per_data: usize) -> (r: Result<
        Vec<T>,
        DecodeError,
    >)
        requires
            size_per_data > 0,
        ensures
            self.size as int % size_per_data as int != 0 ==> r == Err::<Vec<T>, _>(
                DecodeError::RecordSizeMismatch,
            ),
            self.size as int % size_per_data as int == 0 ==> match r {
                Ok(v) => resolve::<T>(data@, (self.size as int / size_per_data as int) as nat, 0) == Ok::<
                    _,
                    DecodeError,
                >(v@),
                Err(e) => resolve::<T>(data@, (self.size as int / size_per_data as int) as nat, 0)
                    == Err::<Seq<T>, _>(e),
            },
    {
        if self.size as usize % size_per_data != 0 {
            return Err(DecodeError::RecordSizeMismatch);
        }
        let num_elements = self.size as usize / size_per_data;
        read_elements(data, num_elements, 0)
    }
}

/// Resolving an array that lies within the blob succeeds, and storing the
/// values it gives reproduces the bytes it covers; an empty array resolves to
/// nothing wherever it points.
pub proof fn lemma_resolve_round_trip<T: FixedLayout>(b: Seq<u8>, count: nat, offset: int)
    requires
        0 <= offset,
        offset + count * T::spec_size() <= b.len(),
    ensures
        resolve::<T>(b, count, offset) is Ok,
        store_all(resolve::<T>(b, count, offset)->Ok_0) == b.subrange(
            offset,
            offset + count * T::spec_size(),
        ),
        resolve::<T>(b, 0, offset) == Ok::<Seq<T>, DecodeError>(Seq::empty()),
    decreases count,
{
    let size = T::spec_size() as int;
    if count == 0 {
        assert(b.subrange(offset, offset) =~= Seq::<u8>::empty());
    } else {
        let c = (count - 1) as nat;
        assert(offset + c * size <= offset + count * size) by (nonlinear_arith)
            requires
                c < count,
                size >= 0,
        ;
        assert(c * size + size == count * size) by (nonlinear_arith)
            requires
                c == count - 1,
        ;
        lemma_resolve_round_trip::<T>(b, c, offset);
        let s = resolve::<T>(b, count, offset)->Ok_0;
        if c > 0 {
            assert(s.drop_last() =~= resolve::<T>(b, c, offset)->Ok_0);
        } else {
            assert(s.drop_last() =~= Seq::<T>::empty());
            assert(b.subrange(offset, offset) =~= Seq::<u8>::empty());
        }
        let lo = offset + c * size;
        T::lemma_round_trip(b.subrange(lo, lo + size));
        assert(s.last() == element_at::<T>(b, offset, c as int));
        assert(store_all(s) == store_all(s.drop_last()) + T::spec_to_bytes(s.last()));
        assert(store_all(s.drop_last()) == b.subrange(offset, lo));
        assert(b.subrange(offset, lo) + b.subrange(lo, lo + size) =~= b.subrange(
            offset,
            offset + count * size,
        ));
    }
}

} // verus!

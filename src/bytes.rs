use vstd::prelude::*;

verus! {

/// Little-endian value of the two bytes of `b` at `pos`.
pub open spec fn le_u16(b: Seq<u8>, pos: int) -> int {
    b[pos] as int + 256 * b[pos + 1] as int
}

/// Little-endian value of the four bytes of `b` at `pos`.
pub open spec fn le_u32(b: Seq<u8>, pos: int) -> int {
    le_u16(b, pos) + 65536 * le_u16(b, pos + 2)
}

/// Little-endian value of the eight bytes of `b` at `pos`.
pub open spec fn le_u64(b: Seq<u8>, pos: int) -> int {
    le_u32(b, pos) + 4294967296 * le_u32(b, pos + 4)
}

/// The two little-endian bytes of `v`.
pub open spec fn u16_bytes(v: u16) -> Seq<u8> {
    seq![(v % 256) as u8, (v / 256) as u8]
}

/// The four little-endian bytes of `v`.
pub open spec fn u32_bytes(v: u32) -> Seq<u8> {
    seq![(v % 256) as u8, ((v / 256) % 256) as u8, ((v / 65536) % 256) as u8, (v / 16777216) as u8]
}

/// A slice's length fits in `usize`.
pub proof fn lemma_slice_len<T>(data: &[T])
    ensures
        data@.len() <= usize::MAX,
{
    assert(data@.len() == data.len());
}

pub fn read_u16_le(data: &[u8], pos: usize) -> (r: u16)
    requires
        pos + 2 <= data@.len(),
    ensures
        r as int == le_u16(data@, pos as int),
{
    data[pos] as u16 + 256 * (data[pos + 1] as u16)
}

pub fn read_u32_le(data: &[u8], pos: usize) -> (r: u32)
    requires
        pos + 4 <= data@.len(),
    ensures
        r as int == le_u32(data@, pos as int),
{
    proof {
        lemma_slice_len(data);
    }
    let lo = read_u16_le(data, pos);
    let hi = read_u16_le(data, pos + 2);
    lo as u32 + 65536 * (hi as u32)
}

pub fn read_u64_le(data: &[u8], pos: usize) -> (r: u64)
    requires
        pos + 8 <= data@.len(),
    ensures
        r as int == le_u64(data@, pos as int),
{
    proof {
        lemma_slice_len(data);
    }
    let lo = read_u32_le(data, pos);
    let hi = read_u32_le(data, pos + 4);
    lo as u64 + 4294967296 * (hi as u64)
}

pub fn read_i16_le(data: &[u8], pos: usize) -> (r: i16)
    requires
        pos + 2 <= data@.len(),
    ensures
        r as int == (if le_u16(data@, pos as int) < 32768 {
            le_u16(data@, pos as int)
        } else {
            le_u16(data@, pos as int) - 65536
        }),
{
    let u = read_u16_le(data, pos);
    if u < 32768 {
        u as i16
    } else {
        (u as i32 - 65536) as i16
    }
}

/// Writing a two-byte value back gives the bytes it was read from.
pub proof fn lemma_u16_bytes_round_trip(b: Seq<u8>, pos: int)
    requires
        0 <= pos,
        pos + 2 <= b.len(),
    ensures
        u16_bytes(le_u16(b, pos) as u16) == b.subrange(pos, pos + 2),
{
    let x0 = b[pos] as int;
    let x1 = b[pos + 1] as int;
    let v = x0 + 256 * x1;
    assert(v % 256 == x0 && v / 256 == x1) by (nonlinear_arith)
        requires
            0 <= x0 < 256,
            0 <= x1 < 256,
            v == x0 + 256 * x1,
    ;
    assert(u16_bytes(v as u16) =~= b.subrange(pos, pos + 2));
}

/// Writing a four-byte value back gives the bytes it was read from.
pub proof fn lemma_u32_bytes_round_trip(b: Seq<u8>, pos: int)
    requires
        0 <= pos,
        pos + 4 <= b.len(),
    ensures
        u32_bytes(le_u32(b, pos) as u32) == b.subrange(pos, pos + 4),
{
    let x0 = b[pos] as int;
    let x1 = b[pos + 1] as int;
    let x2 = b[pos + 2] as int;
    let x3 = b[pos + 3] as int;
    let v = x0 + 256 * x1 + 65536 * (x2 + 256 * x3);
    assert(v % 256 == x0 && (v / 256) % 256 == x1 && (v / 65536) % 256 == x2 && v / 16777216
        == x3) by (nonlinear_arith)
        requires
            0 <= x0 < 256,
            0 <= x1 < 256,
            0 <= x2 < 256,
            0 <= x3 < 256,
            v == x0 + 256 * x1 + 65536 * (x2 + 256 * x3),
    ;
    assert(u32_bytes(v as u32) =~= b.subrange(pos, pos + 4));
}

/// Reading back the four bytes written for a value gives the value.
pub proof fn lemma_u32_value_round_trip(v: u32)
    ensures
        le_u32(u32_bytes(v), 0) == v,
{
    let x = v as int;
    let b = u32_bytes(v);
    assert(b[0] as int == x % 256);
    assert(b[1] as int == (x / 256) % 256);
    assert(b[2] as int == (x / 65536) % 256);
    assert(b[3] as int == x / 16777216);
    assert(x % 256 + 256 * ((x / 256) % 256) + 65536 * ((x / 65536) % 256 + 256 * (x / 16777216))
        == x) by (nonlinear_arith)
        requires
            0 <= x < 0x1_0000_0000,
    ;
}

/// Big-endian value of the two bytes of `b` at `pos`.
pub open spec fn be_u16(b: Seq<u8>, pos: int) -> int {
    256 * b[pos] as int + b[pos + 1] as int
}

/// Big-endian value of the four bytes of `b` at `pos`.
pub open spec fn be_u32(b: Seq<u8>, pos: int) -> int {
    65536 * be_u16(b, pos) + be_u16(b, pos + 2)
}

/// Big-endian value of the eight bytes of `b` at `pos`.
pub open spec fn be_u64(b: Seq<u8>, pos: int) -> int {
    4294967296 * be_u32(b, pos) + be_u32(b, pos + 4)
}

pub fn read_u16_be(data: &[u8], pos: usize) -> (r: u16)
    requires
        pos + 2 <= data@.len(),
    ensures
        r as int == be_u16(data@, pos as int),
{
    256 * (data[pos] as u16) + data[pos + 1] as u16
}

pub fn read_u32_be(data: &[u8], pos: usize) -> (r: u32)
    requires
        pos + 4 <= data@.len(),
    ensures
        r as int == be_u32(data@, pos as int),
{
    proof {
        lemma_slice_len(data);
    }
    let hi = read_u16_be(data, pos);
    let lo = read_u16_be(data, pos + 2);
    65536 * (hi as u32) + lo as u32
}

pub fn read_u64_be(data: &[u8], pos: usize) -> (r: u64)
    requires
        pos + 8 <= data@.len(),
    ensures
        r as int == be_u64(data@, pos as int),
{
    proof {
        lemma_slice_len(data);
    }
    let hi = read_u32_be(data, pos);
    let lo = read_u32_be(data, pos + 4);
    4294967296 * (hi as u64) + lo as u64
}

} // verus!

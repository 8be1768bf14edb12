use vstd::arithmetic::power2::{
    lemma2_to64, lemma_pow2_pos, lemma_pow2_strictly_increases, lemma_pow2_unfold, pow2,
};
use vstd::prelude::*;

verus! {

/// Bit `i` of a byte stream: it lies in byte `i / 8`, and within that byte it
/// is bit `7 - i % 8` counted from the most significant end, that is bit
/// `i % 8` counted from the least significant end.
pub open spec fn bit_at(b: Seq<u8>, i: int) -> bool {
    (b[i / 8] >> ((i % 8) as u8)) & 1u8 == 1u8
}

/// The unsigned value built from the `n` bits of `b` that start at bit `off`:
/// bit `off + j` contributes `2^j`.
pub open spec fn bits_value(b: Seq<u8>, off: int, n: nat) -> nat
    decreases n,
{
    if n == 0 {
        0
    } else {
        bits_value(b, off, (n - 1) as nat) + if bit_at(b, off + n - 1) {
            pow2((n - 1) as nat)
        } else {
            0
        }
    }
}

/// Bit `p` of a byte stream in most-significant-first order: bit `p % 8`
/// counted from the most significant end of byte `p / 8`.
pub open spec fn msb_bit_at(b: Seq<u8>, p: int) -> bool {
    (b[p / 8] >> ((7 - p % 8) as u8)) & 1u8 == 1u8
}

/// The value of the `n` bits of `b` from bit `off` on, read most significant
/// first.
pub open spec fn msb_value(b: Seq<u8>, off: int, n: nat) -> nat
    decreases n,
{
    if n == 0 {
        0
    } else {
        2 * msb_value(b, off, (n - 1) as nat) + if msb_bit_at(b, off + n - 1) {
            1nat
        } else {
            0nat
        }
    }
}

/// The `n` whole bytes of the bit window of `b` that starts at bit `off`, each
/// taken from eight consecutive bits, most significant first.
pub open spec fn window_bytes(b: Seq<u8>, off: int, n: nat) -> Seq<u8> {
    Seq::new(n, |k: int| msb_value(b, off + 8 * k, 8) as u8)
}

proof fn lemma_bits_value_bound(b: Seq<u8>, off: int, n: nat)
    ensures
        bits_value(b, off, n) < pow2(n),
    decreases n,
{
    lemma_pow2_pos(n);
    if n > 0 {
        let m = (n - 1) as nat;
        lemma_bits_value_bound(b, off, m);
        lemma_pow2_unfold(n);
        assert(bits_value(b, off, n) <= bits_value(b, off, m) + pow2(m));
    }
}

proof fn lemma_msb_value_bound(b: Seq<u8>, off: int, n: nat)
    ensures
        msb_value(b, off, n) < pow2(n),
    decreases n,
{
    lemma_pow2_pos(n);
    if n > 0 {
        let m = (n - 1) as nat;
        lemma_msb_value_bound(b, off, m);
        lemma_pow2_unfold(n);
        assert(msb_value(b, off, n) <= 2 * msb_value(b, off, m) + 1);
    }
}

/// Extracts `num_bits` bits starting at bit `bit_offset` of `bits`, the first
/// bit giving the least significant bit of the result.
pub fn bitslice_to_u32(bits: &[u8], bit_offset: usize, num_bits: usize) -> (r: u32)
    requires
        num_bits <= 32,
        bit_offset + num_bits <= bits@.len() * 8,
        bit_offset + num_bits <= usize::MAX,
    ensures
        r as nat == bits_value(bits@, bit_offset as int, num_bits as nat),
        (r as nat) < pow2(num_bits as nat),
{
    let mut result: u64 = 0;
    let mut weight: u64 = 1;
    let mut k: usize = 0;
    proof {
        lemma2_to64();
    }
    while k < num_bits
        invariant
            k <= num_bits <= 32,
            bit_offset + num_bits <= bits@.len() * 8,
            bit_offset + num_bits <= usize::MAX,
            weight as nat == pow2(k as nat),
            result as nat == bits_value(bits@, bit_offset as int, k as nat),
            result < weight,
            pow2(32) == 0x1_0000_0000,
        decreases num_bits - k,
    {
        proof {
            if k < 32 {
                lemma_pow2_strictly_increases(k as nat, 32);
            }
            lemma_pow2_unfold((k + 1) as nat);
        }
        let bit_num = bit_offset + k;
        let byte = bits[bit_num / 8];
        if (byte >> ((bit_num % 8) as u8)) & 1u8 == 1u8 {
            result = result + weight;
        }
        weight = weight * 2;
        k = k + 1;
    }
    proof {
        if num_bits < 32 {
            lemma_pow2_strictly_increases(num_bits as nat, 32);
        }
    }
    result as u32
}

/// Reads `num_bits` bits (at most eight) from bit `bit_offset` on, most
/// significant first.
fn read_msb_bits(bits: &[u8], bit_offset: usize, num_bits: usize) -> (r: u8)
    requires
        num_bits <= 8,
        bit_offset + num_bits <= bits@.len() * 8,
        bit_offset + num_bits <= usize::MAX,
    ensures
        r as nat == msb_value(bits@, bit_offset as int, num_bits as nat),
{
    let mut result: u16 = 0;
    let mut k: usize = 0;
    proof {
        lemma2_to64();
    }
    while k < num_bits
        invariant
            k <= num_bits <= 8,
            bit_offset + num_bits <= bits@.len() * 8,
            bit_offset + num_bits <= usize::MAX,
            result as nat == msb_value(bits@, bit_offset as int, k as nat),
            (result as nat) < pow2(k as nat),
            pow2(8) == 256,
        decreases num_bits - k,
    {
        proof {
            lemma_msb_value_bound(bits@, bit_offset as int, (k + 1) as nat);
            if k + 1 < 8 {
                lemma_pow2_strictly_increases((k + 1) as nat, 8);
            }
        }
        let bit_num = bit_offset + k;
        let byte = bits[bit_num / 8];
        let bit: u16 = if (byte >> ((7 - bit_num % 8) as u8)) & 1u8 == 1u8 {
            1
        } else {
            0
        };
        result = 2 * result + bit;
        k = k + 1;
    }
    result as u8
}

/// The `num_bytes` bytes of the bit window that starts at bit `bit_offset`,
/// each assembled from eight consecutive bits, most significant first.
pub fn read_bit_window(bits: &[u8], bit_offset: usize, num_bytes: usize) -> (r: Vec<u8>)
    requires
        bit_offset + 8 * num_bytes <= bits@.len() * 8,
        bit_offset + 8 * num_bytes <= usize::MAX,
    ensures
        r@ == window_bytes(bits@, bit_offset as int, num_bytes as nat),
{
    let mut out: Vec<u8> = Vec::new();
    let mut k: usize = 0;
    while k < num_bytes
        invariant
            k <= num_bytes,
            bit_offset + 8 * num_bytes <= bits@.len() * 8,
            bit_offset + 8 * num_bytes <= usize::MAX,
            out@ == window_bytes(bits@, bit_offset as int, k as nat),
        decreases num_bytes - k,
    {
        let byte = read_msb_bits(bits, bit_offset + 8 * k, 8);
        out.push(byte);
        k = k + 1;
        assert(out@ =~= window_bytes(bits@, bit_offset as int, k as nat));
    }
    out
}

} // verus!

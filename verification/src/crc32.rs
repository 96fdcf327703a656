//! CRC-32 as used by zip and PNG: reflected polynomial `0xEDB88320`, start
//! value and final xor `0xFFFFFFFF`.

use vstd::prelude::*;

verus! {

/// The reflected CRC-32 polynomial.
pub const POLYNOMIAL: u32 = 0xEDB8_8320;

/// One bit of polynomial division: shift right, and subtract the polynomial
/// where a one fell out.
pub open spec fn shift_once(c: u32) -> u32 {
    if c & 1 == 1 {
        (c >> 1) ^ POLYNOMIAL
    } else {
        c >> 1
    }
}

/// `n` bits of polynomial division.
pub open spec fn shift_bits(c: u32, n: nat) -> u32
    decreases n,
{
    if n == 0 {
        c
    } else {
        shift_once(shift_bits(c, (n - 1) as nat))
    }
}

/// The register after one more byte.
pub open spec fn feed_byte(c: u32, b: u8) -> u32 {
    shift_bits(c ^ (b as u32), 8)
}

/// The register after all of `bytes`, from the start value `0xFFFFFFFF`.
pub open spec fn register(bytes: Seq<u8>) -> u32
    decreases bytes.len(),
{
    if bytes.len() == 0 {
        0xFFFF_FFFFu32
    } else {
        feed_byte(register(bytes.drop_last()), bytes.last())
    }
}

/// The CRC-32 of `bytes`.
pub open spec fn crc32(bytes: Seq<u8>) -> u32 {
    register(bytes) ^ 0xFFFF_FFFFu32
}

/// Feeds one byte to the register.
pub fn update_byte(c: u32, b: u8) -> (r: u32)
    ensures
        r == feed_byte(c, b),
{
    let mut r: u32 = c ^ (b as u32);
    let mut k: u8 = 0;
    while k < 8
        invariant
            k <= 8,
            r == shift_bits(c ^ (b as u32), k as nat),
        decreases 8 - k,
    {
        if r & 1 == 1 {
            r = (r >> 1) ^ POLYNOMIAL;
        } else {
            r = r >> 1;
        }
        k = k + 1;
    }
    r
}

/// What a byte alone leaves in an empty register: the entry of the table
/// that lets the register take a whole byte in one step.
pub open spec fn table_entry(b: u8) -> u32 {
    shift_bits(b as u32, 8)
}

/// A step of the division takes the sum of two registers to the sum of what
/// it takes each to.
pub proof fn lemma_shift_once_linear(a: u32, b: u32)
    ensures
        shift_once(a ^ b) == shift_once(a) ^ shift_once(b),
{
    assert((a ^ b) & 1 == (a & 1) ^ (b & 1)) by (bit_vector);
    assert((a ^ b) >> 1 == (a >> 1) ^ (b >> 1)) by (bit_vector);
    let p = POLYNOMIAL;
    let x = a >> 1;
    let y = b >> 1;
    assert((x ^ p) ^ (y ^ p) == x ^ y && (x ^ p) ^ y == (x ^ y) ^ p && x ^ (y ^ p) == (x ^ y) ^ p)
        by (bit_vector);
    assert(a & 1 == 0 || a & 1 == 1) by (bit_vector);
    assert(b & 1 == 0 || b & 1 == 1) by (bit_vector);
    assert(0u32 ^ 0u32 == 0 && 1u32 ^ 0u32 == 1 && 0u32 ^ 1u32 == 1 && 1u32 ^ 1u32 == 0)
        by (bit_vector);
}

/// Any number of steps takes the sum of two registers to the sum of what
/// they take each to.
pub proof fn lemma_shift_bits_linear(a: u32, b: u32, n: nat)
    ensures
        shift_bits(a ^ b, n) == shift_bits(a, n) ^ shift_bits(b, n),
    decreases n,
{
    if n > 0 {
        lemma_shift_bits_linear(a, b, (n - 1) as nat);
        lemma_shift_once_linear(shift_bits(a, (n - 1) as nat), shift_bits(b, (n - 1) as nat));
    }
}

/// A register whose lowest eight bits are zero is only shifted by up to
/// eight steps.
pub proof fn lemma_shift_bits_high(h: u32, n: nat)
    requires
        h & 0xff == 0,
        n <= 8,
    ensures
        shift_bits(h, n) == h >> (n as u32),
    decreases n,
{
    if n == 0 {
        assert(h >> 0u32 == h) by (bit_vector);
    } else {
        lemma_shift_bits_high(h, (n - 1) as nat);
        let k = (n - 1) as u32;
        assert((h >> k) & 1 == 0 && (h >> k) >> 1 == h >> ((k + 1) as u32)) by (bit_vector)
            requires
                h & 0xff == 0,
                k < 8,
        ;
    }
}

/// The register takes a byte in one step: the table entry for its lowest
/// eight bits, mixed with the byte, joins what is left of the register.
pub proof fn lemma_feed_by_table(c: u32, b: u8)
    ensures
        ((c ^ (b as u32)) & 0xff) < 256,
        feed_byte(c, b) == table_entry(((c ^ (b as u32)) & 0xff) as u8) ^ (c >> 8),
{
    let x = c ^ (b as u32);
    let low = x & 0xff;
    let high = x & 0xffff_ff00;
    assert(low < 256 && x == high ^ low && high & 0xff == 0) by (bit_vector)
        requires
            low == x & 0xff,
            high == x & 0xffff_ff00,
    ;
    assert(high >> 8u32 == c >> 8u32) by (bit_vector)
        requires
            high == (c ^ (b as u32)) & 0xffff_ff00,
    ;
    lemma_shift_bits_linear(high, low, 8);
    lemma_shift_bits_high(high, 8);
    assert(((low as u8) as u32) == low);
    assert((c >> 8u32) ^ shift_bits(low, 8) == shift_bits(low, 8) ^ (c >> 8u32)) by {
        let p = c >> 8u32;
        let q = shift_bits(low, 8);
        assert(p ^ q == q ^ p) by (bit_vector);
    }
}

/// Makes the table of 256 entries.
pub fn make_table() -> (table: Vec<u32>)
    ensures
        table@.len() == 256,
        forall|i: int| 0 <= i < 256 ==> #[trigger] table@[i] == table_entry(i as u8),
{
    let mut table: Vec<u32> = Vec::new();
    let mut i: u16 = 0;
    while i < 256
        invariant
            i <= 256,
            table@.len() == i,
            forall|k: int| 0 <= k < i ==> #[trigger] table@[k] == table_entry(k as u8),
        decreases 256 - i,
    {
        let b = i as u8;
        assert(0u32 ^ (b as u32) == b as u32) by (bit_vector);
        table.push(update_byte(0, b));
        i = i + 1;
    }
    table
}

/// Computes the CRC-32 of the bytes from `start` up to `end`.
pub fn checksum_range(bytes: &[u8], start: usize, end: usize) -> (r: u32)
    requires
        start <= end <= bytes.len(),
    ensures
        r == crc32(bytes@.subrange(start as int, end as int)),
{
    let table = make_table();
    let mut c: u32 = 0xFFFF_FFFF;
    let mut i: usize = start;
    while i < end
        invariant
            start <= i <= end <= bytes.len(),
            table@.len() == 256,
            forall|k: int| 0 <= k < 256 ==> #[trigger] table@[k] == table_entry(k as u8),
            c == register(bytes@.subrange(start as int, i as int)),
        decreases end - i,
    {
        let b = bytes[i];
        proof {
            lemma_feed_by_table(c, b);
        }
        let index = ((c ^ (b as u32)) & 0xff) as usize;
        c = table[index] ^ (c >> 8);
        i = i + 1;
        assert(bytes@.subrange(start as int, i as int).drop_last() =~= bytes@.subrange(
            start as int,
            i - 1,
        ));
    }
    c ^ 0xFFFF_FFFF
}

/// Computes the CRC-32 of a byte string.
pub fn checksum(bytes: &[u8]) -> (r: u32)
    ensures
        r == crc32(bytes@),
{
    assert(bytes@.subrange(0, bytes@.len() as int) =~= bytes@);
    checksum_range(bytes, 0, bytes.len())
}

} // verus!

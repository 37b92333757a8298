use vstd::prelude::*;

verus! {

/// The reflected CRC-32 polynomial.
pub const CRC32_POLY: u32 = 0xEDB8_8320;

/// The Adler-32 modulus.
pub const ADLER_MOD: u32 = 65521;

/// One bit step of the reflected CRC-32 register.
pub open spec fn crc_bit_step(c: u32) -> u32 {
    if c & 1 != 0 {
        (c >> 1u32) ^ CRC32_POLY
    } else {
        c >> 1u32
    }
}

/// `k` bit steps of the CRC-32 register.
pub open spec fn crc_bit_steps(c: u32, k: nat) -> u32
    decreases k,
{
    if k == 0 {
        c
    } else {
        crc_bit_step(crc_bit_steps(c, (k - 1) as nat))
    }
}

/// The CRC-32 register after taking in `data`, starting from `c`.
pub open spec fn crc_register(c: u32, data: Seq<u8>) -> u32
    decreases data.len(),
{
    if data.len() == 0 {
        c
    } else {
        crc_bit_steps(crc_register(c, data.drop_last()) ^ (data.last() as u32), 8)
    }
}

/// CRC-32 (IEEE, as in PNG and zlib): register preset to all ones, result inverted.
pub open spec fn crc32(data: Seq<u8>) -> u32 {
    !crc_register(0xFFFF_FFFFu32, data)
}

/// The two Adler-32 running sums `(s1, s2)` after `data`.
pub open spec fn adler_sums(data: Seq<u8>) -> (int, int)
    decreases data.len(),
{
    if data.len() == 0 {
        (1, 0)
    } else {
        let (s1, s2) = adler_sums(data.drop_last());
        let t1 = (s1 + data.last()) % (ADLER_MOD as int);
        (t1, (s2 + t1) % (ADLER_MOD as int))
    }
}

/// Adler-32: the second sum in the high half, the first in the low half.
pub open spec fn adler32(data: Seq<u8>) -> int {
    adler_sums(data).1 * 0x10000 + adler_sums(data).0
}

/// CRC-32 of `data`.
pub fn png_crc32(data: &[u8]) -> (r: u32)
    ensures
        r == crc32(data@),
{
    let mut crc: u32 = 0xFFFF_FFFF;
    let mut i: usize = 0;
    while i < data.len()
        invariant
            i <= data.len(),
            crc == crc_register(0xFFFF_FFFFu32, data@.subrange(0, i as int)),
        decreases data.len() - i,
    {
        assert(data@.subrange(0, i + 1).drop_last() =~= data@.subrange(0, i as int));
        crc = crc ^ (data[i] as u32);
        let ghost mixed = crc;
        let mut k: u32 = 0;
        while k < 8
            invariant
                k <= 8,
                crc == crc_bit_steps(mixed, k as nat),
            decreases 8 - k,
        {
            if (crc & 1) != 0 {
                crc = (crc >> 1) ^ CRC32_POLY;
            } else {
                crc = crc >> 1;
            }
            k = k + 1;
        }
        i = i + 1;
    }
    assert(data@.subrange(0, data.len() as int) =~= data@);
    !crc
}

/// Adler-32 of `data`.
pub fn png_adler32(data: &[u8]) -> (r: u32)
    ensures
        r == adler32(data@),
{
    let mut s1: u32 = 1;
    let mut s2: u32 = 0;
    let mut i: usize = 0;
    while i < data.len()
        invariant
            i <= data.len(),
            s1 < ADLER_MOD,
            s2 < ADLER_MOD,
            (s1 as int, s2 as int) == adler_sums(data@.subrange(0, i as int)),
        decreases data.len() - i,
    {
        assert(data@.subrange(0, i + 1).drop_last() =~= data@.subrange(0, i as int));
        s1 = (s1 + data[i] as u32) % ADLER_MOD;
        s2 = (s2 + s1) % ADLER_MOD;
        i = i + 1;
    }
    assert(data@.subrange(0, data.len() as int) =~= data@);
    assert((s2 << 16u32) | s1 == s2 * 0x10000 + s1) by (bit_vector)
        requires
            s1 < 65536,
            s2 < 65536,
    ;
    (s2 << 16) | s1
}

/// The checksums of the empty byte string: CRC-32 gives 0 and Adler-32 gives 1.
pub proof fn lemma_checksums_of_empty()
    ensures
        crc32(Seq::<u8>::empty()) == 0,
        adler32(Seq::<u8>::empty()) == 1,
{
    assert(!0xFFFF_FFFFu32 == 0u32) by (bit_vector);
}

} // verus!

//! CRC32 checksums.

use vstd::prelude::*;

verus! {

/// The register of the checksum after one bit more: the remainder of the division by the
/// polynomial, whose bits stand in reverse order.
pub open spec fn crc32_bit(register: u32) -> u32 {
    if register & 1 == 1 {
        (register >> 1) ^ 0xedb8_8320
    } else {
        register >> 1
    }
}

/// The register after `n` bits more.
pub open spec fn crc32_bits(register: u32, n: nat) -> u32
    decreases n,
{
    if n == 0 {
        register
    } else {
        crc32_bit(crc32_bits(register, (n - 1) as nat))
    }
}

/// The register after `data`.
pub open spec fn crc32_register(register: u32, data: Seq<u8>) -> u32
    decreases data.len(),
{
    if data.len() == 0 {
        register
    } else {
        crc32_bits(crc32_register(register, data.drop_last()) ^ (data.last() as u32), 8)
    }
}

/// The checksum of `data`, continued from the checksum `crc` of what came before it.
#[verifier::opaque]
pub open spec fn crc32_from(crc: u32, data: Seq<u8>) -> u32 {
    !crc32_register(!crc, data)
}

/// The CRC32 of `data`.
pub open spec fn crc32_of(data: Seq<u8>) -> u32 {
    crc32_from(0, data)
}

/// The register goes through one part of the data after the other.
proof fn lemma_register_join(register: u32, first: Seq<u8>, second: Seq<u8>)
    ensures
        crc32_register(crc32_register(register, first), second) == crc32_register(
            register,
            first + second,
        ),
    decreases second.len(),
{
    if second.len() == 0 {
        assert(first + second =~= first);
    } else {
        lemma_register_join(register, first, second.drop_last());
        assert((first + second).drop_last() =~= first + second.drop_last());
    }
}

/// The checksum of what came before can be continued to that of everything.
pub proof fn law_crc32_continues(crc: u32, first: Seq<u8>, second: Seq<u8>)
    ensures
        crc32_from(crc32_from(crc, first), second) == crc32_from(crc, first + second),
{
    reveal(crc32_from);
    let register = crc32_register(!crc, first);
    assert(!!register == register) by (bit_vector);
    lemma_register_join(!crc, first, second);
}

/// Nothing more leaves the checksum as it is. That of no data is 0.
pub proof fn law_crc32_of_nothing(crc: u32)
    ensures
        crc32_from(crc, Seq::empty()) == crc,
{
    reveal(crc32_from);
    assert(!!crc == crc) by (bit_vector);
}

/// Feeds `data` to a `crc32fast::Hasher` that `Hasher::new_with_initial` started at `crc`, and
/// finalizes it.
///
/// The result is the checksum, continued from `crc`.
#[verifier::external_body]
pub(crate) fn crc32_update(crc: u32, data: &[u8]) -> (result: u32)
    ensures
        result == crc32_from(crc, data@),
{
    let mut hasher = crc32fast::Hasher::new_with_initial(crc);
    hasher.update(data);
    hasher.finalize()
}

} // verus!

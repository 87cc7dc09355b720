//! The incremental update of an IPv4 header checksum when one address changes:
//! a ones'-complement adjustment by the words that left and the words that
//! came, not a sum over the header.

use vstd::prelude::*;

verus! {

/// One end-around carry: the low sixteen bits plus what stood above them.
pub open spec fn fold_carry(sum: int) -> int {
    sum % 65536 + sum / 65536
}

/// The checksum of a header whose checksum was `old_checksum` after a 32-bit
/// field changed from `old_addr` to `new_addr`:
/// `~(~old_checksum + ~old_words + new_words)` in ones'-complement arithmetic
/// on 16-bit words, the complement of a word `w` being `0xFFFF - w`.
pub open spec fn fixup(old_checksum: u16, old_addr: u32, new_addr: u32) -> u16 {
    let sum = (0xFFFF - old_checksum) + (0xFFFF - old_addr / 65536) + (0xFFFF - old_addr % 65536)
        + new_addr / 65536 + new_addr % 65536;
    (0xFFFF - fold_carry(fold_carry(sum))) as u16
}

/// Computes the checksum that replaces `old_checksum` when an address in the
/// header changes from `old_addr` to `new_addr`.
pub fn checksum_fixup(old_checksum: u16, old_addr: u32, new_addr: u32) -> (new_checksum: u16)
    ensures
        new_checksum == fixup(old_checksum, old_addr, new_addr),
{
    let not_check: u32 = 0xFFFF - (old_checksum as u32);
    let not_old_hi: u32 = 0xFFFF - old_addr / 65536;
    let not_old_lo: u32 = 0xFFFF - old_addr % 65536;
    let sum: u32 = not_check + not_old_hi + not_old_lo + new_addr / 65536 + new_addr % 65536;
    let once: u32 = sum % 65536 + sum / 65536;
    let twice: u32 = once % 65536 + once / 65536;
    (0xFFFF - twice) as u16
}

/// The sum of the two 16-bit words of a 32-bit value.
pub open spec fn words_of(addr: u32) -> int {
    addr / 65536 + addr % 65536
}

/// The adjusted checksum makes up for the change of address: modulo 0xFFFF,
/// the modulus of ones'-complement arithmetic, the new checksum and the new
/// address's words add up to what the old checksum and the old address's
/// words added up to.
pub proof fn lemma_fixup_balances(old_checksum: u16, old_addr: u32, new_addr: u32)
    ensures
        (fixup(old_checksum, old_addr, new_addr) + words_of(new_addr)) % 65535 == (old_checksum
            + words_of(old_addr)) % 65535,
{
    let sum = (0xFFFF - old_checksum) + (0xFFFF - old_addr / 65536) + (0xFFFF - old_addr % 65536)
        + new_addr / 65536 + new_addr % 65536;
    let once = fold_carry(sum);
    let twice = fold_carry(once);
    assert(once == sum - 65535 * (sum / 65536));
    assert(twice == once - 65535 * (once / 65536));
    assert(0 <= twice <= 0xFFFF);
}

} // verus!

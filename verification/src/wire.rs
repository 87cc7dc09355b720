//! Big-endian fields of a byte sequence, decoded explicitly: wire offsets are
//! not aligned to anything.

use vstd::prelude::*;

verus! {

/// The 16-bit value whose big-endian encoding stands at `at`.
pub open spec fn be16_at(bytes: Seq<u8>, at: int) -> int {
    bytes[at] * 256 + bytes[at + 1]
}

/// The 32-bit value whose big-endian encoding stands at `at`.
pub open spec fn be32_at(bytes: Seq<u8>, at: int) -> int {
    bytes[at] * 16777216 + bytes[at + 1] * 65536 + bytes[at + 2] * 256 + bytes[at + 3]
}

/// Reads a big-endian 16-bit field.
pub fn read_be16(bytes: &[u8], at: usize) -> (value: u16)
    requires
        at + 2 <= bytes@.len(),
    ensures
        value == be16_at(bytes@, at as int),
{
    let hi: u16 = bytes[at] as u16;
    let lo: u16 = bytes[at + 1] as u16;
    hi * 256 + lo
}

/// Reads a big-endian 32-bit field.
pub fn read_be32(bytes: &[u8], at: usize) -> (value: u32)
    requires
        at + 4 <= bytes@.len(),
    ensures
        value == be32_at(bytes@, at as int),
{
    let b0: u32 = bytes[at] as u32;
    let b1: u32 = bytes[at + 1] as u32;
    let b2: u32 = bytes[at + 2] as u32;
    let b3: u32 = bytes[at + 3] as u32;
    b0 * 16777216 + b1 * 65536 + b2 * 256 + b3
}

/// Writes a 16-bit value in network order at `at`.
pub fn store_be16(packet: &mut [u8], at: usize, value: u16)
    requires
        at + 2 <= old(packet)@.len(),
    ensures
        final(packet)@ == old(packet)@.update(at as int, (value / 256) as u8).update(
            at + 1,
            (value % 256) as u8,
        ),
{
    packet[at] = (value / 256) as u8;
    packet[at + 1] = (value % 256) as u8;
}

/// Overwrites the bytes of `packet` from `at` on with `bytes`.
pub fn store_bytes(packet: &mut [u8], at: usize, bytes: &[u8])
    requires
        at + bytes@.len() <= old(packet)@.len(),
    ensures
        final(packet)@ == Seq::new(
            old(packet)@.len(),
            |i: int|
                if at <= i < at + bytes@.len() {
                    bytes@[i - at]
                } else {
                    old(packet)@[i]
                },
        ),
{
    let n: usize = bytes.len();
    let mut i: usize = 0;
    while i < n
        invariant
            n == bytes@.len(),
            i <= n,
            packet@.len() == old(packet)@.len(),
            at + n <= packet.len(),
            forall|j: int| at <= j < at + i ==> packet@[j] == bytes@[j - at],
            forall|j: int|
                0 <= j < packet@.len() && !(at <= j < at + i) ==> packet@[j] == old(packet)@[j],
        decreases n - i,
    {
        packet[at + i] = bytes[i];
        i += 1;
    }
    assert(packet@ =~= Seq::new(
        old(packet)@.len(),
        |i: int|
            if at <= i < at + bytes@.len() {
                bytes@[i - at]
            } else {
                old(packet)@[i]
            },
    ));
}

} // verus!

use vstd::prelude::*;

verus! {

/// Addresses and the program counter wrap modulo 2^16: address arithmetic
/// can never fault, only wrap around the 16-bit space.
pub open spec fn wrap_add(a: u16, b: u16) -> u16 {
    ((a + b) % 0x10000) as u16
}

/// The address `offset` cells past `origin`, wrapping modulo 2^16.
/// Unlike `wrap_add` the offset is a mathematical integer, so it can count
/// past the size of the address space.
pub open spec fn wrap_at(origin: u16, offset: int) -> u16 {
    ((origin + offset) % 0x10000) as u16
}

/// Executable wrapping addition on 16-bit words.
pub fn wrapping_add(a: u16, b: u16) -> (r: u16)
    ensures
        r == wrap_add(a, b),
{
    let sum: u32 = a as u32 + b as u32;
    (sum % 0x10000) as u16
}

/// A big-endian pair of bytes read as one 16-bit word.
pub open spec fn be_word(hi: u8, lo: u8) -> u16 {
    (hi * 256 + lo) as u16
}

/// Executable assembly of a big-endian word from its two bytes.
pub fn make_be_word(hi: u8, lo: u8) -> (r: u16)
    ensures
        r == be_word(hi, lo),
{
    (hi as u16) * 256 + (lo as u16)
}

/// Stepping one cell forward commutes with wrapping: the successor of the
/// cell `offset` past `origin` is the cell `offset + 1` past it.
pub proof fn lemma_wrap_at_step(origin: u16, offset: int)
    requires
        offset >= 0,
    ensures
        wrap_add(wrap_at(origin, offset), 1) == wrap_at(origin, offset + 1),
{
    let m = 0x10000int;
    let w = (origin + offset) % m;
    assert(0 <= w < m) by {
        vstd::arithmetic::div_mod::lemma_mod_bound(origin + offset, m);
    }
    assert((w + 1) % m == (origin + offset + 1) % m) by {
        vstd::arithmetic::div_mod::lemma_add_mod_noop(origin + offset, 1, m);
        vstd::arithmetic::div_mod::lemma_mod_twice(origin + offset, m);
    }
}

} // verus!

use vstd::arithmetic::div_mod::{
    lemma_div_denominator, lemma_fundamental_div_mod, lemma_fundamental_div_mod_converse,
    lemma_small_mod,
};
use vstd::prelude::*;

verus! {

// ---------------------------------------------------------------------------
// Little-endian views of fixed-width byte groups.
//
// `leN` reads the value of an `N`-byte group; `leN_bytes` writes a value's
// low `N` bytes. The lemmas below show that the two are inverses on the
// value range of each width.
// ---------------------------------------------------------------------------
/// The value of a 2-byte little-endian group.
pub open spec fn le2(s: Seq<u8>) -> int {
    s[0] + 0x100 * s[1]
}

/// The value of a 3-byte little-endian group.
pub open spec fn le3(s: Seq<u8>) -> int {
    s[0] + 0x100 * s[1] + 0x10000 * s[2]
}

/// The value of a 4-byte little-endian group.
pub open spec fn le4(s: Seq<u8>) -> int {
    s[0] + 0x100 * s[1] + 0x10000 * s[2] + 0x1000000 * s[3]
}

/// The low 2 bytes of a value, little-endian first.
pub open spec fn le2_bytes(v: int) -> Seq<u8> {
    seq![(v % 0x100) as u8, (v / 0x100 % 0x100) as u8]
}

/// The low 3 bytes of a value, little-endian first.
pub open spec fn le3_bytes(v: int) -> Seq<u8> {
    seq![(v % 0x100) as u8, (v / 0x100 % 0x100) as u8, (v / 0x10000 % 0x100) as u8]
}

/// The low 4 bytes of a value, little-endian first.
pub open spec fn le4_bytes(v: int) -> Seq<u8> {
    seq![
        (v % 0x100) as u8,
        (v / 0x100 % 0x100) as u8,
        (v / 0x10000 % 0x100) as u8,
        (v / 0x1000000 % 0x100) as u8,
    ]
}

/// Writing a 2-byte value and reading it back is the identity.
pub proof fn lemma_le2_round_trip(v: int)
    requires
        0 <= v < 0x10000,
    ensures
        le2(le2_bytes(v)) == v,
{
    lemma_fundamental_div_mod(v, 0x100);
}

/// Writing a 3-byte value and reading it back is the identity.
pub proof fn lemma_le3_round_trip(v: int)
    requires
        0 <= v < 0x100_0000,
    ensures
        le3(le3_bytes(v)) == v,
{
    lemma_fundamental_div_mod(v, 0x100);
    lemma_fundamental_div_mod(v / 0x100, 0x100);
    lemma_div_denominator(v, 0x100, 0x100);
}

/// Writing a 4-byte value and reading it back is the identity.
pub proof fn lemma_le4_round_trip(v: int)
    requires
        0 <= v < 0x1_0000_0000,
    ensures
        le4(le4_bytes(v)) == v,
{
    lemma_fundamental_div_mod(v, 0x100);
    lemma_fundamental_div_mod(v / 0x100, 0x100);
    lemma_fundamental_div_mod(v / 0x10000, 0x100);
    lemma_div_denominator(v, 0x100, 0x100);
    lemma_div_denominator(v / 0x100, 0x100, 0x100);
}

/// Reading a 2-byte group and writing the value back restores the group.
pub proof fn lemma_le2_bytes_of_le2(s: Seq<u8>)
    requires
        s.len() == 2,
    ensures
        le2_bytes(le2(s)) =~= s,
{
    let v = le2(s);
    lemma_fundamental_div_mod_converse(v, 0x100, s[1] as int, s[0] as int);
    lemma_small_mod(s[1] as nat, 0x100);
}

/// Reading a 3-byte group and writing the value back restores the group.
pub proof fn lemma_le3_bytes_of_le3(s: Seq<u8>)
    requires
        s.len() == 3,
    ensures
        le3_bytes(le3(s)) =~= s,
{
    let v = le3(s);
    lemma_fundamental_div_mod_converse(v, 0x100, s[1] + 0x100 * s[2], s[0] as int);
    lemma_fundamental_div_mod_converse(v / 0x100, 0x100, s[2] as int, s[1] as int);
    lemma_div_denominator(v, 0x100, 0x100);
    lemma_small_mod(s[2] as nat, 0x100);
}

/// Reading a 4-byte group and writing the value back restores the group.
pub proof fn lemma_le4_bytes_of_le4(s: Seq<u8>)
    requires
        s.len() == 4,
    ensures
        le4_bytes(le4(s)) =~= s,
{
    let v = le4(s);
    lemma_fundamental_div_mod_converse(
        v,
        0x100,
        s[1] + 0x100 * s[2] + 0x10000 * s[3],
        s[0] as int,
    );
    lemma_fundamental_div_mod_converse(v / 0x100, 0x100, s[2] + 0x100 * s[3], s[1] as int);
    lemma_div_denominator(v, 0x100, 0x100);
    lemma_fundamental_div_mod_converse(v / 0x10000, 0x100, s[3] as int, s[2] as int);
    lemma_div_denominator(v, 0x10000, 0x100);
}

// ---------------------------------------------------------------------------
// Executable readers and writers.
// ---------------------------------------------------------------------------
/// Read the 2-byte little-endian value at `pos`.
pub fn read_le2(buf: &Vec<u8>, pos: usize) -> (r: u64)
    requires
        pos + 2 <= buf.len(),
    ensures
        r == le2(buf@.subrange(pos as int, pos + 2)),
        r < 0x10000,
{
    let b0 = buf[pos] as u64;
    let b1 = buf[pos + 1] as u64;
    b0 + 0x100 * b1
}

/// Read the 4-byte little-endian value at `pos`.
pub fn read_le4(buf: &Vec<u8>, pos: usize) -> (r: u64)
    requires
        pos + 4 <= buf.len(),
    ensures
        r == le4(buf@.subrange(pos as int, pos + 4)),
        r < 0x1_0000_0000,
{
    let b0 = buf[pos] as u64;
    let b1 = buf[pos + 1] as u64;
    let b2 = buf[pos + 2] as u64;
    let b3 = buf[pos + 3] as u64;
    b0 + 0x100 * b1 + 0x10000 * b2 + 0x1000000 * b3
}

/// Append the low 2 bytes of `v`, little-endian first.
pub fn push_le2(buf: &mut Vec<u8>, v: u64)
    ensures
        final(buf)@ =~= old(buf)@ + le2_bytes(v as int),
{
    buf.push((v % 0x100) as u8);
    buf.push((v / 0x100 % 0x100) as u8);
}

/// Append the low 3 bytes of `v`, little-endian first.
pub fn push_le3(buf: &mut Vec<u8>, v: u64)
    ensures
        final(buf)@ =~= old(buf)@ + le3_bytes(v as int),
{
    buf.push((v % 0x100) as u8);
    buf.push((v / 0x100 % 0x100) as u8);
    buf.push((v / 0x10000 % 0x100) as u8);
}

/// Append the low 4 bytes of `v`, little-endian first.
pub fn push_le4(buf: &mut Vec<u8>, v: u64)
    ensures
        final(buf)@ =~= old(buf)@ + le4_bytes(v as int),
{
    buf.push((v % 0x100) as u8);
    buf.push((v / 0x100 % 0x100) as u8);
    buf.push((v / 0x10000 % 0x100) as u8);
    buf.push((v / 0x1000000 % 0x100) as u8);
}

} // verus!


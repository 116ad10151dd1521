//! Byte-level layout of the primitive values that make up a stream, and the
//! calls into `peek_poke` that write and read them.

use peek_poke::{ensure_red_zone, peek_from_slice, poke_inplace_slice, poke_into_vec};
use vstd::endian::{endianness, Endian};
use vstd::prelude::*;

verus! {

/// Number of bytes a machine word (`usize`) occupies.
pub open spec fn word_size() -> nat {
    vstd::layout::size_of::<usize>()
}

/// A machine word takes four or eight bytes.
pub proof fn lemma_word_size()
    ensures
        word_size() == 4 || word_size() == 8,
{
    broadcast use vstd::layout::layout_of_primitives;

}

/// 256 raised to the power `len`: the number of values that `len` bytes can hold.
pub open spec fn radix_pow(len: nat) -> nat
    decreases len,
{
    if len == 0 {
        1
    } else {
        256 * radix_pow((len - 1) as nat)
    }
}

/// The `len` bytes of `v`, least significant first.
pub open spec fn le_bytes(v: nat, len: nat) -> Seq<u8>
    decreases len,
{
    if len == 0 {
        Seq::empty()
    } else {
        seq![(v % 256) as u8] + le_bytes(v / 256, (len - 1) as nat)
    }
}

/// The number that the bytes `s` spell, least significant first.
pub open spec fn le_value(s: Seq<u8>) -> nat
    decreases s.len(),
{
    if s.len() == 0 {
        0
    } else {
        s[0] as nat + 256 * le_value(s.drop_first())
    }
}

/// The `len` bytes of `v` in the byte order of the machine.
pub open spec fn native_bytes(v: nat, len: nat) -> Seq<u8> {
    match endianness() {
        Endian::Little => le_bytes(v, len),
        Endian::Big => le_bytes(v, len).reverse(),
    }
}

/// The number that the bytes `s` spell in the byte order of the machine.
pub open spec fn native_value(s: Seq<u8>) -> nat {
    match endianness() {
        Endian::Little => le_value(s),
        Endian::Big => le_value(s.reverse()),
    }
}

/// `len` bytes are `len` bytes long.
pub proof fn lemma_le_bytes_len(v: nat, len: nat)
    ensures
        le_bytes(v, len).len() == len,
    decreases len,
{
    if len > 0 {
        lemma_le_bytes_len(v / 256, (len - 1) as nat);
    }
}

/// Reading back the bytes of a number that fits in them gives the number.
pub proof fn lemma_le_value_of_bytes(v: nat, len: nat)
    requires
        v < radix_pow(len),
    ensures
        le_value(le_bytes(v, len)) == v,
    decreases len,
{
    if len > 0 {
        let rest = le_bytes(v / 256, (len - 1) as nat);
        let all = le_bytes(v, len);
        lemma_le_bytes_len(v, len);
        assert(all.drop_first() =~= rest);
        lemma_le_value_of_bytes(v / 256, (len - 1) as nat);
        assert(all[0] as nat == v % 256);
    }
}

/// `len` bytes are `len` bytes long, in either byte order.
pub proof fn lemma_native_bytes_len(v: nat, len: nat)
    ensures
        native_bytes(v, len).len() == len,
{
    lemma_le_bytes_len(v, len);
}

/// Reading back the native bytes of a number that fits in them gives the number.
pub proof fn lemma_native_value_of_bytes(v: nat, len: nat)
    requires
        v < radix_pow(len),
    ensures
        native_value(native_bytes(v, len)) == v,
{
    lemma_le_value_of_bytes(v, len);
    assert(le_bytes(v, len).reverse().reverse() =~= le_bytes(v, len));
}

/// A machine word holds every number below 256 to the power of its size.
pub proof fn lemma_word_holds(v: nat)
    requires
        v <= usize::MAX,
    ensures
        v < radix_pow(word_size()),
        native_value(native_bytes(v, word_size())) == v,
{
    broadcast use vstd::layout::layout_of_primitives;

    lemma_word_size();
    assert(radix_pow(4) == 0x1_0000_0000) by {
        reveal_with_fuel(radix_pow, 5);
    }
    assert(radix_pow(8) == 0x1_0000_0000_0000_0000) by {
        reveal_with_fuel(radix_pow, 9);
    }
    lemma_native_value_of_bytes(v, word_size());
}

/// Size in bytes of the padding that closes a stream or a sublist: the largest
/// encoding of one item, a tag byte and two points of two 32-bit values each.
pub const RED_ZONE_SIZE: usize = 17;

/// The padding that closes a stream or a sublist: `RED_ZONE_SIZE` zero bytes.
pub open spec fn red_zone_bytes() -> Seq<u8> {
    Seq::new(RED_ZONE_SIZE as nat, |i: int| 0u8)
}

/// Appends one byte to `dst`.
///
/// Trusted: `peek_poke::poke_into_vec` on a `u8` reserves room and writes
/// the byte itself at the end of the vector. Like `Vec::push`, it fails only
/// where memory cannot be had.
#[verifier::external_body]
pub(crate) fn poke_u8(v: u8, dst: &mut Vec<u8>)
    ensures
        final(dst)@ == old(dst)@.push(v),
{
    poke_into_vec(&v, dst);
}

/// Appends the four bytes of `v` to `dst`.
///
/// Trusted: `peek_poke::poke_into_vec` on a `u32` copies the value's four
/// bytes, as they lie in memory, to the end of the vector.
#[verifier::external_body]
pub(crate) fn poke_u32(v: u32, dst: &mut Vec<u8>)
    ensures
        final(dst)@ == old(dst)@ + native_bytes(v as nat, 4),
{
    poke_into_vec(&v, dst);
}

/// Appends the bytes of the machine word `v` to `dst`.
///
/// Trusted: `peek_poke::poke_into_vec` on a `usize` copies the value's
/// bytes, as they lie in memory, to the end of the vector.
#[verifier::external_body]
pub(crate) fn poke_usize(v: usize, dst: &mut Vec<u8>)
    ensures
        final(dst)@ == old(dst)@ + native_bytes(v as nat, word_size()),
{
    poke_into_vec(&v, dst);
}

/// Overwrites the machine word that starts at `offset` in `dst` with `v`.
///
/// Trusted: `peek_poke::poke_inplace_slice` on a `usize` writes the value's
/// bytes at the front of the slice it is given, here `dst` from `offset` on,
/// and touches nothing else. It panics when the slice is shorter than a word,
/// which the precondition rules out.
#[verifier::external_body]
pub(crate) fn poke_usize_at(v: usize, dst: &mut Vec<u8>, offset: usize)
    requires
        offset + word_size() <= old(dst)@.len(),
    ensures
        final(dst)@ == old(dst)@.subrange(0, offset as int) + native_bytes(v as nat, word_size())
            + old(dst)@.subrange(offset + word_size(), old(dst)@.len() as int),
{
    poke_inplace_slice(&v, &mut dst[offset..]);
}

/// Appends the closing padding to `dst`.
///
/// Trusted: `peek_poke::ensure_red_zone` appends as many zero bytes as the
/// largest encoding of its type parameter takes. The type named here is laid
/// out as the largest item is: one byte and two pairs of `u32`, 17 bytes.
#[verifier::external_body]
pub(crate) fn poke_red_zone(dst: &mut Vec<u8>)
    ensures
        final(dst)@ == old(dst)@ + red_zone_bytes(),
{
    ensure_red_zone::<(u8, (u32, u32), (u32, u32))>(dst);
}

/// Reads one byte from the front of `src` and returns it with the rest.
///
/// Trusted: `peek_poke::peek_from_slice` on a `u8` copies the first byte out
/// and returns the slice behind it. It panics unless the slice is longer than
/// the value read, which the precondition demands.
#[verifier::external_body]
pub(crate) fn peek_u8<'a>(src: &'a [u8]) -> (r: (u8, &'a [u8]))
    requires
        1 < src@.len(),
    ensures
        r.0 == src@[0],
        r.1@ == src@.subrange(1, src@.len() as int),
{
    let mut v = 0u8;
    let rest = peek_from_slice(src, &mut v);
    (v, rest)
}

/// Reads a `u32` from the front of `src` and returns it with the rest.
///
/// Trusted: `peek_poke::peek_from_slice` on a `u32` copies the first four
/// bytes into the value, as they lie in memory, and returns the slice behind
/// them. It panics unless the slice is longer than four bytes.
#[verifier::external_body]
pub(crate) fn peek_u32<'a>(src: &'a [u8]) -> (r: (u32, &'a [u8]))
    requires
        4 < src@.len(),
    ensures
        r.0 as nat == native_value(src@.subrange(0, 4)),
        r.1@ == src@.subrange(4, src@.len() as int),
{
    let mut v = 0u32;
    let rest = peek_from_slice(src, &mut v);
    (v, rest)
}

/// Reads a machine word from the front of `src` and returns it with the rest.
///
/// Trusted: `peek_poke::peek_from_slice` on a `usize` copies the first word
/// of bytes into the value, as they lie in memory, and returns the slice
/// behind them. It panics unless the slice is longer than a word.
#[verifier::external_body]
pub(crate) fn peek_usize<'a>(src: &'a [u8]) -> (r: (usize, &'a [u8]))
    requires
        word_size() < src@.len(),
    ensures
        r.0 as nat == native_value(src@.subrange(0, word_size() as int)),
        r.1@ == src@.subrange(word_size() as int, src@.len() as int),
{
    let mut v = 0usize;
    let rest = peek_from_slice(src, &mut v);
    (v, rest)
}

} // verus!

//! Byte images: what a value looks like in memory, byte by byte.
//!
//! A GPU buffer holds values in the byte order of the machine that fills it.
//! The images here are therefore stated relative to
//! [`vstd::endian::endianness`], the byte order of the executing hardware.

use vstd::endian::{endianness, Endian};
use vstd::prelude::*;

verus! {

/// `n` zero bytes.
pub open spec fn zeros(n: nat) -> Seq<u8> {
    Seq::new(n, |i: int| 0u8)
}

/// The four bytes of a 32-bit word, least significant first.
pub open spec fn le_word(word: u32) -> Seq<u8> {
    seq![
        (word % 0x100) as u8,
        (word / 0x100 % 0x100) as u8,
        (word / 0x1_0000 % 0x100) as u8,
        (word / 0x100_0000 % 0x100) as u8,
    ]
}

/// The eight bytes of a 64-bit word, least significant first.
pub open spec fn le_dword(dword: u64) -> Seq<u8> {
    le_word((dword % 0x1_0000_0000) as u32) + le_word((dword / 0x1_0000_0000) as u32)
}

/// A little-endian image put into the byte order of the executing hardware.
pub open spec fn native(little_endian: Seq<u8>) -> Seq<u8> {
    match endianness() {
        Endian::Little => little_endian,
        Endian::Big => little_endian.reverse(),
    }
}

/// The in-memory image of a 32-bit word.
pub open spec fn word_image(word: u32) -> Seq<u8> {
    native(le_word(word))
}

/// The in-memory image of a 64-bit word.
pub open spec fn dword_image(dword: u64) -> Seq<u8> {
    native(le_dword(dword))
}

/// The unsigned word with the same bits as a two's-complement integer.
pub open spec fn twos_complement(value: i32) -> u32 {
    if value >= 0 {
        value as u32
    } else {
        (value + 0x1_0000_0000) as u32
    }
}

/// Calls `bytemuck::bytes_of` on a `u32`, which reinterprets the word as the
/// four bytes it occupies in memory. Claimed, not proved: these are the
/// word's bytes in the byte order of the executing hardware, the least
/// significant byte first where the hardware is little-endian and last where
/// it is big-endian.
#[verifier::external_body]
fn word_bytes(word: &u32) -> (bytes: &[u8])
    ensures
        bytes@ == word_image(*word),
{
    bytemuck::bytes_of(word)
}

/// Tells whether the executing hardware keeps the least significant byte
/// of a word first.
pub fn is_little_endian() -> (little: bool)
    ensures
        little == (endianness() is Little),
{
    let one: u32 = 1;
    let probe = word_bytes(&one);
    assert(le_word(1) == seq![1u8, 0u8, 0u8, 0u8]);
    assert(le_word(1).reverse()[0] == 0);
    probe[0] == 1
}

/// Reinterprets a signed integer as the unsigned word with the same bits.
pub fn to_word(value: i32) -> (word: u32)
    ensures
        word == twos_complement(value),
{
    if value >= 0 {
        value as u32
    } else {
        let low: u32 = (value + i32::MAX + 1) as u32;
        low + 0x8000_0000u32
    }
}

/// Appends `data` to `out`.
pub fn push_bytes(out: &mut Vec<u8>, data: &[u8])
    ensures
        final(out)@ == old(out)@ + data@,
{
    let mut i: usize = 0;
    while i < data.len()
        invariant
            i <= data@.len(),
            out@ == old(out)@ + data@.take(i as int),
        decreases data@.len() - i,
    {
        out.push(data[i]);
        i = i + 1;
        assert(data@.take(i as int) == data@.take(i - 1).push(data@[i - 1]));
    }
    assert(data@.take(i as int) == data@);
}

/// Appends `n` zero bytes to `out`.
pub fn push_zeros(out: &mut Vec<u8>, n: usize)
    ensures
        final(out)@ == old(out)@ + zeros(n as nat),
{
    let mut i: usize = 0;
    while i < n
        invariant
            i <= n,
            out@ == old(out)@ + zeros(i as nat),
        decreases n - i,
    {
        out.push(0u8);
        i = i + 1;
        assert(zeros(i as nat) == zeros((i - 1) as nat).push(0u8));
    }
}

/// Appends the in-memory image of `word` to `out`.
pub fn push_word(out: &mut Vec<u8>, word: u32)
    ensures
        final(out)@ == old(out)@ + word_image(word),
{
    push_bytes(out, word_bytes(&word));
}

/// Appends the in-memory image of `dword` to `out`: its two halves, the
/// less significant one first where the hardware keeps bytes in that order.
pub fn push_dword(out: &mut Vec<u8>, dword: u64)
    ensures
        final(out)@ == old(out)@ + dword_image(dword),
{
    let low: u32 = (dword % 0x1_0000_0000) as u32;
    let high: u32 = (dword / 0x1_0000_0000) as u32;
    if is_little_endian() {
        push_word(out, low);
        push_word(out, high);
    } else {
        push_word(out, high);
        push_word(out, low);
        assert((le_word(low) + le_word(high)).reverse() == le_word(high).reverse() + le_word(
            low,
        ).reverse());
    }
}

/// Words with the same image are the same word: the image loses nothing.
pub proof fn lemma_word_image_injective(a: u32, b: u32)
    requires
        word_image(a) == word_image(b),
    ensures
        a == b,
{
    let x = le_word(a);
    let y = le_word(b);
    assert(x == y) by {
        if endianness() is Big {
            assert forall|i: int| 0 <= i < 4 implies x[i] == y[i] by {
                assert(x.reverse()[3 - i] == y.reverse()[3 - i]);
            }
        }
    }
    assert(x[0] == y[0] && x[1] == y[1] && x[2] == y[2] && x[3] == y[3]);
}

/// Double words with the same image are the same double word.
pub proof fn lemma_dword_image_injective(a: u64, b: u64)
    requires
        dword_image(a) == dword_image(b),
    ensures
        a == b,
{
    let x = le_dword(a);
    let y = le_dword(b);
    assert(x == y) by {
        if endianness() is Big {
            assert forall|i: int| 0 <= i < 8 implies x[i] == y[i] by {
                assert(x.reverse()[7 - i] == y.reverse()[7 - i]);
            }
        }
    }
    let a_low = (a % 0x1_0000_0000) as u32;
    let a_high = (a / 0x1_0000_0000) as u32;
    let b_low = (b % 0x1_0000_0000) as u32;
    let b_high = (b / 0x1_0000_0000) as u32;
    lemma_same_parts(le_word(a_low), le_word(a_high), le_word(b_low), le_word(b_high));
    assert(native(le_word(a_low)) == native(le_word(b_low)));
    assert(native(le_word(a_high)) == native(le_word(b_high)));
    lemma_word_image_injective(a_low, b_low);
    lemma_word_image_injective(a_high, b_high);
}

/// Two byte strings that are equal and split at the same place have equal
/// parts.
pub proof fn lemma_same_parts(
    head: Seq<u8>,
    tail: Seq<u8>,
    other_head: Seq<u8>,
    other_tail: Seq<u8>,
)
    requires
        head.len() == other_head.len(),
        head + tail == other_head + other_tail,
    ensures
        head == other_head,
        tail == other_tail,
{
    let whole = head + tail;
    let other = other_head + other_tail;
    let at = head.len() as int;
    assert(whole.subrange(0, at) == head);
    assert(other.subrange(0, at) == other_head);
    assert(whole.len() == other.len());
    assert(whole.subrange(at, whole.len() as int) == tail);
    assert(other.subrange(at, other.len() as int) == other_tail);
}

} // verus!

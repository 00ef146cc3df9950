//! Hash functions on keys of the form `u:v:o:p`, computed in words of 32 bits
//! and reduced by one fixed prime. Each reads the key once. None of them is
//! seeded: a key has one hash.

use crate::cms::hash::{fold_sum, fold_word};
use vstd::prelude::*;
use vstd::string::StringSliceAdditionalSpecFns;
use vstd::utf8::encode_utf8;

verus! {

/// The prime that the hashes are reduced by.
pub const PRIME: u32 = 269891;

/// The size of a word of 32 bits read as a signed number.
pub open spec fn magnitude32(h: u32) -> u32 {
    if h >= 0x8000_0000 {
        (0x1_0000_0000 - h) as u32
    } else {
        h
    }
}

/// The size of a word of 64 bits read as a signed number.
pub open spec fn magnitude64(h: u64) -> u64 {
    if h >= 0x8000_0000_0000_0000 {
        (0x1_0000_0000_0000_0000 - h) as u64
    } else {
        h
    }
}

/// A word of 32 bits reduced: its size as a signed number, modulo the prime.
pub open spec fn reduced(h: u32) -> i32 {
    (magnitude32(h) % PRIME) as i32
}

/// The folding sum of a key: every character times 256 to the power of its
/// place in its group of four, summed in a word of 64 bits, and the size of
/// that word as a signed number reduced modulo the prime.
pub open spec fn fold_hash(key: Seq<char>) -> i32 {
    (magnitude64(fold_word(key)) % (PRIME as u64)) as i32
}

/// One step of the PJW hash: the word moves up by four bits, takes the
/// character, and its highest four bits, where they are not zero, are folded
/// into the bits from bit 4 on and cleared.
pub open spec fn pjw_step(h: u32, c: char) -> u32 {
    let moved = (h << 4).wrapping_add(c as u32);
    let test = moved & 0xf000_0000;
    if test != 0 {
        (moved ^ (test >> 24)) & !0xf000_0000u32
    } else {
        moved
    }
}

/// The PJW hash of a key before it is reduced.
pub open spec fn pjw_word(key: Seq<char>) -> u32 {
    key.fold_left(0u32, |h: u32, c: char| pjw_step(h, c))
}

/// One step of the ELF hash: as the PJW hash, but the highest four bits are
/// cleared whether or not they were folded.
pub open spec fn elf_step(h: u32, c: char) -> u32 {
    let moved = (h << 4).wrapping_add(c as u32);
    let x = moved & 0xf000_0000;
    if x != 0 {
        (moved ^ (x >> 24)) & !x
    } else {
        moved & !x
    }
}

/// The ELF hash of a key before it is reduced.
pub open spec fn elf_word(key: Seq<char>) -> u32 {
    key.fold_left(0u32, |h: u32, c: char| elf_step(h, c))
}

/// One step of the SDBM hash: the word times 65599, as two shifts less the
/// word, plus the character.
pub open spec fn sdbm_step(h: u32, c: char) -> u32 {
    (c as u32).wrapping_add(h << 6).wrapping_add(h << 16).wrapping_sub(h)
}

/// The SDBM hash of a key before it is reduced.
pub open spec fn sdbm_word(key: Seq<char>) -> u32 {
    key.fold_left(0u32, |h: u32, c: char| sdbm_step(h, c))
}

/// One step of the DEK hash: the word is turned left by five bits, and the
/// character is mixed in by exclusive or.
pub open spec fn dek_step(h: u32, c: char) -> u32 {
    ((h << 5) ^ (h >> 27)) ^ (c as u32)
}

/// The DEK hash of a key before it is reduced. It starts from the number of
/// bytes that the key takes, cut to 32 bits.
pub open spec fn dek_word(key: Seq<char>) -> u32 {
    key.fold_left(encode_utf8(key).len() as usize as u32, |h: u32, c: char| dek_step(h, c))
}

/// Reduces a word of 32 bits.
fn reduce(hash: u32) -> (r: i32)
    ensures
        r == reduced(hash),
        0 <= r < PRIME,
{
    let size: u32 = if hash >= 0x8000_0000 {
        0u32.wrapping_sub(hash)
    } else {
        hash
    };
    (size % PRIME) as i32
}

/// The code point of a character as a word of 32 bits.
fn code32(c: char) -> (r: u32)
    ensures
        r == c as u32,
{
    c as u32
}

/// The folding sum: the key is read in groups of four characters, each group
/// as a number in base 256 with its first character lowest, and the groups
/// are summed.
pub fn string_fold_hash(key: &str) -> (r: i32)
    ensures
        r == fold_hash(key@),
        0 <= r < PRIME,
{
    let sum = fold_sum(key);
    let size: u64 = if sum >= 0x8000_0000_0000_0000 {
        0u64.wrapping_sub(sum)
    } else {
        sum
    };
    (size % PRIME as u64) as i32
}

/// The PJW hash: the word moves up by four bits for every character, and
/// what reaches its highest four bits is folded back. The result keeps the
/// bits of the word that the prime has.
pub fn pjw_hash(s: &str) -> (r: i32)
    ensures
        r == (pjw_word(s@) & PRIME) as i32,
        0 <= r <= PRIME,
{
    let three_quarters: u32 = 24;
    let one_eighth: u32 = 4;
    let high_bits: u32 = 0xf000_0000;
    let mut hash: u32 = 0;
    for c in it: s.chars()
        invariant
            it.seq() == s@,
            three_quarters == 24,
            one_eighth == 4,
            high_bits == 0xf000_0000,
            hash == pjw_word(s@.take(it.index() as int)),
    {
        assert(s@.take(it.index() + 1).drop_last() =~= s@.take(it.index() as int));
        hash = (hash << one_eighth).wrapping_add(code32(c));
        let test = hash & high_bits;
        if test != 0 {
            hash = (hash ^ (test >> three_quarters)) & !high_bits;
        }
    }
    let kept = hash & PRIME;
    assert(kept <= 269891) by (bit_vector)
        requires
            kept == hash & 269891,
    ;
    kept as i32
}

/// The ELF hash, which is close to the PJW hash and is known from the ELF
/// object format.
pub fn elf_hash(s: &str) -> (r: i32)
    ensures
        r == reduced(elf_word(s@)),
        0 <= r < PRIME,
{
    let mut hash: u32 = 0;
    for c in it: s.chars()
        invariant
            it.seq() == s@,
            hash == elf_word(s@.take(it.index() as int)),
    {
        assert(s@.take(it.index() + 1).drop_last() =~= s@.take(it.index() as int));
        hash = (hash << 4).wrapping_add(code32(c));
        let x = hash & 0xf000_0000;
        if x != 0 {
            hash ^= x >> 24;
        }
        hash &= !x;
    }
    reduce(hash)
}

/// The SDBM hash: the key read as a number in base 65599.
pub fn sdbm_hash(s: &str) -> (r: i32)
    ensures
        r == reduced(sdbm_word(s@)),
        0 <= r < PRIME,
{
    let mut hash: u32 = 0;
    for c in it: s.chars()
        invariant
            it.seq() == s@,
            hash == sdbm_word(s@.take(it.index() as int)),
    {
        assert(s@.take(it.index() + 1).drop_last() =~= s@.take(it.index() as int));
        hash = code32(c).wrapping_add(hash << 6).wrapping_add(hash << 16).wrapping_sub(hash);
    }
    reduce(hash)
}

/// The DEK hash: it starts from the length of the key in bytes, and for
/// every character turns the word left by five bits and mixes the character
/// in.
pub fn dek_hash(s: &str) -> (r: i32)
    ensures
        r == reduced(dek_word(s@)),
        0 <= r < PRIME,
{
    let start: u32 = #[verifier::truncate]
    (s.len() as u32);
    let mut hash: u32 = start;
    for c in it: s.chars()
        invariant
            it.seq() == s@,
            hash == s@.take(it.index() as int).fold_left(start, |h: u32, c: char| dek_step(h, c)),
    {
        assert(s@.take(it.index() + 1).drop_last() =~= s@.take(it.index() as int));
        hash = ((hash << 5) ^ (hash >> 27)) ^ code32(c);
    }
    reduce(hash)
}

} // verus!

//! Hash functions on keys of the form `u:v:o:p`, which were found to spread
//! such keys well. Each reads the key once, computes in words of 64 bits that
//! wrap, and reduces the word by the modulus that the hasher was made with.
//! None of them is seeded: a key has one hash under one modulus.

use crate::text::code_point;
use vstd::prelude::*;
use vstd::string::StringSliceAdditionalSpecFns;
use vstd::utf8::encode_utf8;

verus! {

/// The bits that the PJW hash folds back: the highest eighth of a word.
pub const PJW_HIGH: u64 = 0xff00_0000_0000_0000;

/// The bits that the ELF hash folds back.
pub const ELF_HIGH: u64 = 0xf000_0000;

/// The modulus of a hasher that is made without one.
pub const DEFAULT_PRIME: u64 = 378551;

/// One step of the JS hash: the word after one more character.
pub open spec fn js_step(h: u64, c: char) -> u64 {
    h ^ (h << 5).wrapping_add(c as u64).wrapping_add(h >> 2)
}

/// The JS hash of a key before it is reduced.
pub open spec fn js_word(key: Seq<char>) -> u64 {
    key.fold_left(378551u64, |h: u64, c: char| js_step(h, c))
}

/// One step of the RS hash: the word and the multiplier after one more
/// character.
pub open spec fn rs_step(st: (u64, u64), c: char) -> (u64, u64) {
    (st.0.wrapping_mul(st.1).wrapping_add(c as u64), st.1.wrapping_mul(378551))
}

/// The RS hash of a key before it is reduced.
pub open spec fn rs_word(key: Seq<char>) -> u64 {
    key.fold_left((0u64, 63689u64), |st: (u64, u64), c: char| rs_step(st, c)).0
}

/// One step of the BKDR hash: the word after one more character.
pub open spec fn bkdr_step(h: u64, c: char) -> u64 {
    h.wrapping_mul(131).wrapping_add(c as u64)
}

/// The BKDR hash of a key before it is reduced.
pub open spec fn bkdr_word(key: Seq<char>) -> u64 {
    key.fold_left(0u64, |h: u64, c: char| bkdr_step(h, c))
}

/// The weight of the character at position `i` in the folding sum: 256 to
/// the power of its place in its group of four.
pub open spec fn fold_weight(i: int) -> u64 {
    if i % 4 == 0 {
        1
    } else if i % 4 == 1 {
        0x100
    } else if i % 4 == 2 {
        0x1_0000
    } else {
        0x100_0000
    }
}

/// The folding sum of a key before it is reduced: every character times its
/// weight, summed.
pub open spec fn fold_word(key: Seq<char>) -> u64
    decreases key.len(),
{
    if key.len() == 0 {
        0
    } else {
        fold_word(key.drop_last()).wrapping_add(
            (key.last() as u64 * fold_weight(key.len() - 1)) as u64,
        )
    }
}

/// One step of the PJW hash: the word moves up by a byte, takes the
/// character, and its highest byte, where it is not zero, is folded into the
/// second lowest and cleared.
pub open spec fn pjw_step(h: u64, c: char) -> u64 {
    let moved = (h << 8).wrapping_add(c as u64);
    let test = moved & PJW_HIGH;
    if test != 0 {
        (moved ^ (test >> 48)) & !PJW_HIGH
    } else {
        moved
    }
}

/// The PJW hash of a key before it is reduced.
pub open spec fn pjw_word(key: Seq<char>) -> u64 {
    key.fold_left(0u64, |h: u64, c: char| pjw_step(h, c))
}

/// One step of the ELF hash, on a byte of the key: the word moves up by four
/// bits, takes the byte, and the four bits from bit 28 on, where they are not
/// zero, are folded into the bits from bit 4 on and cleared.
pub open spec fn elf_step(h: u64, b: u8) -> u64 {
    let moved = (h << 4).wrapping_add(b as u64);
    let x = moved & ELF_HIGH;
    if x != 0 {
        (moved ^ (x >> 24)) & !x
    } else {
        moved & !x
    }
}

/// The ELF hash of the bytes of a key before it is reduced.
pub open spec fn elf_word(bytes: Seq<u8>) -> u64 {
    bytes.fold_left(0u64, |h: u64, b: u8| elf_step(h, b))
}

/// One step of the SDBM hash: the word times 65599, as two shifts less the
/// word, plus the character.
pub open spec fn sdbm_step(h: u64, c: char) -> u64 {
    (c as u64).wrapping_add(h << 6).wrapping_add(h << 16).wrapping_sub(h)
}

/// The SDBM hash of a key before it is reduced.
pub open spec fn sdbm_word(key: Seq<char>) -> u64 {
    key.fold_left(0u64, |h: u64, c: char| sdbm_step(h, c))
}

/// The folding sum of a key before it is reduced.
pub fn fold_sum(key: &str) -> (r: u64)
    ensures
        r == fold_word(key@),
{
    let mut sum: u64 = 0;
    let mut mul: u64 = 1;
    let mut place: u8 = 0;
    for c in it: key.chars()
        invariant
            it.seq() == key@,
            place == it.index() % 4,
            it.index() > 0 ==> mul == fold_weight(it.index() - 1),
            sum == fold_word(key@.take(it.index() as int)),
    {
        assert(key@.take(it.index() + 1).drop_last() =~= key@.take(it.index() as int));
        mul = if place == 0 {
            1
        } else {
            mul * 256
        };
        let code = code_point(c);
        assert(code * mul <= 0x10_ffff * 0x100_0000) by (nonlinear_arith)
            requires
                code <= 0x10_ffff,
                mul <= 0x100_0000,
        ;
        sum = sum.wrapping_add(code * mul);
        place = if place == 3 {
            0
        } else {
            place + 1
        };
    }
    assert(key@.take(key@.len() as int) =~= key@);
    sum
}

/// How many hash functions the bank holds.
pub const FAMILY: usize = 7;

/// The hash of `key` under the function of the given index, with the given
/// modulus. The bank is ordered: JS, BKDR, RS, folding sum, PJW, ELF, SDBM.
pub open spec fn hash_at(modulus: u64, idx: int, key: Seq<char>) -> u64 {
    if idx == 0 {
        js_word(key) % modulus
    } else if idx == 1 {
        bkdr_word(key) % modulus
    } else if idx == 2 {
        rs_word(key) % modulus
    } else if idx == 3 {
        fold_word(key) % modulus
    } else if idx == 4 {
        pjw_word(key) & modulus
    } else if idx == 5 {
        elf_word(encode_utf8(key)) % modulus
    } else {
        sdbm_word(key) % modulus
    }
}

/// A bank of hash functions with one modulus.
pub struct Hasher {
    prime: u64,
}

impl Default for Hasher {
    fn default() -> (r: Self)
        ensures
            r.modulus() == DEFAULT_PRIME,
    {
        Self { prime: DEFAULT_PRIME }
    }
}

impl Hasher {
    #[verifier::type_invariant]
    spec fn positive(self) -> bool {
        self.prime > 0
    }

    /// The modulus that the hashes are reduced by. It is never zero.
    pub closed spec fn modulus(&self) -> u64 {
        self.prime
    }

    /// A hasher with the modulus 378551.
    pub fn new() -> (r: Self)
        ensures
            r.modulus() == DEFAULT_PRIME,
    {
        Self { prime: DEFAULT_PRIME }
    }

    /// A hasher with the modulus `prime`.
    pub fn with_prime(prime: u64) -> (r: Self)
        requires
            prime > 0,
        ensures
            r.modulus() == prime,
    {
        Self { prime }
    }

    /// The modulus that the hashes are reduced by.
    pub fn prime(&self) -> (r: u64)
        ensures
            r == self.modulus(),
            r > 0,
    {
        proof {
            use_type_invariant(self);
        }
        self.prime
    }

    /// The JS hash: every character is mixed in by two shifts, two sums and an
    /// exclusive or.
    pub fn js_hash(&self, key: &str) -> (r: u64)
        ensures
            r == js_word(key@) % self.modulus(),
            r < self.modulus(),
    {
        let mut hash: u64 = 378551;
        for c in it: key.chars()
            invariant
                it.seq() == key@,
                hash == js_word(key@.take(it.index() as int)),
        {
            assert(key@.take(it.index() + 1).drop_last() =~= key@.take(it.index() as int));
            hash ^= (hash << 5).wrapping_add(code_point(c)).wrapping_add(hash >> 2);
        }
        hash % self.prime()
    }

    /// The RS hash: a product and a sum for every character, with a
    /// multiplier that is itself multiplied at every step.
    pub fn rs_hash(&self, key: &str) -> (r: u64)
        ensures
            r == rs_word(key@) % self.modulus(),
            r < self.modulus(),
    {
        let b: u64 = 378551;
        let mut a: u64 = 63689;
        let mut hash: u64 = 0;
        for c in it: key.chars()
            invariant
                it.seq() == key@,
                b == 378551,
                (hash, a) == key@.take(it.index() as int).fold_left(
                    (0u64, 63689u64),
                    |st: (u64, u64), c: char| rs_step(st, c),
                ),
        {
            assert(key@.take(it.index() + 1).drop_last() =~= key@.take(it.index() as int));
            hash = hash.wrapping_mul(a).wrapping_add(code_point(c));
            a = a.wrapping_mul(b);
        }
        hash % self.prime()
    }

    /// The BKDR hash: the key read as a number in base 131.
    pub fn bkdr_hash(&self, key: &str) -> (r: u64)
        ensures
            r == bkdr_word(key@) % self.modulus(),
            r < self.modulus(),
    {
        let seed: u64 = 131;
        let mut hash: u64 = 0;
        for c in it: key.chars()
            invariant
                it.seq() == key@,
                seed == 131,
                hash == bkdr_word(key@.take(it.index() as int)),
        {
            assert(key@.take(it.index() + 1).drop_last() =~= key@.take(it.index() as int));
            hash = hash.wrapping_mul(seed).wrapping_add(code_point(c));
        }
        hash % self.prime()
    }

    /// The folding sum: the key is read in groups of four characters, each
    /// group as a number in base 256 with its first character lowest, and the
    /// groups are summed.
    pub fn string_fold_hash(&self, key: &str) -> (r: u64)
        ensures
            r == fold_word(key@) % self.modulus(),
            r < self.modulus(),
    {
        fold_sum(key) % self.prime()
    }

    /// The PJW hash: the word moves up by a byte for every character, and
    /// what reaches its highest byte is folded back. The result keeps the
    /// bits of the word that the modulus has.
    pub fn pjw_hash(&self, s: &str) -> (r: u64)
        ensures
            r == pjw_word(s@) & self.modulus(),
            r <= self.modulus(),
    {
        let three_quarters: u64 = 48;
        let one_eighth: u64 = 8;
        let high_bits: u64 = PJW_HIGH;
        let mut hash: u64 = 0;
        for c in it: s.chars()
            invariant
                it.seq() == s@,
                three_quarters == 48,
                one_eighth == 8,
                high_bits == PJW_HIGH,
                hash == pjw_word(s@.take(it.index() as int)),
        {
            assert(s@.take(it.index() + 1).drop_last() =~= s@.take(it.index() as int));
            hash = (hash << one_eighth).wrapping_add(code_point(c));
            let test = hash & high_bits;
            if test != 0 {
                hash = (hash ^ (test >> three_quarters)) & !high_bits;
            }
        }
        let prime = self.prime();
        assert(hash & prime <= prime) by (bit_vector);
        hash & prime
    }

    /// The ELF hash, which is close to the PJW hash and is known from the
    /// ELF object format. It reads the bytes of the key.
    pub fn elf_hash(&self, s: &str) -> (r: u64)
        ensures
            r == elf_word(s.spec_bytes()) % self.modulus(),
            r < self.modulus(),
    {
        let bytes = s.as_bytes();
        let n = bytes.len();
        let mut hash: u64 = 0;
        let mut i: usize = 0;
        while i < n
            invariant
                i <= n,
                n == bytes@.len(),
                bytes@ == s.spec_bytes(),
                hash == elf_word(bytes@.take(i as int)),
            decreases n - i,
        {
            assert(bytes@.take(i + 1).drop_last() =~= bytes@.take(i as int));
            hash = (hash << 4).wrapping_add(bytes[i] as u64);
            let x = hash & ELF_HIGH;
            if x != 0 {
                hash ^= x >> 24;
            }
            hash &= !x;
            i += 1;
        }
        hash % self.prime()
    }

    /// The SDBM hash: the key read as a number in base 65599. It spreads
    /// keys well where their high bits vary much.
    pub fn sdbm_hash(&self, s: &str) -> (r: u64)
        ensures
            r == sdbm_word(s@) % self.modulus(),
            r < self.modulus(),
    {
        let mut hash: u64 = 0;
        for c in it: s.chars()
            invariant
                it.seq() == s@,
                hash == sdbm_word(s@.take(it.index() as int)),
        {
            assert(s@.take(it.index() + 1).drop_last() =~= s@.take(it.index() as int));
            hash = code_point(c).wrapping_add(hash << 6).wrapping_add(hash << 16).wrapping_sub(hash);
        }
        hash % self.prime()
    }
}

} // verus!

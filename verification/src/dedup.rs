//! Content-addressed duplicate filter.
//!
//! The proxy receives the same shred several times, once per upstream region
//! it subscribes to; deduplicating in front of the fan-out keeps egress
//! bandwidth proportional to unique content. The filter hashes the
//! fingerprint window of each datagram with two independently seeded hash
//! functions, each addressing its own large bitset. A fingerprint counts as
//! already seen exactly when both addressed bits were set before the call;
//! the call sets both bits. Within one generation (between two resets) a
//! repeated fingerprint is therefore always recognised — false negatives are
//! impossible — while a false positive requires both bit positions to collide
//! with earlier traffic.

use vstd::prelude::*;

verus! {

use crate::trusted::fresh_seed;

/// Multiplier of the 64-bit FNV-1a hash.
pub const FNV_PRIME: u64 = 0x100000001b3;

/// Seeded FNV-1a over a byte sequence: fold each byte in with xor, then
/// multiply by the FNV prime modulo 2^64.
pub open spec fn fnv1a(seed: u64, data: Seq<u8>) -> u64
    decreases data.len(),
{
    if data.len() == 0 {
        seed
    } else {
        vstd::wrapping::u64_specs::wrapping_mul(
            fnv1a(seed, data.drop_last()) ^ (data.last() as u64),
            FNV_PRIME,
        )
    }
}

/// Computes `fnv1a` on concrete bytes.
pub fn fnv1a_hash(seed: u64, data: &[u8]) -> (r: u64)
    ensures
        r == fnv1a(seed, data@),
{
    let mut h: u64 = seed;
    let mut i: usize = 0;
    while i < data.len()
        invariant
            0 <= i <= data@.len(),
            h == fnv1a(seed, data@.subrange(0, i as int)),
        decreases data@.len() - i,
    {
        proof {
            assert(data@.subrange(0, i + 1).drop_last() =~= data@.subrange(0, i as int));
            assert(data@.subrange(0, i + 1).last() == data@[i as int]);
        }
        h = (h ^ (data[i] as u64)).wrapping_mul(FNV_PRIME);
        i = i + 1;
    }
    proof {
        assert(data@.subrange(0, data@.len() as int) =~= data@);
    }
    h
}

/// True when bit `i` of the bitset held in `words` is set
/// (word `i / 64`, bit `i % 64`).
pub open spec fn bit_set(words: Seq<u64>, i: int) -> bool {
    ((words[i / 64] >> ((i % 64) as u64)) & 1u64) == 1u64
}

/// Setting bit `k` of a word sets exactly that bit and leaves the others.
proof fn lemma_or_bit(w: u64, k: u64, j: u64)
    by (bit_vector)
    requires
        k < 64,
        j < 64,
    ensures
        (((w | (1u64 << k)) >> j) & 1u64) == 1u64 <==> (j == k || ((w >> j) & 1u64) == 1u64),
{
}

/// No bit of the zero word is set.
proof fn lemma_zero_bit(j: u64)
    by (bit_vector)
    requires
        j < 64,
    ensures
        ((0u64 >> j) & 1u64) != 1u64,
{
}

/// A slot index reduced modulo the bit count lies inside the bitset.
proof fn lemma_mod_range(h: int, m: int)
    requires
        m >= 1,
        h >= 0,
    ensures
        0 <= h % m < m,
{
}

/// The duplicate filter: two seeded hash functions, two bitsets of
/// `64 * words` bits each, and the time of the last generation reset.
pub struct Deduper {
    bits_a: Vec<u64>,
    bits_b: Vec<u64>,
    seed_a: u64,
    seed_b: u64,
    last_reset_ms: u64,
}

impl Deduper {
    /// Both bitsets hold the same positive number of words, small enough
    /// that the bit count fits in `u64`.
    pub closed spec fn wf(self) -> bool {
        &&& self.bits_a@.len() == self.bits_b@.len()
        &&& self.bits_a@.len() >= 1
        &&& self.bits_a@.len() * 64int <= u64::MAX
    }

    /// Number of addressable bits in each bitset.
    pub closed spec fn num_bits(self) -> int {
        self.bits_a@.len() * 64int
    }

    /// The two hash seeds of the current generation.
    pub closed spec fn seeds(self) -> (u64, u64) {
        (self.seed_a, self.seed_b)
    }

    /// When the current generation began.
    pub closed spec fn last_reset(self) -> u64 {
        self.last_reset_ms
    }

    /// Bit position a fingerprint addresses in the first bitset.
    pub closed spec fn slot_a(self, data: Seq<u8>) -> int {
        fnv1a(self.seed_a, data) as int % self.num_bits()
    }

    /// Bit position a fingerprint addresses in the second bitset.
    pub closed spec fn slot_b(self, data: Seq<u8>) -> int {
        fnv1a(self.seed_b, data) as int % self.num_bits()
    }

    /// A fingerprint is held in the current generation when both bits it
    /// addresses are set.
    pub closed spec fn seen(self, data: Seq<u8>) -> bool {
        bit_set(self.bits_a@, self.slot_a(data)) && bit_set(self.bits_b@, self.slot_b(data))
    }

    /// Two fingerprints collide when they address the same bit in either
    /// bitset; only then can recording one make the other look seen.
    pub closed spec fn collides(self, d: Seq<u8>, e: Seq<u8>) -> bool {
        self.slot_a(d) == self.slot_a(e) || self.slot_b(d) == self.slot_b(e)
    }

    /// Every bit of both bitsets is clear.
    spec fn clear(self) -> bool {
        forall|i: int|
            0 <= i < self.num_bits() ==> !bit_set(self.bits_a@, i) && !bit_set(self.bits_b@, i)
    }

    /// Builds a filter with `num_words * 64` bits per bitset, the given hash
    /// seeds, and `now_ms` as the start of the first generation. No
    /// fingerprint is held yet.
    pub fn with_seeds(num_words: usize, seed_a: u64, seed_b: u64, now_ms: u64) -> (r: Deduper)
        requires
            num_words >= 1,
            num_words * 64 <= u64::MAX,
        ensures
            r.wf(),
            r.num_bits() == num_words * 64int,
            r.seeds() == (seed_a, seed_b),
            r.last_reset() == now_ms,
            forall|d: Seq<u8>| !r.seen(d),
    {
        let bits_a = zero_words(num_words);
        let bits_b = zero_words(num_words);
        let r = Deduper { bits_a, bits_b, seed_a, seed_b, last_reset_ms: now_ms };
        proof {
            lemma_all_words_zero_clear(r);
            assert forall|d: Seq<u8>| !r.seen(d) by {
                lemma_mod_range(fnv1a(r.seed_a, d) as int, r.num_bits());
                lemma_mod_range(fnv1a(r.seed_b, d) as int, r.num_bits());
            }
        }
        r
    }

    /// Builds a filter with seeds drawn from the process's random generator.
    pub fn new_random(num_words: usize, now_ms: u64) -> (r: Deduper)
        requires
            num_words >= 1,
            num_words * 64 <= u64::MAX,
        ensures
            r.wf(),
            r.num_bits() == num_words * 64int,
            r.last_reset() == now_ms,
            forall|d: Seq<u8>| !r.seen(d),
    {
        let seed_a = fresh_seed();
        let seed_b = fresh_seed();
        Deduper::with_seeds(num_words, seed_a, seed_b, now_ms)
    }

    /// Reads bit `slot` of one bitset.
    fn get_bit(words: &Vec<u64>, slot: u64) -> (r: bool)
        requires
            slot < words@.len() * 64,
        ensures
            r == bit_set(words@, slot as int),
    {
        let n = words.len();
        assert(slot / 64 < n);
        let w = words[(slot / 64) as usize];
        ((w >> (slot % 64)) & 1u64) == 1u64
    }

    /// Sets bit `slot` of one bitset; every other bit keeps its value.
    fn set_bit(words: &mut Vec<u64>, slot: u64)
        requires
            slot < old(words)@.len() * 64,
        ensures
            final(words)@.len() == old(words)@.len(),
            bit_set(final(words)@, slot as int),
            forall|i: int|
                0 <= i < old(words)@.len() * 64 && i != slot ==> bit_set(final(words)@, i)
                    == bit_set(old(words)@, i),
    {
        let n = words.len();
        assert(slot / 64 < n);
        let wi = (slot / 64) as usize;
        let k = slot % 64;
        let w = words[wi];
        let neww = w | (1u64 << k);
        words.set(wi, neww);
        proof {
            assert(bit_set(words@, slot as int)) by {
                lemma_or_bit(w, k, k);
            }
            assert forall|i: int|
                0 <= i < old(words)@.len() * 64 && i != slot implies bit_set(words@, i) == bit_set(
                old(words)@,
                i,
            ) by {
                if i / 64 == wi as int {
                    lemma_or_bit(w, k, (i % 64) as u64);
                    if (i % 64) as u64 == k {
                        vstd::arithmetic::div_mod::lemma_fundamental_div_mod(slot as int, 64);
                        vstd::arithmetic::div_mod::lemma_fundamental_div_mod(i, 64);
                        assert(false);
                    }
                }
            }
        }
    }

    /// Records the fingerprint `data` and reports whether it was already
    /// held. The generation only grows: everything seen stays seen, and the
    /// only fingerprints that can newly look seen are those that collide
    /// with `data` in a bitset.
    pub fn observe(&mut self, data: &[u8]) -> (r: bool)
        requires
            old(self).wf(),
        ensures
            final(self).wf(),
            r == old(self).seen(data@),
            final(self).seen(data@),
            final(self).num_bits() == old(self).num_bits(),
            final(self).seeds() == old(self).seeds(),
            final(self).last_reset() == old(self).last_reset(),
            forall|d: Seq<u8>| old(self).seen(d) ==> final(self).seen(d),
            forall|d: Seq<u8>|
                final(self).seen(d) ==> old(self).seen(d) || old(self).collides(d, data@),
            forall|d: Seq<u8>, e: Seq<u8>|
                final(self).collides(d, e) == old(self).collides(d, e),
    {
        let nbits: u64 = (self.bits_a.len() as u64) * 64;
        let ha = fnv1a_hash(self.seed_a, data);
        let hb = fnv1a_hash(self.seed_b, data);
        let sa = ha % nbits;
        let sb = hb % nbits;
        let was_a = Deduper::get_bit(&self.bits_a, sa);
        let was_b = Deduper::get_bit(&self.bits_b, sb);
        Deduper::set_bit(&mut self.bits_a, sa);
        Deduper::set_bit(&mut self.bits_b, sb);
        proof {
            assert forall|d: Seq<u8>|
                (old(self).seen(d) ==> self.seen(d)) && (self.seen(d) ==> old(self).seen(d) || old(
                    self,
                ).collides(d, data@)) by {
                lemma_mod_range(fnv1a(self.seed_a, d) as int, self.num_bits());
                lemma_mod_range(fnv1a(self.seed_b, d) as int, self.num_bits());
            }
        }
        was_a && was_b
    }

    /// Starts a fresh generation: clears both bitsets, installs the given
    /// seeds, and records `now_ms` as the reset time.
    pub fn reset_with_seeds(&mut self, seed_a: u64, seed_b: u64, now_ms: u64)
        requires
            old(self).wf(),
        ensures
            final(self).wf(),
            final(self).num_bits() == old(self).num_bits(),
            final(self).seeds() == (seed_a, seed_b),
            final(self).last_reset() == now_ms,
            forall|d: Seq<u8>| !final(self).seen(d),
    {
        let n = self.bits_a.len();
        self.bits_a = zero_words(n);
        self.bits_b = zero_words(n);
        self.seed_a = seed_a;
        self.seed_b = seed_b;
        self.last_reset_ms = now_ms;
        proof {
            lemma_all_words_zero_clear(*self);
            assert forall|d: Seq<u8>| !self.seen(d) by {
                lemma_mod_range(fnv1a(self.seed_a, d) as int, self.num_bits());
                lemma_mod_range(fnv1a(self.seed_b, d) as int, self.num_bits());
            }
        }
    }

    /// Ages the generation: when at least `interval_ms` has passed since the
    /// last reset, swap in an empty, freshly seeded generation; otherwise
    /// leave the filter untouched.
    pub fn maybe_reset(&mut self, now_ms: u64, interval_ms: u64)
        requires
            old(self).wf(),
        ensures
            final(self).wf(),
            final(self).num_bits() == old(self).num_bits(),
            now_ms >= old(self).last_reset() && now_ms - old(self).last_reset() >= interval_ms
                ==> final(self).last_reset() == now_ms && (forall|d: Seq<u8>| !final(self).seen(d)),
            !(now_ms >= old(self).last_reset() && now_ms - old(self).last_reset() >= interval_ms)
                ==> *final(self) == *old(self),
    {
        if now_ms >= self.last_reset_ms && now_ms - self.last_reset_ms >= interval_ms {
            let seed_a = fresh_seed();
            let seed_b = fresh_seed();
            self.reset_with_seeds(seed_a, seed_b, now_ms);
        }
    }
}

/// A vector of `n` zero words.
fn zero_words(n: usize) -> (r: Vec<u64>)
    ensures
        r@.len() == n,
        forall|i: int| 0 <= i < n ==> r@[i] == 0u64,
{
    let mut v: Vec<u64> = Vec::new();
    let mut i: usize = 0;
    while i < n
        invariant
            0 <= i <= n,
            v@.len() == i,
            forall|j: int| 0 <= j < i ==> v@[j] == 0u64,
        decreases n - i,
    {
        v.push(0u64);
        i = i + 1;
    }
    v
}

/// A filter whose words are all zero holds no bit.
proof fn lemma_all_words_zero_clear(d: Deduper)
    requires
        d.wf(),
        forall|i: int| 0 <= i < d.bits_a@.len() ==> d.bits_a@[i] == 0u64,
        forall|i: int| 0 <= i < d.bits_b@.len() ==> d.bits_b@[i] == 0u64,
    ensures
        d.clear(),
{
    assert forall|i: int|
        0 <= i < d.num_bits() implies !bit_set(d.bits_a@, i) && !bit_set(d.bits_b@, i) by {
        lemma_zero_bit((i % 64) as u64);
        assert(d.bits_a@[i / 64] == 0u64);
        assert(d.bits_b@[i / 64] == 0u64);
    }
}

} // verus!

//! The Bloom filter: a fixed geometry `(m, k)` derived at construction from
//! the expected element count and the target false-positive rate, a packed
//! bit store of `m` slots, and insert/query over `k` derived slot indices.
//!
//! An inserted item is always reported as present afterwards; an item never
//! inserted may be reported present with small probability, never the other
//! way round. The laws at the end of this module state and prove exactly
//! that, together with idempotence and determinism.

use vstd::prelude::*;
use vstd::arithmetic::div_mod::lemma_mod_bound;
use crate::bits::{bits_of, spec_max_bits, BitStore};
use crate::hashing::{sip_hash, sip_hash_of, StableHash};
use crate::params::{calc_k, calc_m, spec_calc_k, spec_calc_m, Rate};

verus! {

/// A configuration that cannot yield a filter.
#[derive(Clone, Copy, Debug, PartialEq, Eq, Structural)]
pub enum ConfigError {
    /// The expected element count was zero, or the rate was not strictly
    /// between zero and one.
    InvalidParameters,
    /// The derived bit count exceeds what the bit store can hold.
    TooLarge,
}

/// The slot that hash function `i` sends an item to, in a bit array of
/// length `m`: the keyed digest reduced modulo `m`.
pub open spec fn slot_index(i: int, item: Seq<u8>, m: int) -> int
    recommends
        m >= 1,
{
    (sip_hash_of(i as u64, item) as int) % m
}

/// Whether a bit state answers a membership query for `item` with true:
/// every one of the `k` derived slots holds a set bit.
pub open spec fn spec_contains(bits: Seq<bool>, k: nat, item: Seq<u8>) -> bool {
    forall|i: int|
        0 <= i < k ==> bits[#[trigger] slot_index(i, item, bits.len() as int)]
}

/// The bit state after inserting `item`: exactly the previously set slots
/// plus the `k` slots derived for `item`.
pub open spec fn spec_insert(bits: Seq<bool>, k: nat, item: Seq<u8>) -> Seq<bool> {
    Seq::new(
        bits.len(),
        |j: int|
            bits[j] || exists|i: int|
                0 <= i < k && #[trigger] slot_index(i, item, bits.len() as int) == j,
    )
}

/// Bloom filter data structure.
pub struct BloomFilter {
    // Number of hash functions
    num_hash_functions: usize,
    // Packed bit store backing the filter
    bits: BitStore,
}

impl BloomFilter {
    /// The number of hash functions.
    pub closed spec fn spec_k(&self) -> nat {
        self.num_hash_functions as nat
    }

    /// The bit state.
    pub closed spec fn spec_bits(&self) -> Seq<bool> {
        bits_of(self.bits)
    }

    /// The bit-array length.
    pub open spec fn spec_m(&self) -> nat {
        self.spec_bits().len()
    }

    /// A usable filter has at least one bit and one hash function.
    pub open spec fn wf(&self) -> bool {
        self.spec_m() >= 1 && self.spec_k() >= 1
    }

    /// Instantiates a new filter for the expected `num_elements` and the
    /// target `false_positive_rate`.
    ///
    /// The geometry is exactly `spec_calc_m` and `spec_calc_k`, with `k`
    /// derived from the already-materialized integer `m`; every slot starts
    /// false. A zero count or an out-of-range rate is a configuration
    /// error; so is a derived bit count beyond the store's capacity.
    pub fn new(num_elements: usize, false_positive_rate: Rate) -> (r: Result<
        BloomFilter,
        ConfigError,
    >)
        ensures
            ({
                let n = num_elements as int;
                let fnum = false_positive_rate.num as int;
                let fden = false_positive_rate.den as int;
                let m = spec_calc_m(n, fnum, fden);
                match r {
                    Ok(bf) => {
                        &&& num_elements >= 1
                        &&& false_positive_rate.valid()
                        &&& m <= spec_max_bits()
                        &&& bf.wf()
                        &&& bf.spec_m() == m
                        &&& bf.spec_k() == spec_calc_k(n, m)
                        &&& bf.spec_bits() == Seq::new(m as nat, |j: int| false)
                    },
                    Err(e) => {
                        &&& (e == ConfigError::InvalidParameters <==> (num_elements == 0
                            || !false_positive_rate.valid()))
                        &&& (e == ConfigError::TooLarge <==> (num_elements >= 1
                            && false_positive_rate.valid() && m > spec_max_bits()))
                    },
                }
            }),
    {
        if num_elements == 0 || !false_positive_rate.is_valid() {
            return Err(ConfigError::InvalidParameters);
        }
        let m = calc_m(num_elements, false_positive_rate);
        if m > usize::MAX / 8 {
            return Err(ConfigError::TooLarge);
        }
        let k = calc_k(num_elements, m);
        Ok(BloomFilter { num_hash_functions: k, bits: BitStore::repeat(false, m) })
    }

    /// Returns size in bytes of the Bloom filter's bit store.
    pub fn size(&self) -> (r: usize)
        ensures
            r == self.spec_m() / 8,
    {
        self.bits.len() / 8
    }

    /// Calculates the slot index for the given item and hash function
    /// number: the item's stable bytes are hashed under the key
    /// `hash_func_num` and the digest is reduced modulo `m`.
    fn calc_bit<T: StableHash>(&self, item: &T, hash_func_num: usize) -> (b: usize)
        requires
            self.spec_m() >= 1,
        ensures
            b == slot_index(hash_func_num as int, item.stable_bytes(), self.spec_m() as int),
            b < self.spec_m(),
    {
        let mut buf: Vec<u8> = Vec::new();
        item.push_stable_bytes(&mut buf);
        proof {
            assert(buf@ =~= item.stable_bytes());
        }
        let m = self.bits.len();
        let h = sip_hash(hash_func_num as u64, buf.as_slice());
        proof {
            lemma_mod_bound(h as int, m as int);
        }
        (h % (m as u64)) as usize
    }

    /// Inserts an item: each of the `k` derived slots is set true; no
    /// other slot changes, and no slot is ever cleared.
    pub fn insert<T: StableHash>(&mut self, item: &T)
        requires
            old(self).wf(),
        ensures
            final(self).wf(),
            final(self).spec_k() == old(self).spec_k(),
            final(self).spec_m() == old(self).spec_m(),
            final(self).spec_bits() == spec_insert(
                old(self).spec_bits(),
                old(self).spec_k(),
                item.stable_bytes(),
            ),
    {
        let ghost orig = self.spec_bits();
        let ghost x = item.stable_bytes();
        let k = self.num_hash_functions;
        let mut i: usize = 0;
        proof {
            assert(self.spec_bits() =~= spec_insert(orig, 0, x));
        }
        while i < k
            invariant
                k == self.num_hash_functions,
                old(self).num_hash_functions == self.num_hash_functions,
                orig == old(self).spec_bits(),
                x == item.stable_bytes(),
                orig.len() >= 1,
                k >= 1,
                i <= k,
                self.spec_bits() == spec_insert(orig, i as nat, x),
            decreases k - i,
        {
            proof {
                assert(self.spec_m() == orig.len());
            }
            let b = self.calc_bit(item, i);
            self.bits.set(b, true);
            proof {
                lemma_insert_step(orig, i as nat, x);
            }
            i = i + 1;
        }
    }

    /// Returns whether the Bloom filter contains the item. It may return a
    /// false positive but will never return a false negative.
    ///
    /// The `k` derived slots are read in turn; the first slot found false
    /// settles the answer as false, and the remaining slots are not read.
    pub fn contains<T: StableHash>(&self, item: &T) -> (r: bool)
        requires
            self.wf(),
        ensures
            r == spec_contains(self.spec_bits(), self.spec_k(), item.stable_bytes()),
    {
        let ghost x = item.stable_bytes();
        let k = self.num_hash_functions;
        let mut i: usize = 0;
        while i < k
            invariant
                k == self.num_hash_functions,
                self.wf(),
                i <= k,
                forall|t: int|
                    0 <= t < i ==> self.spec_bits()[#[trigger] slot_index(
                        t,
                        x,
                        self.spec_m() as int,
                    )],
                x == item.stable_bytes(),
            decreases k - i,
        {
            let b = self.calc_bit(item, i);
            if !self.bits.get(b) {
                proof {
                    assert(!self.spec_bits()[slot_index(i as int, x, self.spec_m() as int)]);
                }
                return false;
            }
            i = i + 1;
        }
        true
    }
}

/// One insert step grows the covered hash functions by one: setting slot
/// `i` of an item in the state that already holds the item's first `i`
/// slots yields the state that holds its first `i + 1` slots.
proof fn lemma_insert_step(bits: Seq<bool>, i: nat, x: Seq<u8>)
    requires
        bits.len() >= 1,
    ensures
        spec_insert(bits, i, x).update(slot_index(i as int, x, bits.len() as int), true)
            =~= spec_insert(bits, (i + 1) as nat, x),
{
    let m = bits.len() as int;
    let b = slot_index(i as int, x, m);
    lemma_mod_bound(sip_hash_of(i as u64, x) as int, m);
    let lhs = spec_insert(bits, i, x).update(b, true);
    let rhs = spec_insert(bits, (i + 1) as nat, x);
    assert forall|j: int| 0 <= j < m implies lhs[j] == rhs[j] by {
        if j == b {
            assert(slot_index(i as int, x, m) == j);
            assert(rhs[j]);
        } else {
            if spec_insert(bits, i, x)[j] && !bits[j] {
                let t = choose|t: int| 0 <= t < i && slot_index(t, x, m) == j;
                assert(0 <= t < i + 1 && slot_index(t, x, m) == j);
            }
            if rhs[j] && !bits[j] {
                let t = choose|t: int| 0 <= t < i + 1 && slot_index(t, x, m) == j;
                assert(t != i);
                assert(0 <= t < i && slot_index(t, x, m) == j);
            }
        }
    }
}

/// The bit state a filter of geometry `(m, k)` holds after inserting the
/// given items in order, starting from the all-false state of construction.
pub open spec fn bits_after(m: nat, k: nat, items: Seq<Seq<u8>>) -> Seq<bool>
    decreases items.len(),
{
    if items.len() == 0 {
        Seq::new(m, |j: int| false)
    } else {
        spec_insert(bits_after(m, k, items.drop_last()), k, items.last())
    }
}

/// Inserting never changes the bit-array length.
pub proof fn lemma_bits_after_len(m: nat, k: nat, items: Seq<Seq<u8>>)
    ensures
        bits_after(m, k, items).len() == m,
    decreases items.len(),
{
    if items.len() != 0 {
        lemma_bits_after_len(m, k, items.drop_last());
    }
}

/// Law: inserting an item sets every one of its own slots, so a query for
/// it right after the insert answers true.
pub proof fn lemma_insert_sets_own_slots(bits: Seq<bool>, k: nat, x: Seq<u8>)
    requires
        bits.len() >= 1,
    ensures
        spec_contains(spec_insert(bits, k, x), k, x),
{
    let m = bits.len() as int;
    let after = spec_insert(bits, k, x);
    assert(after.len() == bits.len());
    assert forall|i: int| 0 <= i < k implies after[#[trigger] slot_index(i, x, m)] by {
        lemma_mod_bound(sip_hash_of(i as u64, x) as int, m);
        assert(0 <= i < k && slot_index(i, x, m) == slot_index(i, x, m));
    }
}

/// Law: set bits only help a query; a state with at least the same set
/// bits answers at least the same queries with true.
pub proof fn lemma_contains_monotone(b1: Seq<bool>, b2: Seq<bool>, k: nat, x: Seq<u8>)
    requires
        b1.len() == b2.len(),
        b1.len() >= 1,
        forall|j: int| 0 <= j < b1.len() ==> (#[trigger] b1[j] ==> b2[j]),
        spec_contains(b1, k, x),
    ensures
        spec_contains(b2, k, x),
{
    let m = b1.len() as int;
    assert forall|i: int| 0 <= i < k implies b2[#[trigger] slot_index(i, x, m)] by {
        lemma_mod_bound(sip_hash_of(i as u64, x) as int, m);
        assert(b1[slot_index(i, x, m)]);
    }
}

/// Law: an insert only sets bits; every bit set before stays set after.
pub proof fn lemma_insert_monotone(bits: Seq<bool>, k: nat, x: Seq<u8>)
    ensures
        spec_insert(bits, k, x).len() == bits.len(),
        forall|j: int| 0 <= j < bits.len() ==> (#[trigger] bits[j] ==> spec_insert(bits, k, x)[j]),
{
}

/// Law (no false negatives): once an item stands anywhere in the insert
/// sequence, the query for it on the resulting state answers true, whatever
/// other inserts came before or after it.
pub proof fn lemma_no_false_negatives(m: nat, k: nat, items: Seq<Seq<u8>>, x: Seq<u8>)
    requires
        m >= 1,
        items.contains(x),
    ensures
        spec_contains(bits_after(m, k, items), k, x),
    decreases items.len(),
{
    let prev = items.drop_last();
    lemma_bits_after_len(m, k, prev);
    lemma_bits_after_len(m, k, items);
    if items.last() == x {
        lemma_insert_sets_own_slots(bits_after(m, k, prev), k, x);
    } else {
        let idx = choose|t: int| 0 <= t < items.len() && items[t] == x;
        assert(prev[idx] == x);
        assert(prev.contains(x));
        lemma_no_false_negatives(m, k, prev, x);
        lemma_insert_monotone(bits_after(m, k, prev), k, items.last());
        lemma_contains_monotone(bits_after(m, k, prev), bits_after(m, k, items), k, x);
    }
}

/// Law (idempotence): inserting an item twice leaves exactly the bit state
/// that inserting it once leaves, so every later query answers the same.
pub proof fn lemma_insert_idempotent(bits: Seq<bool>, k: nat, x: Seq<u8>)
    requires
        bits.len() >= 1,
    ensures
        spec_insert(spec_insert(bits, k, x), k, x) == spec_insert(bits, k, x),
{
    let m = bits.len() as int;
    let once = spec_insert(bits, k, x);
    let twice = spec_insert(once, k, x);
    assert(once.len() == bits.len());
    assert forall|j: int| 0 <= j < m implies twice[j] == once[j] by {
        if !once[j] && twice[j] {
            let t = choose|t: int| 0 <= t < k && slot_index(t, x, m) == j;
            assert(once[j]);
        }
    }
    assert(twice =~= once);
}

/// Law (determinism): the state after a sequence of inserts is a function
/// of the geometry and the sequence alone, so two filters built with the
/// same parameters and fed the same inserts answer every query alike.
pub proof fn lemma_deterministic(
    m: nat,
    k: nat,
    items: Seq<Seq<u8>>,
    b1: Seq<bool>,
    b2: Seq<bool>,
    q: Seq<u8>,
)
    requires
        b1 == bits_after(m, k, items),
        b2 == bits_after(m, k, items),
    ensures
        b1 == b2,
        spec_contains(b1, k, q) == spec_contains(b2, k, q),
{
}

} // verus!

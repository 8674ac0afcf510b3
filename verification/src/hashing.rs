//! The hash family: `k` independent index derivations are simulated from one
//! keyed SipHash primitive by reseeding it with the hash-function number.
//! The secondary key is the fixed constant zero, never randomized, so two
//! filters built alike behave bit-identically.
//!
//! Items of any shape take part through [`StableHash`], which turns an item
//! into a stable, deterministic byte sequence.

use vstd::prelude::*;
use vstd::string::StringSliceAdditionalSpecFns;

verus! {

/// The SipHash-2-4 digest of a byte sequence under the keys `(key, 0)`:
/// a pure function of the key and the bytes.
pub uninterp spec fn sip_hash_of(key: u64, data: Seq<u8>) -> u64;

/// Relies on siphasher's `SipHasher::new_with_keys` together with its
/// `Hasher::write` and `Hasher::finish` impls: the digest of the written
/// bytes under SipHash-2-4 keyed with `(key, 0)`, a deterministic function
/// of the key and the bytes alone.
#[verifier::external_body]
pub(crate) fn sip_hash(key: u64, data: &[u8]) -> (r: u64)
    ensures
        r == sip_hash_of(key, data@),
{
    let mut hasher = siphasher::sip::SipHasher::new_with_keys(key, 0);
    std::hash::Hasher::write(&mut hasher, data);
    std::hash::Hasher::finish(&hasher)
}

/// An item that contributes a stable, deterministic byte sequence to the
/// hash family. A composite type appends the sequences of its parts in a
/// fixed order, so structurally equal items always hash alike.
pub trait StableHash {
    /// The byte sequence that stands for this item.
    spec fn stable_bytes(&self) -> Seq<u8>;

    /// Appends the item's byte sequence to `out`.
    fn push_stable_bytes(&self, out: &mut Vec<u8>)
        ensures
            final(out)@ == old(out)@ + self.stable_bytes(),
    ;
}

/// String slices contribute their UTF-8 bytes, closed by a byte that no
/// UTF-8 sequence contains, so that neighbouring parts cannot blend.
impl StableHash for &str {
    open spec fn stable_bytes(&self) -> Seq<u8> {
        self.spec_bytes().push(0xff)
    }

    fn push_stable_bytes(&self, out: &mut Vec<u8>)
        ensures
            final(out)@ == old(out)@ + self.stable_bytes(),
    {
        out.extend_from_slice(self.as_bytes());
        out.push(0xff);
        proof {
            assert(out@ =~= old(out)@ + self.stable_bytes());
        }
    }
}

/// Owned strings contribute exactly what the borrowed slice would.
impl StableHash for String {
    open spec fn stable_bytes(&self) -> Seq<u8> {
        vstd::utf8::encode_utf8(self@).push(0xff)
    }

    fn push_stable_bytes(&self, out: &mut Vec<u8>)
        ensures
            final(out)@ == old(out)@ + self.stable_bytes(),
    {
        out.extend_from_slice(self.as_str().as_bytes());
        out.push(0xff);
        proof {
            assert(out@ =~= old(out)@ + self.stable_bytes());
        }
    }
}

/// Unsigned 64-bit integers contribute their eight little-endian bytes.
impl StableHash for u64 {
    open spec fn stable_bytes(&self) -> Seq<u8> {
        vstd::bytes::spec_u64_to_le_bytes(*self)
    }

    fn push_stable_bytes(&self, out: &mut Vec<u8>)
        ensures
            final(out)@ == old(out)@ + self.stable_bytes(),
    {
        let mut le = vstd::bytes::u64_to_le_bytes(*self);
        out.append(&mut le);
    }
}

/// Byte vectors contribute their bytes, preceded by their length so that
/// neighbouring parts cannot blend.
impl StableHash for Vec<u8> {
    open spec fn stable_bytes(&self) -> Seq<u8> {
        vstd::bytes::spec_u64_to_le_bytes(self@.len() as u64) + self@
    }

    fn push_stable_bytes(&self, out: &mut Vec<u8>)
        ensures
            final(out)@ == old(out)@ + self.stable_bytes(),
    {
        let mut le = vstd::bytes::u64_to_le_bytes(self.len() as u64);
        out.append(&mut le);
        out.extend_from_slice(self.as_slice());
        proof {
            assert(out@ =~= old(out)@ + self.stable_bytes());
        }
    }
}

} // verus!

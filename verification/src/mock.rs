//! A key box and a hasher without cryptography, for trying the rest out.

use crate::codec::{encode, Wire};
use crate::crypto::{is_multisignature, KeyBox, SignatureSet};
use crate::nodes::{Hash64, Hasher, Index, NodeCount, NodeIndex};
use crate::units::{Signature, SignatureView};
use crate::value::Value;
use vstd::prelude::*;

verus! {

/// The keys of a participant that signs by writing down its index and the message.
#[derive(Clone, Debug, PartialEq, Eq)]
pub struct Keychain {
    count: NodeCount,
    index: NodeIndex,
}

/// What the participant `index` signs `msg` with: the encoding of its index, then the message.
pub open spec fn mock_signature(msg: Seq<u8>, index: NodeIndex) -> SignatureView {
    SignatureView { bytes: NodeIndex::enc(index) + msg }
}

impl Keychain {
    pub fn new(count: NodeCount, index: NodeIndex) -> (keychain: Self)
        ensures
            keychain.spec_node_count() == count,
            keychain.spec_index() == index,
    {
        Keychain { count, index }
    }

    /// The number of signatures that make a multisignature.
    pub fn quorum(&self) -> (q: usize)
        ensures
            q == crate::nodes::quorum_of(self.spec_node_count().0 as int),
    {
        self.count.quorum()
    }

    /// The set of signatures that holds the given one, of the participant `index`, alone.
    pub fn from_signature(&self, signature: &Signature, index: NodeIndex) -> (set: SignatureSet)
        ensures
            set.deep_view() == crate::rmc::handler::with_signature(
                crate::rmc::handler::empty_set(self.spec_node_count().0 as nat),
                signature.deep_view(),
                index,
            ),
    {
        SignatureSet::with_size(self.count).add_signature(signature.duplicate(), index)
    }

    /// Whether the set is a multisignature on `hash`.
    pub fn is_complete(&self, hash: Hash64, partial: &SignatureSet) -> (complete: bool)
        ensures
            complete == is_multisignature(self, hash, partial.deep_view()),
    {
        partial.is_complete(self, hash)
    }
}

impl Index for Keychain {
    closed spec fn spec_index(&self) -> NodeIndex {
        self.index
    }

    fn index(&self) -> (i: NodeIndex) {
        self.index
    }
}

impl KeyBox for Keychain {
    closed spec fn spec_node_count(&self) -> NodeCount {
        self.count
    }

    open spec fn spec_verify(
        &self,
        msg: Seq<u8>,
        signature: SignatureView,
        index: NodeIndex,
    ) -> bool {
        signature == mock_signature(msg, index)
    }

    fn node_count(&self) -> (n: NodeCount) {
        self.count
    }

    fn sign(&self, msg: &[u8]) -> (signature: Signature) {
        let mut bytes = encode(&self.index);
        let mut i: usize = 0;
        let ghost head = bytes@;
        while i < msg.len()
            invariant
                i <= msg@.len(),
                bytes@ == head + msg@.take(i as int),
            decreases msg@.len() - i,
        {
            bytes.push(msg[i]);
            proof {
                assert(msg@.take(i + 1) =~= msg@.take(i as int).push(msg@[i as int]));
                assert(head + msg@.take(i as int).push(msg@[i as int]) =~= (head + msg@.take(
                    i as int,
                )).push(msg@[i as int]));
            }
            i += 1;
        }
        proof {
            assert(msg@.take(msg@.len() as int) =~= msg@);
            assert(bytes.deep_view() =~= bytes@);
        }
        Signature { bytes }
    }

    fn verify(&self, msg: &[u8], signature: &Signature, index: NodeIndex) -> (ok: bool) {
        let head = encode(&index);
        let ghost expected = head@ + msg@;
        proof {
            assert(signature.bytes.deep_view() =~= signature.bytes@);
        }
        if signature.bytes.len() < head.len() || signature.bytes.len() - head.len() != msg.len() {
            return false;
        }
        let mut i: usize = 0;
        while i < head.len()
            invariant
                i <= head@.len(),
                expected == head@ + msg@,
                head@ == NodeIndex::enc(index),
                signature.bytes.deep_view() == signature.bytes@,
                signature.bytes@.len() == head@.len() + msg@.len(),
                forall|j: int| 0 <= j < i ==> signature.bytes@[j] == head@[j],
            decreases head@.len() - i,
        {
            if signature.bytes[i] != head[i] {
                proof {
                    assert(expected[i as int] == head@[i as int]);
                }
                return false;
            }
            i += 1;
        }
        let mut k: usize = 0;
        while k < msg.len()
            invariant
                k <= msg@.len(),
                signature.bytes@.len() <= usize::MAX,
                expected == head@ + msg@,
                head@ == NodeIndex::enc(index),
                signature.bytes.deep_view() == signature.bytes@,
                signature.bytes@.len() == head@.len() + msg@.len(),
                forall|j: int| 0 <= j < head@.len() ==> signature.bytes@[j] == head@[j],
                forall|j: int| 0 <= j < k ==> signature.bytes@[head@.len() + j] == msg@[j],
            decreases msg@.len() - k,
        {
            if signature.bytes[head.len() + k] != msg[k] {
                proof {
                    assert(expected[head@.len() + k] == msg@[k as int]);
                }
                return false;
            }
            k += 1;
        }
        proof {
            assert forall|j: int| 0 <= j < expected.len() implies signature.bytes@[j]
                == expected[j] by {
                if j >= head@.len() {
                    assert(signature.bytes@[head@.len() + (j - head@.len())] == msg@[j
                        - head@.len()]);
                }
            }
            assert(signature.bytes@ =~= expected);
        }
        true
    }
}

/// A hasher to 64 bits that is no more than a checksum.
#[derive(Copy, Clone, Debug, Default, PartialEq, Eq, Hash)]
pub struct Hasher64;

/// The value that the checksum of the empty string has.
pub const HASH_SEED: u64 = 0xcbf29ce484222325;

/// The factor that the checksum is multiplied by before each byte.
pub const HASH_FACTOR: u64 = 0x100000001b3;

/// The checksum: for each byte, the sum so far times the factor, plus the byte, in 64 bits.
pub open spec fn checksum(s: Seq<u8>) -> u64
    decreases s.len(),
{
    if s.len() == 0 {
        HASH_SEED
    } else {
        ((checksum(s.drop_last()) * HASH_FACTOR + s.last()) % 0x1_0000_0000_0000_0000) as u64
    }
}

impl Hasher for Hasher64 {
    open spec fn spec_hash(s: Seq<u8>) -> Hash64 {
        checksum(s)
    }

    fn hash(s: &[u8]) -> (h: Hash64) {
        let mut h: u64 = HASH_SEED;
        let mut i: usize = 0;
        while i < s.len()
            invariant
                i <= s@.len(),
                h == checksum(s@.take(i as int)),
            decreases s@.len() - i,
        {
            proof {
                assert(s@.take(i + 1).drop_last() =~= s@.take(i as int));
            }
            let wide: u128 = h as u128 * HASH_FACTOR as u128 + s[i] as u128;
            h = (wide % 0x1_0000_0000_0000_0000u128) as u64;
            i += 1;
        }
        proof {
            assert(s@.take(s@.len() as int) =~= s@);
        }
        h
    }
}

} // verus!

//! Signing and checking: the key box, signed hashes and sets of signatures.
//!
//! What a participant signs is always a hash: that of a unit's or an alert's canonical encoding,
//! or the hash that a reliable multicast is about.

use crate::codec::{encode, lemma_is_at_join, lemma_is_at_split, Wire};
use crate::nodes::{quorum_of, Hash64, Hasher, Index, NodeCount, NodeIndex};
use crate::units::{Signature, SignatureView, UncheckedSigned, UncheckedSignedView};
use crate::value::Value;
use vstd::prelude::*;
use vstd::set_lib::{
    lemma_int_range, lemma_len_intersect, lemma_len_subset, lemma_set_difference_len,
    lemma_set_intersect_union_lens, set_int_range,
};

verus! {

/// The keys of one participant: signs with its own key and checks the signatures of all.
pub trait KeyBox: Index {
    spec fn spec_node_count(&self) -> NodeCount;

    /// Whether `signature` is a signature of `msg` by the participant `index`.
    spec fn spec_verify(&self, msg: Seq<u8>, signature: SignatureView, index: NodeIndex) -> bool;

    /// The number of participants whose signatures the box can check.
    fn node_count(&self) -> (n: NodeCount)
        ensures
            n == self.spec_node_count(),
    ;

    /// Signs `msg` with the box's own key: the result verifies under the box's own index.
    fn sign(&self, msg: &[u8]) -> (signature: Signature)
        ensures
            self.spec_verify(msg@, signature.deep_view(), self.spec_index()),
    ;

    fn verify(&self, msg: &[u8], signature: &Signature, index: NodeIndex) -> (ok: bool)
        ensures
            ok == self.spec_verify(msg@, signature.deep_view(), index),
    ;
}

/// The hash of a value's canonical encoding.
pub open spec fn content_hash<H: Hasher, T: Wire>(v: T::V) -> Hash64 {
    H::spec_hash(T::enc(v))
}

/// Computes the hash of a value's canonical encoding.
pub fn hash_of<H: Hasher, T: Wire>(x: &T) -> (h: Hash64)
    ensures
        h == content_hash::<H, T>(x.deep_view()),
{
    let bytes = encode(x);
    H::hash(bytes.as_slice())
}

/// Whether `signature` is the participant `index`'s signature on `hash`.
pub open spec fn signs_hash<K: KeyBox>(
    keychain: &K,
    hash: Hash64,
    signature: SignatureView,
    index: NodeIndex,
) -> bool {
    keychain.spec_verify(u64::enc(hash), signature, index)
}

/// Signs a hash with the key box's own key.
pub fn sign_hash<K: KeyBox>(keychain: &K, hash: Hash64) -> (signature: Signature)
    ensures
        signs_hash(keychain, hash, signature.deep_view(), keychain.spec_index()),
{
    let msg = encode(&hash);
    keychain.sign(msg.as_slice())
}

/// Checks the participant `index`'s signature on a hash.
pub fn check_hash<K: KeyBox>(
    keychain: &K,
    hash: Hash64,
    signature: &Signature,
    index: NodeIndex,
) -> (ok: bool)
    ensures
        ok == signs_hash(keychain, hash, signature.deep_view(), index),
{
    let msg = encode(&hash);
    keychain.verify(msg.as_slice(), signature, index)
}

/// Signatures on one message by some of the participants: a multisignature in the making.
#[derive(Debug, PartialEq, Eq, Hash)]
pub struct SignatureSet {
    /// For each participant, its signature if it has given one.
    pub signatures: Vec<Option<Signature>>,
}

/// What a [`SignatureSet`] holds, as a mathematical value.
pub struct SignatureSetView {
    pub signatures: Seq<Option<SignatureView>>,
}

impl DeepView for SignatureSet {
    type V = SignatureSetView;

    open spec fn deep_view(&self) -> SignatureSetView {
        SignatureSetView {
            signatures: self.signatures.deep_view(),
        }
    }
}

impl View for SignatureSet {
    type V = SignatureSetView;

    open spec fn view(&self) -> SignatureSetView {
        self.deep_view()
    }
}

impl Wire for SignatureSet {
    open spec fn enc(v: SignatureSetView) -> Seq<u8> {
        <Vec<Option<Signature>>>::enc(v.signatures)
    }

    open spec fn parse(s: Seq<u8>, pos: int) -> Option<(SignatureSetView, int)> {
        match <Vec<Option<Signature>>>::parse(s, pos) {
            Some((signatures, at1)) => Some((SignatureSetView { signatures }, at1)),
            None => None,
        }
    }

    open spec fn representable(v: SignatureSetView) -> bool {
        &&& <Vec<Option<Signature>>>::representable(v.signatures)
    }

    proof fn lemma_representable(&self) {
        self.signatures.lemma_representable();
    }

    proof fn lemma_parse_sound(s: Seq<u8>, pos: int) {
        <Vec<Option<Signature>>>::lemma_parse_sound(s, pos);
        if let Some((signatures, at1)) = <Vec<Option<Signature>>>::parse(s, pos) {
        }
    }

    proof fn lemma_parse_enc(s: Seq<u8>, pos: int, v: SignatureSetView) {
        <Vec<Option<Signature>>>::lemma_parse_enc(s, pos, v.signatures);
    }

    fn encode_to(&self, out: &mut Vec<u8>) {
        self.signatures.encode_to(out);
    }

    fn decode(input: &[u8], pos: usize) -> (r: Option<(Self, usize)>) {
        let (signatures, at1) = match <Vec<Option<Signature>>>::decode(input, pos) {
            Some(read) => read,
            None => {
                return None;
            },
        };
        Some((SignatureSet { signatures }, at1))
    }
}

impl Value for SignatureSet {
    fn duplicate(&self) -> (r: Self) {
        SignatureSet {
            signatures: self.signatures.duplicate(),
        }
    }

    fn same(&self, other: &Self) -> (b: bool) {
        self.signatures.same(&other.signatures)
    }
}

impl Clone for SignatureSet {
    fn clone(&self) -> (r: Self)
        ensures
            r.deep_view() == self.deep_view(),
    {
        self.duplicate()
    }
}

/// A hash together with the index of the participant that signs it.
#[derive(Debug, PartialEq, Eq, Hash)]
pub struct IndexedHash {
    pub hash: Hash64,
    /// The participant whose signature comes with the hash.
    pub index: NodeIndex,
}

/// What a [`IndexedHash`] holds, as a mathematical value.
pub struct IndexedHashView {
    pub hash: Hash64,
    pub index: NodeIndex,
}

impl DeepView for IndexedHash {
    type V = IndexedHashView;

    open spec fn deep_view(&self) -> IndexedHashView {
        IndexedHashView {
            hash: self.hash,
            index: self.index,
        }
    }
}

impl View for IndexedHash {
    type V = IndexedHashView;

    open spec fn view(&self) -> IndexedHashView {
        self.deep_view()
    }
}

impl Wire for IndexedHash {
    open spec fn enc(v: IndexedHashView) -> Seq<u8> {
        <Hash64>::enc(v.hash) + <NodeIndex>::enc(v.index)
    }

    open spec fn parse(s: Seq<u8>, pos: int) -> Option<(IndexedHashView, int)> {
        match <Hash64>::parse(s, pos) {
            Some((hash, at1)) => 
            match <NodeIndex>::parse(s, at1) {
                Some((index, at2)) => Some((IndexedHashView { hash, index }, at2)),
                None => None,
            },
            None => None,
        }
    }

    open spec fn representable(v: IndexedHashView) -> bool {
        &&& <Hash64>::representable(v.hash)
        &&& <NodeIndex>::representable(v.index)
    }

    proof fn lemma_representable(&self) {
        self.hash.lemma_representable();
        self.index.lemma_representable();
    }

    proof fn lemma_parse_sound(s: Seq<u8>, pos: int) {
        <Hash64>::lemma_parse_sound(s, pos);
        if let Some((hash, at1)) = <Hash64>::parse(s, pos) {
            <NodeIndex>::lemma_parse_sound(s, at1);
            if let Some((index, at2)) = <NodeIndex>::parse(s, at1) {
                let so_far = <Hash64>::enc(hash);
                lemma_is_at_join(s, pos, so_far, <NodeIndex>::enc(index));
            }
        }
    }

    proof fn lemma_parse_enc(s: Seq<u8>, pos: int, v: IndexedHashView) {
        let enc_hash = <Hash64>::enc(v.hash);
        let enc_index = <NodeIndex>::enc(v.index);
        lemma_is_at_split(s, pos, enc_hash, enc_index);
        <Hash64>::lemma_parse_enc(s, pos, v.hash);
        <NodeIndex>::lemma_parse_enc(s, pos + enc_hash.len(), v.index);
    }

    fn encode_to(&self, out: &mut Vec<u8>) {
        self.hash.encode_to(out);
        self.index.encode_to(out);
        proof {
            let enc_hash = <Hash64>::enc(self.hash);
            let enc_index = <NodeIndex>::enc(self.index);
            let whole = enc_hash + enc_index;
            assert(old(out)@ + enc_hash + enc_index =~= old(out)@ + whole);
        }
    }

    fn decode(input: &[u8], pos: usize) -> (r: Option<(Self, usize)>) {
        let (hash, at1) = match <Hash64>::decode(input, pos) {
            Some(read) => read,
            None => {
                return None;
            },
        };
        proof {
            <Hash64>::lemma_parse_sound(input@, pos as int);
        }
        let (index, at2) = match <NodeIndex>::decode(input, at1) {
            Some(read) => read,
            None => {
                return None;
            },
        };
        Some((IndexedHash { hash, index }, at2))
    }
}

impl Value for IndexedHash {
    fn duplicate(&self) -> (r: Self) {
        IndexedHash {
            hash: self.hash.duplicate(),
            index: self.index.duplicate(),
        }
    }

    fn same(&self, other: &Self) -> (b: bool) {
        self.hash.same(&other.hash) && self.index.same(&other.index)
    }
}

impl Clone for IndexedHash {
    fn clone(&self) -> (r: Self)
        ensures
            r.deep_view() == self.deep_view(),
    {
        self.duplicate()
    }
}
/// A hash signed by the participant whose index stands beside it.
pub type SignedHash = UncheckedSigned<IndexedHash, Signature>;

/// A hash with the signatures that participants have given on it.
pub type Multisigned = UncheckedSigned<Hash64, SignatureSet>;

/// What a [`SignedHash`] holds, as a mathematical value.
pub type SignedHashView = UncheckedSignedView<IndexedHashView, SignatureView>;

/// What a [`Multisigned`] holds, as a mathematical value.
pub type MultisignedView = UncheckedSignedView<Hash64, SignatureSetView>;

/// How many participants have a signature in the set.
pub open spec fn count_signed(signatures: Seq<Option<SignatureView>>) -> nat
    decreases signatures.len(),
{
    if signatures.len() == 0 {
        0
    } else {
        count_signed(signatures.drop_last()) + if signatures.last() is Some {
            1nat
        } else {
            0nat
        }
    }
}

/// Every signature in the set is its participant's signature on `hash`.
pub open spec fn all_valid<K: KeyBox>(
    keychain: &K,
    hash: Hash64,
    signatures: Seq<Option<SignatureView>>,
) -> bool {
    forall|i: int|
        0 <= i < signatures.len() && (#[trigger] signatures[i]) is Some ==> signs_hash(
            keychain,
            hash,
            signatures[i]->0,
            NodeIndex(i as usize),
        )
}

/// The set is a multisignature on `hash`: a quorum of participants has signed, each validly.
pub open spec fn is_multisignature<K: KeyBox>(
    keychain: &K,
    hash: Hash64,
    set: SignatureSetView,
) -> bool {
    &&& count_signed(set.signatures) >= quorum_of(keychain.spec_node_count().0 as int)
    &&& all_valid(keychain, hash, set.signatures)
}

/// The signed hash carries a valid signature by the participant it names.
pub open spec fn signed_hash_valid<K: KeyBox>(
    keychain: &K,
    signed: SignedHashView,
) -> bool {
    signs_hash(keychain, signed.signable.hash, signed.signature, signed.signable.index)
}

/// Signs `hash` and puts the key box's own index beside it.
pub fn sign_with_index<K: KeyBox>(keychain: &K, hash: Hash64) -> (signed: SignedHash)
    ensures
        signed.deep_view().signable == (IndexedHashView { hash, index: keychain.spec_index() }),
        signed_hash_valid(keychain, signed.deep_view()),
{
    let signature = sign_hash(keychain, hash);
    UncheckedSigned { signable: IndexedHash { hash, index: keychain.index() }, signature }
}

/// Checks the signature of a signed hash.
pub fn check_signed_hash<K: KeyBox>(keychain: &K, signed: &SignedHash) -> (ok: bool)
    ensures
        ok == signed_hash_valid(keychain, signed.deep_view()),
{
    check_hash(keychain, signed.signable.hash, &signed.signature, signed.signable.index)
}

impl SignatureSet {
    /// The empty set for `n` participants.
    pub fn with_size(n: NodeCount) -> (set: Self)
        ensures
            set.deep_view().signatures == Seq::new(n.0 as nat, |i: int| None::<SignatureView>),
    {
        let mut signatures: Vec<Option<Signature>> = Vec::new();
        let mut i: usize = 0;
        while i < n.0
            invariant
                i <= n.0,
                signatures@.len() == i,
                forall|j: int| 0 <= j < i ==> signatures@[j] is None,
            decreases n.0 - i,
        {
            signatures.push(None);
            i += 1;
        }
        proof {
            assert(signatures.deep_view() =~= Seq::new(
                n.0 as nat,
                |i: int| None::<SignatureView>,
            ));
        }
        SignatureSet { signatures }
    }

    /// The number of participants the set has room for.
    pub fn size(&self) -> (n: usize)
        ensures
            n == self.deep_view().signatures.len(),
    {
        self.signatures.len()
    }

    /// Puts `signature` in the place of the participant `index`. An index that the set has no
    /// room for leaves it as it was.
    pub fn add_signature(self, signature: Signature, index: NodeIndex) -> (set: Self)
        ensures
            set.deep_view().signatures == if index.0 < self.deep_view().signatures.len() {
                self.deep_view().signatures.update(index.0 as int, Some(signature.deep_view()))
            } else {
                self.deep_view().signatures
            },
    {
        let mut signatures = self.signatures;
        if index.0 < signatures.len() {
            let ghost before = signatures.deep_view();
            let ghost added = signature.deep_view();
            signatures.set(index.0, Some(signature));
            proof {
                assert(signatures.deep_view() =~= before.update(index.0 as int, Some(added)));
            }
        }
        SignatureSet { signatures }
    }

    /// How many participants have a signature in the set.
    pub fn count(&self) -> (n: usize)
        ensures
            n == count_signed(self.deep_view().signatures),
    {
        let mut n: usize = 0;
        let mut i: usize = 0;
        while i < self.signatures.len()
            invariant
                i <= self.signatures.len(),
                n <= i,
                n == count_signed(self.signatures.deep_view().take(i as int)),
            decreases self.signatures.len() - i,
        {
            proof {
                let all = self.signatures.deep_view();
                assert(all.take(i + 1).drop_last() =~= all.take(i as int));
            }
            if self.signatures[i].is_some() {
                n += 1;
            }
            i += 1;
        }
        proof {
            let all = self.signatures.deep_view();
            assert(all.take(all.len() as int) =~= all);
        }
        n
    }

    /// Whether every signature in the set is its participant's signature on `hash`.
    pub fn all_valid<K: KeyBox>(&self, keychain: &K, hash: Hash64) -> (ok: bool)
        ensures
            ok == all_valid(keychain, hash, self.deep_view().signatures),
    {
        let mut i: usize = 0;
        while i < self.signatures.len()
            invariant
                i <= self.signatures.len(),
                all_valid(keychain, hash, self.signatures.deep_view().take(i as int)),
            decreases self.signatures.len() - i,
        {
            match &self.signatures[i] {
                Some(signature) => {
                    if !check_hash(keychain, hash, signature, NodeIndex(i)) {
                        proof {
                            assert(self.signatures.deep_view()[i as int] is Some);
                        }
                        return false;
                    }
                },
                None => {},
            }
            proof {
                let all = self.signatures.deep_view();
                assert forall|j: int|
                    0 <= j < all.take(i + 1).len() && (#[trigger] all.take(i + 1)[j]) is Some implies signs_hash(
                    keychain,
                    hash,
                    all.take(i + 1)[j]->0,
                    NodeIndex(j as usize),
                ) by {
                    if j < i {
                        assert(all.take(i as int)[j] is Some);
                    }
                }
            }
            i += 1;
        }
        proof {
            let all = self.signatures.deep_view();
            assert(all.take(all.len() as int) =~= all);
        }
        true
    }

    /// Whether the set is a multisignature on `hash`.
    pub fn is_complete<K: KeyBox>(&self, keychain: &K, hash: Hash64) -> (ok: bool)
        ensures
            ok == is_multisignature(keychain, hash, self.deep_view()),
    {
        let quorum = keychain.node_count().quorum();
        if self.count() < quorum {
            return false;
        }
        self.all_valid(keychain, hash)
    }
}

/// The participants that have a signature in the set.
pub open spec fn signers(signatures: Seq<Option<SignatureView>>) -> Set<int> {
    Set::new(|i: int| 0 <= i < signatures.len() && signatures[i] is Some)
}

/// The signers of a set are as many as it counts signatures.
pub proof fn lemma_count_signers(signatures: Seq<Option<SignatureView>>)
    ensures
        signers(signatures).finite(),
        signers(signatures).len() == count_signed(signatures),
        signers(signatures).subset_of(set_int_range(0, signatures.len() as int)),
    decreases signatures.len(),
{
    if signatures.len() == 0 {
        assert(signers(signatures) =~= Set::empty());
    } else {
        let front = signatures.drop_last();
        lemma_count_signers(front);
        let last = signatures.len() - 1;
        if signatures.last() is Some {
            assert(signers(signatures) =~= signers(front).insert(last));
        } else {
            assert(signers(signatures) =~= signers(front));
        }
    }
}

/// Two quorums among `n` participants have more participants in common than a third of the
/// others.
pub proof fn lemma_quorums_intersect(
    n: nat,
    first: Seq<Option<SignatureView>>,
    second: Seq<Option<SignatureView>>,
)
    requires
        n >= 1,
        first.len() <= n,
        second.len() <= n,
        count_signed(first) >= quorum_of(n as int),
        count_signed(second) >= quorum_of(n as int),
    ensures
        signers(first).intersect(signers(second)).finite(),
        signers(first).intersect(signers(second)).len() > (n - 1) / 3,
{
    let a = signers(first);
    let b = signers(second);
    lemma_count_signers(first);
    lemma_count_signers(second);
    lemma_int_range(0, n as int);
    lemma_set_intersect_union_lens(a, b);
    assert((a + b).subset_of(set_int_range(0, n as int)));
    lemma_len_subset(a + b, set_int_range(0, n as int));
    lemma_len_intersect(a, b);
    lemma_len_subset(a.intersect(b), a);
}

/// Two multisignatures, checked with the same key box, share a signer outside every set of at
/// most a third of the other participants: if at most that many participants are faulty, an
/// honest one has signed both hashes.
pub proof fn lemma_multisignatures_share_honest_signer<K: KeyBox>(
    keychain: &K,
    first_hash: Hash64,
    first: SignatureSetView,
    second_hash: Hash64,
    second: SignatureSetView,
    faulty: Set<int>,
) -> (common: int)
    requires
        keychain.spec_node_count().0 >= 1,
        first.signatures.len() <= keychain.spec_node_count().0,
        second.signatures.len() <= keychain.spec_node_count().0,
        is_multisignature(keychain, first_hash, first),
        is_multisignature(keychain, second_hash, second),
        faulty.finite(),
        faulty.len() <= (keychain.spec_node_count().0 - 1) / 3,
    ensures
        0 <= common < first.signatures.len(),
        common < second.signatures.len(),
        !faulty.contains(common),
        first.signatures[common] is Some,
        second.signatures[common] is Some,
        signs_hash(keychain, first_hash, first.signatures[common]->0, NodeIndex(common as usize)),
        signs_hash(
            keychain,
            second_hash,
            second.signatures[common]->0,
            NodeIndex(common as usize),
        ),
{
    let n = keychain.spec_node_count().0 as nat;
    let both = signers(first.signatures).intersect(signers(second.signatures));
    lemma_quorums_intersect(n, first.signatures, second.signatures);
    let honest = both.difference(faulty);
    lemma_set_difference_len(both, faulty);
    lemma_len_intersect(faulty, both);
    assert(both.intersect(faulty) =~= faulty.intersect(both));
    assert(honest.len() > 0);
    let common = honest.choose();
    assert(honest.contains(common));
    assert(both.contains(common));
    common
}

/// Where every honest participant signs at most one of two hashes, and at most a third of
/// the other participants are faulty, two multisignatures are on the same hash: of the
/// alerts by one sender about one forker, at most one gets a multisignature.
pub proof fn lemma_one_canonical_alert<K: KeyBox>(
    keychain: &K,
    first_hash: Hash64,
    first: SignatureSetView,
    second_hash: Hash64,
    second: SignatureSetView,
    faulty: Set<int>,
)
    requires
        keychain.spec_node_count().0 >= 1,
        first.signatures.len() <= keychain.spec_node_count().0,
        second.signatures.len() <= keychain.spec_node_count().0,
        is_multisignature(keychain, first_hash, first),
        is_multisignature(keychain, second_hash, second),
        faulty.finite(),
        faulty.len() <= (keychain.spec_node_count().0 - 1) / 3,
        forall|i: int, s1: SignatureView, s2: SignatureView|
            !faulty.contains(i) && #[trigger] signs_hash(
                keychain,
                first_hash,
                s1,
                NodeIndex(i as usize),
            ) && #[trigger] signs_hash(keychain, second_hash, s2, NodeIndex(i as usize))
                ==> first_hash == second_hash,
    ensures
        first_hash == second_hash,
{
    let common = lemma_multisignatures_share_honest_signer(
        keychain,
        first_hash,
        first,
        second_hash,
        second,
        faulty,
    );
}

} // verus!

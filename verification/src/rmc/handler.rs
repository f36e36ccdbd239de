//! The signatures that have been gathered on each hash.

use crate::crypto::{
    all_valid, check_signed_hash, count_signed, is_multisignature, lemma_count_signers,
    sign_with_index, signed_hash_valid, signers, signs_hash, IndexedHashView, KeyBox,
    Multisigned, MultisignedView, SignatureSet, SignatureSetView, SignedHash, SignedHashView,
};
use crate::nodes::{Hash64, Index, NodeIndex};
use crate::units::{SignatureView, UncheckedSigned, UncheckedSignedView};
use crate::value::Value;
use std::collections::HashMap;
use vstd::prelude::*;

verus! {

broadcast use vstd::std_specs::hash::group_hash_axioms;

/// Why the reliable multicast turned a message down.
#[derive(Copy, Clone, Debug, PartialEq, Eq, Structural)]
pub enum Error {
    /// The signature on a hash is not its participant's.
    BadSignature,
    /// What claims to be a multisignature is none.
    BadMultisignature,
}

/// What starting the multicast of a hash gives to send.
#[derive(Debug, PartialEq, Eq)]
pub enum OnStartRmcResponse {
    /// This participant's own signature on the hash.
    SignedHash(SignedHash),
    /// The multisignature, which this participant's signature has completed.
    MultisignedHash(Multisigned),
}

/// The signatures gathered on one hash.
struct HashState {
    signatures: SignatureSet,
    complete: bool,
}

/// The signatures that a handler has gathered, by hash, as a mathematical value.
pub type RmcView = Map<Hash64, SignatureSetView>;

/// The set of signatures after the participant `index`'s signature was put in.
pub open spec fn with_signature(
    set: SignatureSetView,
    signature: SignatureView,
    index: NodeIndex,
) -> SignatureSetView {
    if index.0 < set.signatures.len() {
        SignatureSetView { signatures: set.signatures.update(index.0 as int, Some(signature)) }
    } else {
        set
    }
}

/// The set of signatures that has room for `n` participants and holds none.
pub open spec fn empty_set(n: nat) -> SignatureSetView {
    SignatureSetView { signatures: Seq::new(n, |i: int| None::<SignatureView>) }
}

/// A multisignature on `hash` has been gathered.
pub open spec fn completed<K: KeyBox>(keychain: &K, states: RmcView, hash: Hash64) -> bool {
    states.contains_key(hash) && is_multisignature(keychain, hash, states[hash])
}

/// What is gathered after a valid signature on a hash came in. Nothing is added to a
/// multisignature.
pub open spec fn after_signed_hash<K: KeyBox>(
    keychain: &K,
    states: RmcView,
    signed: SignedHashView,
) -> RmcView {
    let hash = signed.signable.hash;
    if completed(keychain, states, hash) {
        states
    } else {
        let gathered = if states.contains_key(hash) {
            states[hash]
        } else {
            empty_set(keychain.spec_node_count().0 as nat)
        };
        states.insert(hash, with_signature(gathered, signed.signature, signed.signable.index))
    }
}

/// The multisignature that a signature on a hash completes, if it completes one.
pub open spec fn newly_completed<K: KeyBox>(
    keychain: &K,
    states: RmcView,
    signed: SignedHashView,
) -> Option<MultisignedView> {
    let hash = signed.signable.hash;
    let after = after_signed_hash(keychain, states, signed);
    if !completed(keychain, states, hash) && completed(keychain, after, hash) {
        Some(UncheckedSignedView { signable: hash, signature: after[hash] })
    } else {
        None
    }
}

/// A signature of a participant that has none in the set yet counts as one more; a signature
/// of a participant that has one already, or that the set has no room for, changes no count.
/// So it is the number of different signers that reaches the quorum.
pub proof fn lemma_with_signature_counts(
    set: SignatureSetView,
    signature: SignatureView,
    index: NodeIndex,
)
    ensures
        count_signed(with_signature(set, signature, index).signatures) == count_signed(
            set.signatures,
        ) + if index.0 < set.signatures.len() && set.signatures[index.0 as int] is None {
            1nat
        } else {
            0nat
        },
{
    let after = with_signature(set, signature, index).signatures;
    lemma_count_signers(set.signatures);
    lemma_count_signers(after);
    if index.0 < set.signatures.len() && set.signatures[index.0 as int] is None {
        assert(signers(after) =~= signers(set.signatures).insert(index.0 as int));
    } else {
        assert(signers(after) =~= signers(set.signatures));
    }
}

/// The part of the reliable multicast that gathers signatures.
pub struct Handler<K: KeyBox> {
    keychain: K,
    hash_states: HashMap<Hash64, HashState>,
}

impl<K: KeyBox> View for Handler<K> {
    type V = RmcView;

    closed spec fn view(&self) -> RmcView {
        Map::new(
            |h: Hash64| self.hash_states@.contains_key(h),
            |h: Hash64| self.hash_states@[h].signatures.deep_view(),
        )
    }
}

impl<K: KeyBox> Handler<K> {
    /// The key box that the handler signs and checks with.
    pub closed spec fn keychain(&self) -> &K {
        &self.keychain
    }

    /// Every signature that was gathered is valid, and the handler knows which hashes have a
    /// multisignature.
    pub closed spec fn wf(&self) -> bool {
        forall|h: Hash64| #[trigger]
            self.hash_states@.contains_key(h) ==> {
                &&& all_valid(&self.keychain, h, self.hash_states@[h].signatures.deep_view().signatures)
                &&& self.hash_states@[h].complete == is_multisignature(
                    &self.keychain,
                    h,
                    self.hash_states@[h].signatures.deep_view(),
                )
            }
    }

    /// Every signature that was gathered is its participant's signature on the hash.
    pub proof fn lemma_gathered_valid(&self, hash: Hash64)
        requires
            self.wf(),
            self@.contains_key(hash),
        ensures
            all_valid(self.keychain(), hash, self@[hash].signatures),
    {
    }

    /// A handler that has gathered nothing.
    pub fn new(keychain: K) -> (handler: Self)
        ensures
            handler.wf(),
            *handler.keychain() == keychain,
            handler@ == Map::<Hash64, SignatureSetView>::empty(),
    {
        let handler = Handler { keychain, hash_states: HashMap::new() };
        proof {
            assert(handler@ =~= Map::<Hash64, SignatureSetView>::empty());
        }
        handler
    }

    /// The key box that the handler signs and checks with.
    pub fn key_box(&self) -> (keychain: &K)
        ensures
            keychain == self.keychain(),
    {
        &self.keychain
    }

    /// Whether a multisignature on the hash has been gathered.
    pub fn already_completed(&self, hash: Hash64) -> (done: bool)
        requires
            self.wf(),
        ensures
            done == completed(self.keychain(), self@, hash),
    {
        match self.hash_states.get(&hash) {
            Some(state) => state.complete,
            None => false,
        }
    }

    /// Puts a valid signature on a hash with those gathered; gives the multisignature if this
    /// signature completes it.
    fn handle_signed_hash(&mut self, signed: SignedHash) -> (new: Option<Multisigned>)
        requires
            old(self).wf(),
            signed_hash_valid(old(self).keychain(), signed.deep_view()),
        ensures
            final(self).wf(),
            final(self).keychain() == old(self).keychain(),
            final(self)@ == after_signed_hash(old(self).keychain(), old(self)@, signed.deep_view()),
            new.deep_view() == newly_completed(old(self).keychain(), old(self)@, signed.deep_view()),
    {
        let hash = signed.signable.hash;
        let index = signed.signable.index;
        if self.already_completed(hash) {
            return None;
        }
        let gathered = match self.hash_states.remove(&hash) {
            Some(state) => state.signatures,
            None => SignatureSet::with_size(self.keychain.node_count()),
        };
        let ghost before = gathered.deep_view();
        let ghost added = signed.signature.deep_view();
        let signatures = gathered.add_signature(signed.signature, index);
        proof {
            assert(signatures.deep_view() == with_signature(before, added, index));
            assert forall|i: int|
                0 <= i < signatures.deep_view().signatures.len() && (
                #[trigger] signatures.deep_view().signatures[i]) is Some implies signs_hash(
                &self.keychain,
                hash,
                signatures.deep_view().signatures[i]->0,
                NodeIndex(i as usize),
            ) by {
                if i != index.0 {
                    assert(before.signatures[i] is Some);
                }
            }
        }
        let complete = signatures.is_complete(&self.keychain, hash);
        let new = if complete {
            Some(UncheckedSigned { signable: hash, signature: signatures.duplicate() })
        } else {
            None
        };
        self.hash_states.insert(hash, HashState { signatures, complete });
        proof {
            assert(self@ =~= after_signed_hash(
                old(self).keychain(),
                old(self)@,
                signed.deep_view(),
            ));
        }
        new
    }

    /// Starts the multicast of a hash: signs it with this participant's own key and puts the
    /// signature with those gathered.
    pub fn on_start_rmc(&mut self, hash: Hash64) -> (response: OnStartRmcResponse)
        requires
            old(self).wf(),
        ensures
            final(self).wf(),
            final(self).keychain() == old(self).keychain(),
            exists|signed: SignedHashView|
                {
                    &&& signed.signable == (IndexedHashView {
                        hash,
                        index: old(self).keychain().spec_index(),
                    })
                    &&& signed_hash_valid(old(self).keychain(), signed)
                    &&& final(self)@ == after_signed_hash(old(self).keychain(), old(self)@, signed)
                    &&& match newly_completed(old(self).keychain(), old(self)@, signed) {
                        Some(multisigned) => response matches OnStartRmcResponse::MultisignedHash(m)
                            && m.deep_view() == multisigned,
                        None => response matches OnStartRmcResponse::SignedHash(s)
                            && s.deep_view() == signed,
                    }
                },
    {
        let signed = sign_with_index(&self.keychain, hash);
        let copy = signed.duplicate();
        match self.handle_signed_hash(copy) {
            Some(multisigned) => OnStartRmcResponse::MultisignedHash(multisigned),
            None => OnStartRmcResponse::SignedHash(signed),
        }
    }

    /// Takes a signed hash from another participant: checks the signature and puts it with
    /// those gathered. Gives the multisignature if this signature completes it.
    pub fn on_signed_hash(&mut self, unchecked: SignedHash) -> (result: Result<
        Option<Multisigned>,
        Error,
    >)
        requires
            old(self).wf(),
        ensures
            final(self).wf(),
            final(self).keychain() == old(self).keychain(),
            signed_hash_valid(old(self).keychain(), unchecked.deep_view()) ==> {
                &&& result matches Ok(new)
                &&& new.deep_view() == newly_completed(
                    old(self).keychain(),
                    old(self)@,
                    unchecked.deep_view(),
                )
                &&& final(self)@ == after_signed_hash(
                    old(self).keychain(),
                    old(self)@,
                    unchecked.deep_view(),
                )
            },
            !signed_hash_valid(old(self).keychain(), unchecked.deep_view()) ==> {
                &&& result == Err::<Option<Multisigned>, Error>(Error::BadSignature)
                &&& final(self)@ == old(self)@
            },
    {
        if !check_signed_hash(&self.keychain, &unchecked) {
            return Err(Error::BadSignature);
        }
        Ok(self.handle_signed_hash(unchecked))
    }

    /// Takes what claims to be a multisignature from another participant. Unless one is known
    /// for the hash already, checks it and keeps it; gives it back if it was kept.
    pub fn on_multisigned_hash(&mut self, unchecked: Multisigned) -> (result: Result<
        Option<Multisigned>,
        Error,
    >)
        requires
            old(self).wf(),
        ensures
            final(self).wf(),
            final(self).keychain() == old(self).keychain(),
            completed(old(self).keychain(), old(self)@, unchecked.signable) ==> {
                &&& result == Ok::<Option<Multisigned>, Error>(None)
                &&& final(self)@ == old(self)@
            },
            !completed(old(self).keychain(), old(self)@, unchecked.signable) && !is_multisignature(
                old(self).keychain(),
                unchecked.signable,
                unchecked.signature.deep_view(),
            ) ==> {
                &&& result == Err::<Option<Multisigned>, Error>(Error::BadMultisignature)
                &&& final(self)@ == old(self)@
            },
            !completed(old(self).keychain(), old(self)@, unchecked.signable) && is_multisignature(
                old(self).keychain(),
                unchecked.signable,
                unchecked.signature.deep_view(),
            ) ==> {
                &&& result matches Ok(Some(multisigned))
                &&& multisigned.deep_view() == unchecked.deep_view()
                &&& final(self)@ == old(self)@.insert(
                    unchecked.signable,
                    unchecked.signature.deep_view(),
                )
            },
    {
        let hash = unchecked.signable;
        if self.already_completed(hash) {
            return Ok(None);
        }
        if !unchecked.signature.is_complete(&self.keychain, hash) {
            return Err(Error::BadMultisignature);
        }
        let signatures = unchecked.signature.duplicate();
        self.hash_states.insert(hash, HashState { signatures, complete: true });
        proof {
            assert(self@ =~= old(self)@.insert(hash, unchecked.signature.deep_view()));
        }
        Ok(Some(unchecked))
    }
}

} // verus!

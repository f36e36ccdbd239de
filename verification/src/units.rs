//! Units of the DAG, as far as the alerts need them, and signed values.

use crate::codec::{lemma_is_at_join, lemma_is_at_split, Wire};
use crate::crypto::{check_hash, content_hash, hash_of, sign_hash, signs_hash, KeyBox};
use crate::nodes::{Hash64, Hasher, NodeIndex, Round, SessionId};
use crate::value::Value;
use vstd::prelude::*;

verus! {

impl Wire for NodeIndex {
    open spec fn enc(v: NodeIndex) -> Seq<u8> {
        usize::enc(v.0)
    }

    open spec fn parse(s: Seq<u8>, pos: int) -> Option<(NodeIndex, int)> {
        match usize::parse(s, pos) {
            Some((i, next)) => Some((NodeIndex(i), next)),
            None => None,
        }
    }

    open spec fn representable(v: NodeIndex) -> bool {
        true
    }

    proof fn lemma_representable(&self) {
    }

    proof fn lemma_parse_sound(s: Seq<u8>, pos: int) {
        usize::lemma_parse_sound(s, pos);
    }

    proof fn lemma_parse_enc(s: Seq<u8>, pos: int, v: NodeIndex) {
        usize::lemma_parse_enc(s, pos, v.0);
    }

    fn encode_to(&self, out: &mut Vec<u8>) {
        self.0.encode_to(out);
    }

    fn decode(input: &[u8], pos: usize) -> (r: Option<(Self, usize)>) {
        match usize::decode(input, pos) {
            Some((i, next)) => Some((NodeIndex(i), next)),
            None => None,
        }
    }
}

/// A signature by one participant, opaque to everything but the key box that made it.
#[derive(Debug, PartialEq, Eq, Hash)]
pub struct Signature {
    /// The signature as its scheme wrote it.
    pub bytes: Vec<u8>,
}

/// What a [`Signature`] holds, as a mathematical value.
pub struct SignatureView {
    pub bytes: Seq<u8>,
}

impl DeepView for Signature {
    type V = SignatureView;

    open spec fn deep_view(&self) -> SignatureView {
        SignatureView {
            bytes: self.bytes.deep_view(),
        }
    }
}

impl View for Signature {
    type V = SignatureView;

    open spec fn view(&self) -> SignatureView {
        self.deep_view()
    }
}

impl Wire for Signature {
    open spec fn enc(v: SignatureView) -> Seq<u8> {
        <Vec<u8>>::enc(v.bytes)
    }

    open spec fn parse(s: Seq<u8>, pos: int) -> Option<(SignatureView, int)> {
        match <Vec<u8>>::parse(s, pos) {
            Some((bytes, at1)) => Some((SignatureView { bytes }, at1)),
            None => None,
        }
    }

    open spec fn representable(v: SignatureView) -> bool {
        &&& <Vec<u8>>::representable(v.bytes)
    }

    proof fn lemma_representable(&self) {
        self.bytes.lemma_representable();
    }

    proof fn lemma_parse_sound(s: Seq<u8>, pos: int) {
        <Vec<u8>>::lemma_parse_sound(s, pos);
        if let Some((bytes, at1)) = <Vec<u8>>::parse(s, pos) {
        }
    }

    proof fn lemma_parse_enc(s: Seq<u8>, pos: int, v: SignatureView) {
        <Vec<u8>>::lemma_parse_enc(s, pos, v.bytes);
    }

    fn encode_to(&self, out: &mut Vec<u8>) {
        self.bytes.encode_to(out);
    }

    fn decode(input: &[u8], pos: usize) -> (r: Option<(Self, usize)>) {
        let (bytes, at1) = match <Vec<u8>>::decode(input, pos) {
            Some(read) => read,
            None => {
                return None;
            },
        };
        Some((Signature { bytes }, at1))
    }
}

impl Value for Signature {
    fn duplicate(&self) -> (r: Self) {
        Signature {
            bytes: self.bytes.duplicate(),
        }
    }

    fn same(&self, other: &Self) -> (b: bool) {
        self.bytes.same(&other.bytes)
    }
}

impl Clone for Signature {
    fn clone(&self) -> (r: Self)
        ensures
            r.deep_view() == self.deep_view(),
    {
        self.duplicate()
    }
}

/// The summary of a unit's parents.
#[derive(Debug, PartialEq, Eq, Hash)]
pub struct ControlHash {
    /// For each participant, whether the unit has a parent by it in the previous round.
    pub parents_mask: Vec<bool>,
    /// The hash of the parents' hashes.
    pub combined_hash: Hash64,
}

/// What a [`ControlHash`] holds, as a mathematical value.
pub struct ControlHashView {
    pub parents_mask: Seq<bool>,
    pub combined_hash: Hash64,
}

impl DeepView for ControlHash {
    type V = ControlHashView;

    open spec fn deep_view(&self) -> ControlHashView {
        ControlHashView {
            parents_mask: self.parents_mask.deep_view(),
            combined_hash: self.combined_hash,
        }
    }
}

impl View for ControlHash {
    type V = ControlHashView;

    open spec fn view(&self) -> ControlHashView {
        self.deep_view()
    }
}

impl Wire for ControlHash {
    open spec fn enc(v: ControlHashView) -> Seq<u8> {
        <Vec<bool>>::enc(v.parents_mask) + <Hash64>::enc(v.combined_hash)
    }

    open spec fn parse(s: Seq<u8>, pos: int) -> Option<(ControlHashView, int)> {
        match <Vec<bool>>::parse(s, pos) {
            Some((parents_mask, at1)) => 
            match <Hash64>::parse(s, at1) {
                Some((combined_hash, at2)) => Some(
                    (
                        ControlHashView {
                            parents_mask,
                            combined_hash,
                        },
                        at2,
                    ),
                ),
                None => None,
            },
            None => None,
        }
    }

    open spec fn representable(v: ControlHashView) -> bool {
        &&& <Vec<bool>>::representable(v.parents_mask)
        &&& <Hash64>::representable(v.combined_hash)
    }

    proof fn lemma_representable(&self) {
        self.parents_mask.lemma_representable();
        self.combined_hash.lemma_representable();
    }

    proof fn lemma_parse_sound(s: Seq<u8>, pos: int) {
        <Vec<bool>>::lemma_parse_sound(s, pos);
        if let Some((parents_mask, at1)) = <Vec<bool>>::parse(s, pos) {
            <Hash64>::lemma_parse_sound(s, at1);
            if let Some((combined_hash, at2)) = <Hash64>::parse(s, at1) {
                let so_far = <Vec<bool>>::enc(parents_mask);
                lemma_is_at_join(s, pos, so_far, <Hash64>::enc(combined_hash));
            }
        }
    }

    proof fn lemma_parse_enc(s: Seq<u8>, pos: int, v: ControlHashView) {
        let enc_parents_mask = <Vec<bool>>::enc(v.parents_mask);
        let enc_combined_hash = <Hash64>::enc(v.combined_hash);
        lemma_is_at_split(s, pos, enc_parents_mask, enc_combined_hash);
        <Vec<bool>>::lemma_parse_enc(s, pos, v.parents_mask);
        <Hash64>::lemma_parse_enc(s, pos + enc_parents_mask.len(), v.combined_hash);
    }

    fn encode_to(&self, out: &mut Vec<u8>) {
        self.parents_mask.encode_to(out);
        self.combined_hash.encode_to(out);
        proof {
            let enc_parents_mask = <Vec<bool>>::enc(self.parents_mask.deep_view());
            let enc_combined_hash = <Hash64>::enc(self.combined_hash);
            let whole = enc_parents_mask + enc_combined_hash;
            assert(old(out)@ + enc_parents_mask + enc_combined_hash =~= old(out)@ + whole);
        }
    }

    fn decode(input: &[u8], pos: usize) -> (r: Option<(Self, usize)>) {
        let (parents_mask, at1) = match <Vec<bool>>::decode(input, pos) {
            Some(read) => read,
            None => {
                return None;
            },
        };
        proof {
            <Vec<bool>>::lemma_parse_sound(input@, pos as int);
        }
        let (combined_hash, at2) = match <Hash64>::decode(input, at1) {
            Some(read) => read,
            None => {
                return None;
            },
        };
        Some((ControlHash { parents_mask, combined_hash }, at2))
    }
}

impl Value for ControlHash {
    fn duplicate(&self) -> (r: Self) {
        ControlHash {
            parents_mask: self.parents_mask.duplicate(),
            combined_hash: self.combined_hash.duplicate(),
        }
    }

    fn same(&self, other: &Self) -> (b: bool) {
        self.parents_mask.same(&other.parents_mask)
            && self.combined_hash.same(&other.combined_hash)
    }
}

impl Clone for ControlHash {
    fn clone(&self) -> (r: Self)
        ensures
            r.deep_view() == self.deep_view(),
    {
        self.duplicate()
    }
}

/// A vertex of the DAG: what its creator signs.
#[derive(Debug, PartialEq, Eq, Hash)]
pub struct FullUnit {
    pub creator: NodeIndex,
    pub round: Round,
    pub control_hash: ControlHash,
    /// The payload, opaque to the protocol.
    pub data: Vec<u8>,
    pub session_id: SessionId,
}

/// What a [`FullUnit`] holds, as a mathematical value.
pub struct UnitView {
    pub creator: NodeIndex,
    pub round: Round,
    pub control_hash: ControlHashView,
    pub data: Seq<u8>,
    pub session_id: SessionId,
}

impl DeepView for FullUnit {
    type V = UnitView;

    open spec fn deep_view(&self) -> UnitView {
        UnitView {
            creator: self.creator,
            round: self.round,
            control_hash: self.control_hash.deep_view(),
            data: self.data.deep_view(),
            session_id: self.session_id,
        }
    }
}

impl View for FullUnit {
    type V = UnitView;

    open spec fn view(&self) -> UnitView {
        self.deep_view()
    }
}

impl Wire for FullUnit {
    open spec fn enc(v: UnitView) -> Seq<u8> {
        <NodeIndex>::enc(v.creator)
            + <Round>::enc(v.round)
            + <ControlHash>::enc(v.control_hash)
            + <Vec<u8>>::enc(v.data)
            + <SessionId>::enc(v.session_id)
    }

    open spec fn parse(s: Seq<u8>, pos: int) -> Option<(UnitView, int)> {
        match <NodeIndex>::parse(s, pos) {
            Some((creator, at1)) => 
            match <Round>::parse(s, at1) {
                Some((round, at2)) => 
                match <ControlHash>::parse(s, at2) {
                    Some((control_hash, at3)) => 
                    match <Vec<u8>>::parse(s, at3) {
                        Some((data, at4)) => 
                        match <SessionId>::parse(s, at4) {
                            Some((session_id, at5)) => Some(
                                (
                                    UnitView {
                                        creator,
                                        round,
                                        control_hash,
                                        data,
                                        session_id,
                                    },
                                    at5,
                                ),
                            ),
                            None => None,
                        },
                        None => None,
                    },
                    None => None,
                },
                None => None,
            },
            None => None,
        }
    }

    open spec fn representable(v: UnitView) -> bool {
        &&& <NodeIndex>::representable(v.creator)
        &&& <Round>::representable(v.round)
        &&& <ControlHash>::representable(v.control_hash)
        &&& <Vec<u8>>::representable(v.data)
        &&& <SessionId>::representable(v.session_id)
    }

    proof fn lemma_representable(&self) {
        self.creator.lemma_representable();
        self.round.lemma_representable();
        self.control_hash.lemma_representable();
        self.data.lemma_representable();
        self.session_id.lemma_representable();
    }

    proof fn lemma_parse_sound(s: Seq<u8>, pos: int) {
        <NodeIndex>::lemma_parse_sound(s, pos);
        if let Some((creator, at1)) = <NodeIndex>::parse(s, pos) {
            <Round>::lemma_parse_sound(s, at1);
            if let Some((round, at2)) = <Round>::parse(s, at1) {
                <ControlHash>::lemma_parse_sound(s, at2);
                if let Some((control_hash, at3)) = <ControlHash>::parse(s, at2) {
                    <Vec<u8>>::lemma_parse_sound(s, at3);
                    if let Some((data, at4)) = <Vec<u8>>::parse(s, at3) {
                        <SessionId>::lemma_parse_sound(s, at4);
                        if let Some((session_id, at5)) = <SessionId>::parse(s, at4) {
                            let so_far = <NodeIndex>::enc(creator);
                            lemma_is_at_join(s, pos, so_far, <Round>::enc(round));
                            let so_far = so_far + <Round>::enc(round);
                            lemma_is_at_join(s, pos, so_far, <ControlHash>::enc(control_hash));
                            let so_far = so_far + <ControlHash>::enc(control_hash);
                            lemma_is_at_join(s, pos, so_far, <Vec<u8>>::enc(data));
                            let so_far = so_far + <Vec<u8>>::enc(data);
                            lemma_is_at_join(s, pos, so_far, <SessionId>::enc(session_id));
                        }
                    }
                }
            }
        }
    }

    proof fn lemma_parse_enc(s: Seq<u8>, pos: int, v: UnitView) {
        let enc_creator = <NodeIndex>::enc(v.creator);
        let enc_round = <Round>::enc(v.round);
        let enc_control_hash = <ControlHash>::enc(v.control_hash);
        let enc_data = <Vec<u8>>::enc(v.data);
        let enc_session_id = <SessionId>::enc(v.session_id);
        let upto_round = enc_creator + enc_round;
        let upto_control_hash = upto_round + enc_control_hash;
        let upto_data = upto_control_hash + enc_data;
        lemma_is_at_split(s, pos, upto_data, enc_session_id);
        lemma_is_at_split(s, pos, upto_control_hash, enc_data);
        lemma_is_at_split(s, pos, upto_round, enc_control_hash);
        lemma_is_at_split(s, pos, enc_creator, enc_round);
        <NodeIndex>::lemma_parse_enc(s, pos, v.creator);
        <Round>::lemma_parse_enc(s, pos + enc_creator.len(), v.round);
        <ControlHash>::lemma_parse_enc(s, pos + upto_round.len(), v.control_hash);
        <Vec<u8>>::lemma_parse_enc(s, pos + upto_control_hash.len(), v.data);
        <SessionId>::lemma_parse_enc(s, pos + upto_data.len(), v.session_id);
    }

    fn encode_to(&self, out: &mut Vec<u8>) {
        self.creator.encode_to(out);
        self.round.encode_to(out);
        self.control_hash.encode_to(out);
        self.data.encode_to(out);
        self.session_id.encode_to(out);
        proof {
            let enc_creator = <NodeIndex>::enc(self.creator);
            let enc_round = <Round>::enc(self.round);
            let enc_control_hash = <ControlHash>::enc(self.control_hash.deep_view());
            let enc_data = <Vec<u8>>::enc(self.data.deep_view());
            let enc_session_id = <SessionId>::enc(self.session_id);
            let whole = enc_creator + enc_round + enc_control_hash + enc_data + enc_session_id;
            assert(old(out)@ + enc_creator + enc_round + enc_control_hash + enc_data + enc_session_id
                =~= old(out)@ + whole);
        }
    }

    fn decode(input: &[u8], pos: usize) -> (r: Option<(Self, usize)>) {
        let (creator, at1) = match <NodeIndex>::decode(input, pos) {
            Some(read) => read,
            None => {
                return None;
            },
        };
        proof {
            <NodeIndex>::lemma_parse_sound(input@, pos as int);
        }
        let (round, at2) = match <Round>::decode(input, at1) {
            Some(read) => read,
            None => {
                return None;
            },
        };
        proof {
            <Round>::lemma_parse_sound(input@, at1 as int);
        }
        let (control_hash, at3) = match <ControlHash>::decode(input, at2) {
            Some(read) => read,
            None => {
                return None;
            },
        };
        proof {
            <ControlHash>::lemma_parse_sound(input@, at2 as int);
        }
        let (data, at4) = match <Vec<u8>>::decode(input, at3) {
            Some(read) => read,
            None => {
                return None;
            },
        };
        proof {
            <Vec<u8>>::lemma_parse_sound(input@, at3 as int);
        }
        let (session_id, at5) = match <SessionId>::decode(input, at4) {
            Some(read) => read,
            None => {
                return None;
            },
        };
        Some((FullUnit { creator, round, control_hash, data, session_id }, at5))
    }
}

impl Value for FullUnit {
    fn duplicate(&self) -> (r: Self) {
        FullUnit {
            creator: self.creator.duplicate(),
            round: self.round.duplicate(),
            control_hash: self.control_hash.duplicate(),
            data: self.data.duplicate(),
            session_id: self.session_id.duplicate(),
        }
    }

    fn same(&self, other: &Self) -> (b: bool) {
        self.creator.same(&other.creator)
            && self.round.same(&other.round)
            && self.control_hash.same(&other.control_hash)
            && self.data.same(&other.data)
            && self.session_id.same(&other.session_id)
    }
}

impl Clone for FullUnit {
    fn clone(&self) -> (r: Self)
        ensures
            r.deep_view() == self.deep_view(),
    {
        self.duplicate()
    }
}

/// A value together with a signature that nothing has checked yet.
#[derive(Debug, PartialEq, Eq, Hash)]
pub struct UncheckedSigned<T, S> {
    /// What was signed.
    pub signable: T,
    /// The signature that came with it.
    pub signature: S,
}

/// What a [`UncheckedSigned`] holds, as a mathematical value.
pub struct UncheckedSignedView<TV, SV> {
    pub signable: TV,
    pub signature: SV,
}

impl<T: DeepView, S: DeepView> DeepView for UncheckedSigned<T, S> {
    type V = UncheckedSignedView<T::V, S::V>;

    open spec fn deep_view(&self) -> UncheckedSignedView<T::V, S::V> {
        UncheckedSignedView {
            signable: self.signable.deep_view(),
            signature: self.signature.deep_view(),
        }
    }
}

impl<T: Wire, S: Wire> Wire for UncheckedSigned<T, S> {
    open spec fn enc(v: UncheckedSignedView<T::V, S::V>) -> Seq<u8> {
        <T>::enc(v.signable) + <S>::enc(v.signature)
    }

    open spec fn parse(s: Seq<u8>, pos: int) -> Option<(UncheckedSignedView<T::V, S::V>, int)> {
        match <T>::parse(s, pos) {
            Some((signable, at1)) => 
            match <S>::parse(s, at1) {
                Some((signature, at2)) => Some((UncheckedSignedView { signable, signature }, at2)),
                None => None,
            },
            None => None,
        }
    }

    open spec fn representable(v: UncheckedSignedView<T::V, S::V>) -> bool {
        &&& <T>::representable(v.signable)
        &&& <S>::representable(v.signature)
    }

    proof fn lemma_representable(&self) {
        self.signable.lemma_representable();
        self.signature.lemma_representable();
    }

    proof fn lemma_parse_sound(s: Seq<u8>, pos: int) {
        <T>::lemma_parse_sound(s, pos);
        if let Some((signable, at1)) = <T>::parse(s, pos) {
            <S>::lemma_parse_sound(s, at1);
            if let Some((signature, at2)) = <S>::parse(s, at1) {
                let so_far = <T>::enc(signable);
                lemma_is_at_join(s, pos, so_far, <S>::enc(signature));
            }
        }
    }

    proof fn lemma_parse_enc(s: Seq<u8>, pos: int, v: UncheckedSignedView<T::V, S::V>) {
        let enc_signable = <T>::enc(v.signable);
        let enc_signature = <S>::enc(v.signature);
        lemma_is_at_split(s, pos, enc_signable, enc_signature);
        <T>::lemma_parse_enc(s, pos, v.signable);
        <S>::lemma_parse_enc(s, pos + enc_signable.len(), v.signature);
    }

    fn encode_to(&self, out: &mut Vec<u8>) {
        self.signable.encode_to(out);
        self.signature.encode_to(out);
        proof {
            let enc_signable = <T>::enc(self.signable.deep_view());
            let enc_signature = <S>::enc(self.signature.deep_view());
            let whole = enc_signable + enc_signature;
            assert(old(out)@ + enc_signable + enc_signature =~= old(out)@ + whole);
        }
    }

    fn decode(input: &[u8], pos: usize) -> (r: Option<(Self, usize)>) {
        let (signable, at1) = match <T>::decode(input, pos) {
            Some(read) => read,
            None => {
                return None;
            },
        };
        proof {
            <T>::lemma_parse_sound(input@, pos as int);
        }
        let (signature, at2) = match <S>::decode(input, at1) {
            Some(read) => read,
            None => {
                return None;
            },
        };
        Some((UncheckedSigned { signable, signature }, at2))
    }
}

impl<T: Value, S: Value> Value for UncheckedSigned<T, S> {
    fn duplicate(&self) -> (r: Self) {
        UncheckedSigned {
            signable: self.signable.duplicate(),
            signature: self.signature.duplicate(),
        }
    }

    fn same(&self, other: &Self) -> (b: bool) {
        self.signable.same(&other.signable) && self.signature.same(&other.signature)
    }
}

impl<T: Value, S: Value> Clone for UncheckedSigned<T, S> {
    fn clone(&self) -> (r: Self)
        ensures
            r.deep_view() == self.deep_view(),
    {
        self.duplicate()
    }
}
/// The place of a unit in the DAG.
#[derive(Copy, Debug, PartialEq, Eq, Hash)]
pub struct UnitCoord {
    pub round: Round,
    pub creator: NodeIndex,
}

/// What a [`UnitCoord`] holds, as a mathematical value.
pub struct UnitCoordView {
    pub round: Round,
    pub creator: NodeIndex,
}

impl DeepView for UnitCoord {
    type V = UnitCoordView;

    open spec fn deep_view(&self) -> UnitCoordView {
        UnitCoordView {
            round: self.round,
            creator: self.creator,
        }
    }
}

impl View for UnitCoord {
    type V = UnitCoordView;

    open spec fn view(&self) -> UnitCoordView {
        self.deep_view()
    }
}

impl Wire for UnitCoord {
    open spec fn enc(v: UnitCoordView) -> Seq<u8> {
        <Round>::enc(v.round) + <NodeIndex>::enc(v.creator)
    }

    open spec fn parse(s: Seq<u8>, pos: int) -> Option<(UnitCoordView, int)> {
        match <Round>::parse(s, pos) {
            Some((round, at1)) => 
            match <NodeIndex>::parse(s, at1) {
                Some((creator, at2)) => Some((UnitCoordView { round, creator }, at2)),
                None => None,
            },
            None => None,
        }
    }

    open spec fn representable(v: UnitCoordView) -> bool {
        &&& <Round>::representable(v.round)
        &&& <NodeIndex>::representable(v.creator)
    }

    proof fn lemma_representable(&self) {
        self.round.lemma_representable();
        self.creator.lemma_representable();
    }

    proof fn lemma_parse_sound(s: Seq<u8>, pos: int) {
        <Round>::lemma_parse_sound(s, pos);
        if let Some((round, at1)) = <Round>::parse(s, pos) {
            <NodeIndex>::lemma_parse_sound(s, at1);
            if let Some((creator, at2)) = <NodeIndex>::parse(s, at1) {
                let so_far = <Round>::enc(round);
                lemma_is_at_join(s, pos, so_far, <NodeIndex>::enc(creator));
            }
        }
    }

    proof fn lemma_parse_enc(s: Seq<u8>, pos: int, v: UnitCoordView) {
        let enc_round = <Round>::enc(v.round);
        let enc_creator = <NodeIndex>::enc(v.creator);
        lemma_is_at_split(s, pos, enc_round, enc_creator);
        <Round>::lemma_parse_enc(s, pos, v.round);
        <NodeIndex>::lemma_parse_enc(s, pos + enc_round.len(), v.creator);
    }

    fn encode_to(&self, out: &mut Vec<u8>) {
        self.round.encode_to(out);
        self.creator.encode_to(out);
        proof {
            let enc_round = <Round>::enc(self.round);
            let enc_creator = <NodeIndex>::enc(self.creator);
            let whole = enc_round + enc_creator;
            assert(old(out)@ + enc_round + enc_creator =~= old(out)@ + whole);
        }
    }

    fn decode(input: &[u8], pos: usize) -> (r: Option<(Self, usize)>) {
        let (round, at1) = match <Round>::decode(input, pos) {
            Some(read) => read,
            None => {
                return None;
            },
        };
        proof {
            <Round>::lemma_parse_sound(input@, pos as int);
        }
        let (creator, at2) = match <NodeIndex>::decode(input, at1) {
            Some(read) => read,
            None => {
                return None;
            },
        };
        Some((UnitCoord { round, creator }, at2))
    }
}

impl Value for UnitCoord {
    fn duplicate(&self) -> (r: Self) {
        UnitCoord {
            round: self.round.duplicate(),
            creator: self.creator.duplicate(),
        }
    }

    fn same(&self, other: &Self) -> (b: bool) {
        self.round.same(&other.round) && self.creator.same(&other.creator)
    }
}

impl Clone for UnitCoord {
    fn clone(&self) -> (r: Self)
        ensures
            r.deep_view() == self.deep_view(),
    {
        self.duplicate()
    }
}
/// A unit with its creator's signature, not yet checked.
pub type UncheckedSignedUnit = UncheckedSigned<FullUnit, Signature>;

/// What an [`UncheckedSignedUnit`] holds, as a mathematical value.
pub type SignedUnitView = UncheckedSignedView<UnitView, SignatureView>;

impl<T, S> UncheckedSigned<T, S> {
    pub fn new(signable: T, signature: S) -> (signed: Self)
        ensures
            signed.signable == signable,
            signed.signature == signature,
    {
        UncheckedSigned { signable, signature }
    }

    pub fn as_signable(&self) -> (signable: &T)
        ensures
            *signable == self.signable,
    {
        &self.signable
    }

    pub fn into_signable(self) -> (signable: T)
        ensures
            signable == self.signable,
    {
        self.signable
    }
}

/// Which participants the mask names, in ascending order.
pub open spec fn mask_elements(mask: Seq<bool>) -> Seq<NodeIndex>
    decreases mask.len(),
{
    if mask.len() == 0 {
        Seq::empty()
    } else if mask.last() {
        mask_elements(mask.drop_last()).push(NodeIndex((mask.len() - 1) as usize))
    } else {
        mask_elements(mask.drop_last())
    }
}

/// The mask names exactly the participants at whose index it holds `true`.
pub proof fn lemma_mask_elements(mask: Seq<bool>, i: int)
    requires
        mask.len() <= usize::MAX,
    ensures
        mask_elements(mask).contains(NodeIndex(i as usize)) && 0 <= i <= usize::MAX <==> 0 <= i
            < mask.len() && mask[i],
    decreases mask.len(),
{
    if mask.len() > 0 {
        let front = mask.drop_last();
        lemma_mask_elements(front, i);
        let last = NodeIndex((mask.len() - 1) as usize);
        if mask.last() {
            let es = mask_elements(front);
            if es.push(last).contains(NodeIndex(i as usize)) {
                let j = choose|j: int| 0 <= j < es.push(last).len() && es.push(last)[j] == NodeIndex(i as usize);
                if j < es.len() {
                    assert(es[j] == NodeIndex(i as usize));
                }
            }
            if 0 <= i < mask.len() && mask[i] {
                if i == mask.len() - 1 {
                    assert(es.push(last)[es.len() as int] == last);
                } else {
                    let j = choose|j: int| 0 <= j < es.len() && es[j] == NodeIndex(i as usize);
                    assert(es.push(last)[j] == NodeIndex(i as usize));
                }
            }
        }
    }
}

impl ControlHash {
    /// The summary of the given parents: one place per participant, with the hash of the parent
    /// by that participant where there is one.
    pub fn new<H: Hasher>(parent_hashes: &Vec<Option<Hash64>>) -> (control_hash: Self)
        ensures
            control_hash.deep_view().parents_mask == parent_hashes.deep_view().map_values(
                |h: Option<Hash64>| h is Some,
            ),
            control_hash.combined_hash == content_hash::<H, Vec<Option<Hash64>>>(
                parent_hashes.deep_view(),
            ),
    {
        let mut parents_mask: Vec<bool> = Vec::new();
        let mut i: usize = 0;
        while i < parent_hashes.len()
            invariant
                i <= parent_hashes.len(),
                parents_mask@.len() == i,
                forall|j: int| 0 <= j < i ==> parents_mask@[j] == (parent_hashes@[j] is Some),
            decreases parent_hashes.len() - i,
        {
            parents_mask.push(parent_hashes[i].is_some());
            i += 1;
        }
        let combined_hash = hash_of::<H, Vec<Option<Hash64>>>(parent_hashes);
        proof {
            assert(parents_mask.deep_view() =~= parent_hashes.deep_view().map_values(
                |h: Option<Hash64>| h is Some,
            ));
        }
        ControlHash { parents_mask, combined_hash }
    }

    /// The number of participants that the mask has a place for.
    pub fn n_members(&self) -> (n: usize)
        ensures
            n == self.deep_view().parents_mask.len(),
    {
        self.parents_mask.len()
    }

    /// The participants by which the unit has a parent, in ascending order: those at whose
    /// place the mask holds `true`.
    pub fn parents(&self) -> (parents: Vec<NodeIndex>)
        ensures
            parents@ == mask_elements(self.deep_view().parents_mask),
            forall|i: int|
                0 <= i < self.deep_view().parents_mask.len() ==> (parents@.contains(
                    NodeIndex(i as usize),
                ) <==> #[trigger] self.deep_view().parents_mask[i]),
    {
        let mut parents: Vec<NodeIndex> = Vec::new();
        let mut i: usize = 0;
        while i < self.parents_mask.len()
            invariant
                i <= self.parents_mask.len(),
                parents@ == mask_elements(self.parents_mask.deep_view().take(i as int)),
            decreases self.parents_mask.len() - i,
        {
            proof {
                let mask = self.parents_mask.deep_view();
                assert(mask.take(i + 1).drop_last() =~= mask.take(i as int));
            }
            if self.parents_mask[i] {
                parents.push(NodeIndex(i));
            }
            i += 1;
        }
        proof {
            let mask = self.parents_mask.deep_view();
            assert(mask.take(mask.len() as int) =~= mask);
            assert(mask.len() == self.parents_mask.len());
            assert forall|i: int| 0 <= i < mask.len() implies (parents@.contains(
                NodeIndex(i as usize),
            ) <==> #[trigger] mask[i]) by {
                lemma_mask_elements(mask, i);
            }
        }
        parents
    }
}

impl FullUnit {
    pub fn new(
        creator: NodeIndex,
        round: Round,
        control_hash: ControlHash,
        data: Vec<u8>,
        session_id: SessionId,
    ) -> (unit: Self)
        ensures
            unit == (FullUnit { creator, round, control_hash, data, session_id }),
    {
        FullUnit { creator, round, control_hash, data, session_id }
    }

    pub fn creator(&self) -> (creator: NodeIndex)
        ensures
            creator == self.creator,
    {
        self.creator
    }

    pub fn round(&self) -> (round: Round)
        ensures
            round == self.round,
    {
        self.round
    }

    pub fn session_id(&self) -> (session_id: SessionId)
        ensures
            session_id == self.session_id,
    {
        self.session_id
    }

    pub fn control_hash(&self) -> (control_hash: &ControlHash)
        ensures
            *control_hash == self.control_hash,
    {
        &self.control_hash
    }

    pub fn data(&self) -> (data: &Vec<u8>)
        ensures
            *data == self.data,
    {
        &self.data
    }

    /// The place of the unit in the DAG.
    pub fn coord(&self) -> (coord: UnitCoord)
        ensures
            coord == (UnitCoord { round: self.round, creator: self.creator }),
    {
        UnitCoord { round: self.round, creator: self.creator }
    }

    /// The hash of the unit: what its creator signs.
    pub fn hash<H: Hasher>(&self) -> (h: Hash64)
        ensures
            h == content_hash::<H, FullUnit>(self.deep_view()),
    {
        hash_of::<H, FullUnit>(self)
    }
}

impl UnitCoord {
    pub fn new(round: Round, creator: NodeIndex) -> (coord: Self)
        ensures
            coord == (UnitCoord { round, creator }),
    {
        UnitCoord { round, creator }
    }

    pub fn round(&self) -> (round: Round)
        ensures
            round == self.round,
    {
        self.round
    }

    pub fn creator(&self) -> (creator: NodeIndex)
        ensures
            creator == self.creator,
    {
        self.creator
    }
}

/// The unit carries its creator's signature on its hash.
pub open spec fn unit_correctly_signed<H: Hasher, K: KeyBox>(
    keychain: &K,
    unit: SignedUnitView,
) -> bool {
    signs_hash(
        keychain,
        content_hash::<H, FullUnit>(unit.signable),
        unit.signature,
        unit.signable.creator,
    )
}

/// Checks the creator's signature on a unit.
pub fn check_unit<H: Hasher, K: KeyBox>(keychain: &K, unit: &UncheckedSignedUnit) -> (ok: bool)
    ensures
        ok == unit_correctly_signed::<H, K>(keychain, unit.deep_view()),
{
    let hash = unit.signable.hash::<H>();
    check_hash(keychain, hash, &unit.signature, unit.signable.creator)
}

/// Signs a unit with the key box's own key. The signature is the creator's where the unit names
/// the key box's participant as its creator.
pub fn sign_unit<H: Hasher, K: KeyBox>(keychain: &K, unit: FullUnit) -> (signed: UncheckedSignedUnit)
    ensures
        signed.signable == unit,
        signs_hash(
            keychain,
            content_hash::<H, FullUnit>(unit.deep_view()),
            signed.signature.deep_view(),
            keychain.spec_index(),
        ),
{
    let hash = unit.hash::<H>();
    let signature = sign_hash(keychain, hash);
    UncheckedSigned { signable: unit, signature }
}

} // verus!

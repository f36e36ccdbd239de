//! Fork alerts: what participants tell each other when one of them is seen to sign two units at
//! the same place of the DAG.

use crate::codec::{lemma_is_at_join, lemma_is_at_split, Wire};
use crate::crypto::{
    check_hash, content_hash, hash_of, sign_hash, signs_hash, KeyBox, Multisigned, MultisignedView,
};
use crate::nodes::{Hash64, Hasher, Index, NodeCount, NodeIndex, SessionId};
use crate::rmc::{RmcMessage, RmcMessageView};
use crate::units::{
    Signature, SignatureView, SignedUnitView, UncheckedSigned, UncheckedSignedUnit,
    UncheckedSignedView,
};
use crate::value::Value;
use vstd::prelude::*;

pub mod handler;
pub mod laws;
pub mod replay;
pub mod service;
pub mod system;

verus! {

/// Two signed units that, if they are by one creator at one round and differ, prove that creator
/// to fork.
pub type ForkProof = (UncheckedSignedUnit, UncheckedSignedUnit);

/// What a [`ForkProof`] holds, as a mathematical value.
pub type ForkProofView = (SignedUnitView, SignedUnitView);

/// An alert with its sender's signature, not yet checked.
pub type UncheckedSignedAlert = UncheckedSigned<Alert, Signature>;

/// What an [`UncheckedSignedAlert`] holds, as a mathematical value.
pub type SignedAlertView = UncheckedSignedView<AlertView, SignatureView>;

/// What the alerts of one session are configured with.
#[derive(Copy, Clone, Debug, PartialEq, Eq)]
pub struct AlertConfig {
    pub n_members: NodeCount,
    pub session_id: SessionId,
}

/// What one participant broadcasts about a fork it has seen.
#[derive(Debug, PartialEq, Eq, Hash)]
pub struct Alert {
    /// The participant that raises the alert, not the forker.
    pub sender: NodeIndex,
    /// The witness of the fork.
    pub proof: ForkProof,
    /// The forker's units that the sender commits to.
    pub legit_units: Vec<UncheckedSignedUnit>,
}

/// What a [`Alert`] holds, as a mathematical value.
pub struct AlertView {
    pub sender: NodeIndex,
    pub proof: ForkProofView,
    pub legit_units: Seq<SignedUnitView>,
}

impl DeepView for Alert {
    type V = AlertView;

    open spec fn deep_view(&self) -> AlertView {
        AlertView {
            sender: self.sender,
            proof: self.proof.deep_view(),
            legit_units: self.legit_units.deep_view(),
        }
    }
}

impl View for Alert {
    type V = AlertView;

    open spec fn view(&self) -> AlertView {
        self.deep_view()
    }
}

impl Wire for Alert {
    open spec fn enc(v: AlertView) -> Seq<u8> {
        <NodeIndex>::enc(v.sender)
            + <ForkProof>::enc(v.proof)
            + <Vec<UncheckedSignedUnit>>::enc(v.legit_units)
    }

    open spec fn parse(s: Seq<u8>, pos: int) -> Option<(AlertView, int)> {
        match <NodeIndex>::parse(s, pos) {
            Some((sender, at1)) => 
            match <ForkProof>::parse(s, at1) {
                Some((proof, at2)) => 
                match <Vec<UncheckedSignedUnit>>::parse(s, at2) {
                    Some((legit_units, at3)) => Some(
                        (
                            AlertView {
                                sender,
                                proof,
                                legit_units,
                            },
                            at3,
                        ),
                    ),
                    None => None,
                },
                None => None,
            },
            None => None,
        }
    }

    open spec fn representable(v: AlertView) -> bool {
        &&& <NodeIndex>::representable(v.sender)
        &&& <ForkProof>::representable(v.proof)
        &&& <Vec<UncheckedSignedUnit>>::representable(v.legit_units)
    }

    proof fn lemma_representable(&self) {
        self.sender.lemma_representable();
        self.proof.lemma_representable();
        self.legit_units.lemma_representable();
    }

    proof fn lemma_parse_sound(s: Seq<u8>, pos: int) {
        <NodeIndex>::lemma_parse_sound(s, pos);
        if let Some((sender, at1)) = <NodeIndex>::parse(s, pos) {
            <ForkProof>::lemma_parse_sound(s, at1);
            if let Some((proof, at2)) = <ForkProof>::parse(s, at1) {
                <Vec<UncheckedSignedUnit>>::lemma_parse_sound(s, at2);
                if let Some((legit_units, at3)) = <Vec<UncheckedSignedUnit>>::parse(s, at2) {
                    let so_far = <NodeIndex>::enc(sender);
                    lemma_is_at_join(s, pos, so_far, <ForkProof>::enc(proof));
                    let so_far = so_far + <ForkProof>::enc(proof);
                    lemma_is_at_join(s, pos, so_far, <Vec<UncheckedSignedUnit>>::enc(legit_units));
                }
            }
        }
    }

    proof fn lemma_parse_enc(s: Seq<u8>, pos: int, v: AlertView) {
        let enc_sender = <NodeIndex>::enc(v.sender);
        let enc_proof = <ForkProof>::enc(v.proof);
        let enc_legit_units = <Vec<UncheckedSignedUnit>>::enc(v.legit_units);
        let upto_proof = enc_sender + enc_proof;
        lemma_is_at_split(s, pos, upto_proof, enc_legit_units);
        lemma_is_at_split(s, pos, enc_sender, enc_proof);
        <NodeIndex>::lemma_parse_enc(s, pos, v.sender);
        <ForkProof>::lemma_parse_enc(s, pos + enc_sender.len(), v.proof);
        <Vec<UncheckedSignedUnit>>::lemma_parse_enc(s, pos + upto_proof.len(), v.legit_units);
    }

    fn encode_to(&self, out: &mut Vec<u8>) {
        self.sender.encode_to(out);
        self.proof.encode_to(out);
        self.legit_units.encode_to(out);
        proof {
            let enc_sender = <NodeIndex>::enc(self.sender);
            let enc_proof = <ForkProof>::enc(self.proof.deep_view());
            let enc_legit_units = <Vec<UncheckedSignedUnit>>::enc(self.legit_units.deep_view());
            let whole = enc_sender + enc_proof + enc_legit_units;
            assert(old(out)@ + enc_sender + enc_proof + enc_legit_units =~= old(out)@ + whole);
        }
    }

    fn decode(input: &[u8], pos: usize) -> (r: Option<(Self, usize)>) {
        let (sender, at1) = match <NodeIndex>::decode(input, pos) {
            Some(read) => read,
            None => {
                return None;
            },
        };
        proof {
            <NodeIndex>::lemma_parse_sound(input@, pos as int);
        }
        let (proof, at2) = match <ForkProof>::decode(input, at1) {
            Some(read) => read,
            None => {
                return None;
            },
        };
        proof {
            <ForkProof>::lemma_parse_sound(input@, at1 as int);
        }
        let (legit_units, at3) = match <Vec<UncheckedSignedUnit>>::decode(input, at2) {
            Some(read) => read,
            None => {
                return None;
            },
        };
        Some((Alert { sender, proof, legit_units }, at3))
    }
}

impl Value for Alert {
    fn duplicate(&self) -> (r: Self) {
        Alert {
            sender: self.sender.duplicate(),
            proof: self.proof.duplicate(),
            legit_units: self.legit_units.duplicate(),
        }
    }

    fn same(&self, other: &Self) -> (b: bool) {
        self.sender.same(&other.sender)
            && self.proof.same(&other.proof)
            && self.legit_units.same(&other.legit_units)
    }
}

impl Clone for Alert {
    fn clone(&self) -> (r: Self)
        ensures
            r.deep_view() == self.deep_view(),
    {
        self.duplicate()
    }
}

/// A message concerning alerts.
#[derive(Debug, PartialEq, Eq, Hash)]
pub enum AlertMessage {
    /// An alert, signed by the participant that raises it.
    ForkAlert(UncheckedSignedAlert),
    /// A message of the reliable multicast, with the index of its sender.
    RmcHash(NodeIndex, RmcMessage),
    /// A request by a participant for the alert with the given hash.
    AlertRequest(NodeIndex, Hash64),
}

/// What an [`AlertMessage`] holds, as a mathematical value.
pub enum AlertMessageView {
    ForkAlert(SignedAlertView),
    RmcHash(NodeIndex, RmcMessageView),
    AlertRequest(NodeIndex, Hash64),
}

impl DeepView for AlertMessage {
    type V = AlertMessageView;

    open spec fn deep_view(&self) -> AlertMessageView {
        match self {
            AlertMessage::ForkAlert(x0) => AlertMessageView::ForkAlert(x0.deep_view()),
            AlertMessage::RmcHash(x0, x1) => AlertMessageView::RmcHash(*x0, x1.deep_view()),
            AlertMessage::AlertRequest(x0, x1) => AlertMessageView::AlertRequest(*x0, *x1),
        }
    }
}

impl View for AlertMessage {
    type V = AlertMessageView;

    open spec fn view(&self) -> AlertMessageView {
        self.deep_view()
    }
}

impl Wire for AlertMessage {
    open spec fn enc(v: AlertMessageView) -> Seq<u8> {
        match v {
            AlertMessageView::ForkAlert(x0) => seq![0u8] + <UncheckedSignedAlert>::enc(x0),
            AlertMessageView::RmcHash(x0, x1) => seq![1u8]
                + <NodeIndex>::enc(x0)
                + <RmcMessage>::enc(x1),
            AlertMessageView::AlertRequest(x0, x1) => seq![2u8]
                + <NodeIndex>::enc(x0)
                + <Hash64>::enc(x1),
        }
    }

    open spec fn parse(s: Seq<u8>, pos: int) -> Option<(AlertMessageView, int)> {
        match u8::parse(s, pos) {
            Some((tag, at0)) => {
                if tag == 0 {
                    match <UncheckedSignedAlert>::parse(s, at0) {
                        Some((x0, at1)) => Some((AlertMessageView::ForkAlert(x0), at1)),
                        None => None,
                    }
                } else if tag == 1 {
                    match <NodeIndex>::parse(s, at0) {
                        Some((x0, at1)) => 
                        match <RmcMessage>::parse(s, at1) {
                            Some((x1, at2)) => Some((AlertMessageView::RmcHash(x0, x1), at2)),
                            None => None,
                        },
                        None => None,
                    }
                } else if tag == 2 {
                    match <NodeIndex>::parse(s, at0) {
                        Some((x0, at1)) => 
                        match <Hash64>::parse(s, at1) {
                            Some((x1, at2)) => Some((AlertMessageView::AlertRequest(x0, x1), at2)),
                            None => None,
                        },
                        None => None,
                    }
                } else {
                    None
                }
            },
            None => None,
        }
    }

    open spec fn representable(v: AlertMessageView) -> bool {
        match v {
            AlertMessageView::ForkAlert(x0) => <UncheckedSignedAlert>::representable(x0),
            AlertMessageView::RmcHash(x0, x1) => {
                &&& <NodeIndex>::representable(x0)
                &&& <RmcMessage>::representable(x1)
            },
            AlertMessageView::AlertRequest(x0, x1) => {
                &&& <NodeIndex>::representable(x0)
                &&& <Hash64>::representable(x1)
            },
        }
    }

    proof fn lemma_representable(&self) {
        match self {
            AlertMessage::ForkAlert(x0) => {
                x0.lemma_representable();
            },
            AlertMessage::RmcHash(x0, x1) => {
                x0.lemma_representable();
                x1.lemma_representable();
            },
            AlertMessage::AlertRequest(x0, x1) => {
                x0.lemma_representable();
                x1.lemma_representable();
            },
        }
    }

    proof fn lemma_parse_sound(s: Seq<u8>, pos: int) {
        u8::lemma_parse_sound(s, pos);
        if let Some((tag, at0)) = u8::parse(s, pos) {
            if tag == 0 {
                <UncheckedSignedAlert>::lemma_parse_sound(s, at0);
                if let Some((x0, at1)) = <UncheckedSignedAlert>::parse(s, at0) {
                    let so_far = seq![0u8];
                    lemma_is_at_join(s, pos, so_far, <UncheckedSignedAlert>::enc(x0));
                }
            }
            if tag == 1 {
                <NodeIndex>::lemma_parse_sound(s, at0);
                if let Some((x0, at1)) = <NodeIndex>::parse(s, at0) {
                    <RmcMessage>::lemma_parse_sound(s, at1);
                    if let Some((x1, at2)) = <RmcMessage>::parse(s, at1) {
                        let so_far = seq![1u8];
                        lemma_is_at_join(s, pos, so_far, <NodeIndex>::enc(x0));
                        let so_far = so_far + <NodeIndex>::enc(x0);
                        lemma_is_at_join(s, pos, so_far, <RmcMessage>::enc(x1));
                    }
                }
            }
            if tag == 2 {
                <NodeIndex>::lemma_parse_sound(s, at0);
                if let Some((x0, at1)) = <NodeIndex>::parse(s, at0) {
                    <Hash64>::lemma_parse_sound(s, at1);
                    if let Some((x1, at2)) = <Hash64>::parse(s, at1) {
                        let so_far = seq![2u8];
                        lemma_is_at_join(s, pos, so_far, <NodeIndex>::enc(x0));
                        let so_far = so_far + <NodeIndex>::enc(x0);
                        lemma_is_at_join(s, pos, so_far, <Hash64>::enc(x1));
                    }
                }
            }
        }
    }

    proof fn lemma_parse_enc(s: Seq<u8>, pos: int, v: AlertMessageView) {
        match v {
            AlertMessageView::ForkAlert(x0) => {
                let tag = seq![0u8];
                let enc0 = <UncheckedSignedAlert>::enc(x0);
                lemma_is_at_split(s, pos, tag, enc0);
                u8::lemma_parse_enc(s, pos, 0u8);
                <UncheckedSignedAlert>::lemma_parse_enc(s, pos + tag.len(), x0);
            },
            AlertMessageView::RmcHash(x0, x1) => {
                let tag = seq![1u8];
                let enc0 = <NodeIndex>::enc(x0);
                let enc1 = <RmcMessage>::enc(x1);
                let upto0 = tag + enc0;
                lemma_is_at_split(s, pos, upto0, enc1);
                lemma_is_at_split(s, pos, tag, enc0);
                u8::lemma_parse_enc(s, pos, 1u8);
                <NodeIndex>::lemma_parse_enc(s, pos + tag.len(), x0);
                <RmcMessage>::lemma_parse_enc(s, pos + upto0.len(), x1);
            },
            AlertMessageView::AlertRequest(x0, x1) => {
                let tag = seq![2u8];
                let enc0 = <NodeIndex>::enc(x0);
                let enc1 = <Hash64>::enc(x1);
                let upto0 = tag + enc0;
                lemma_is_at_split(s, pos, upto0, enc1);
                lemma_is_at_split(s, pos, tag, enc0);
                u8::lemma_parse_enc(s, pos, 2u8);
                <NodeIndex>::lemma_parse_enc(s, pos + tag.len(), x0);
                <Hash64>::lemma_parse_enc(s, pos + upto0.len(), x1);
            },
        }
    }

    fn encode_to(&self, out: &mut Vec<u8>) {
        match self {
            AlertMessage::ForkAlert(x0) => {
                out.push(0u8);
                x0.encode_to(out);
                proof {
                    let enc0 = <UncheckedSignedAlert>::enc(x0.deep_view());
                    let whole = seq![0u8] + enc0;
                    assert(old(out)@.push(0u8) + enc0 =~= old(out)@ + whole);
                }
            },
            AlertMessage::RmcHash(x0, x1) => {
                out.push(1u8);
                x0.encode_to(out);
                x1.encode_to(out);
                proof {
                    let enc0 = <NodeIndex>::enc(*x0);
                    let enc1 = <RmcMessage>::enc(x1.deep_view());
                    let whole = seq![1u8] + enc0 + enc1;
                    assert(old(out)@.push(1u8) + enc0 + enc1 =~= old(out)@ + whole);
                }
            },
            AlertMessage::AlertRequest(x0, x1) => {
                out.push(2u8);
                x0.encode_to(out);
                x1.encode_to(out);
                proof {
                    let enc0 = <NodeIndex>::enc(*x0);
                    let enc1 = <Hash64>::enc(*x1);
                    let whole = seq![2u8] + enc0 + enc1;
                    assert(old(out)@.push(2u8) + enc0 + enc1 =~= old(out)@ + whole);
                }
            },
        }
    }

    fn decode(input: &[u8], pos: usize) -> (r: Option<(Self, usize)>) {
        let (tag, at0) = match u8::decode(input, pos) {
            Some(read) => read,
            None => {
                return None;
            },
        };
        if tag == 0 {
            let (x0, at1) = match <UncheckedSignedAlert>::decode(input, at0) {
                Some(read) => read,
                None => {
                    return None;
                },
            };
            Some((AlertMessage::ForkAlert(x0), at1))
        } else if tag == 1 {
            let (x0, at1) = match <NodeIndex>::decode(input, at0) {
                Some(read) => read,
                None => {
                    return None;
                },
            };
            proof {
                <NodeIndex>::lemma_parse_sound(input@, at0 as int);
            }
            let (x1, at2) = match <RmcMessage>::decode(input, at1) {
                Some(read) => read,
                None => {
                    return None;
                },
            };
            Some((AlertMessage::RmcHash(x0, x1), at2))
        } else if tag == 2 {
            let (x0, at1) = match <NodeIndex>::decode(input, at0) {
                Some(read) => read,
                None => {
                    return None;
                },
            };
            proof {
                <NodeIndex>::lemma_parse_sound(input@, at0 as int);
            }
            let (x1, at2) = match <Hash64>::decode(input, at1) {
                Some(read) => read,
                None => {
                    return None;
                },
            };
            Some((AlertMessage::AlertRequest(x0, x1), at2))
        } else {
            None
        }
    }
}

impl Value for AlertMessage {
    fn duplicate(&self) -> (r: Self) {
        match self {
            AlertMessage::ForkAlert(x0) => AlertMessage::ForkAlert(x0.duplicate()),
            AlertMessage::RmcHash(x0, x1) => AlertMessage::RmcHash(x0.duplicate(), x1.duplicate()),
            AlertMessage::AlertRequest(x0, x1) => AlertMessage::AlertRequest(
                x0.duplicate(),
                x1.duplicate(),
            ),
        }
    }

    fn same(&self, other: &Self) -> (b: bool) {
        match (self, other) {
            (AlertMessage::ForkAlert(x0), AlertMessage::ForkAlert(y0)) => x0.same(y0),
            (AlertMessage::RmcHash(x0, x1), AlertMessage::RmcHash(y0, y1)) => {
                x0.same(y0) && x1.same(y1)
            },
            (AlertMessage::AlertRequest(x0, x1), AlertMessage::AlertRequest(y0, y1)) => {
                x0.same(y0) && x1.same(y1)
            },
            _ => false,
        }
    }
}

impl Clone for AlertMessage {
    fn clone(&self) -> (r: Self)
        ensures
            r.deep_view() == self.deep_view(),
    {
        self.duplicate()
    }
}

/// What consensus is told: who forks, and which of a forker's units are legitimate.
#[derive(Debug, PartialEq, Eq, Hash)]
pub enum ForkingNotification {
    /// A participant has been proved to fork.
    Forker(ForkProof),
    /// Units of a forker that a quorum has accepted.
    Units(Vec<UncheckedSignedUnit>),
}

/// What a [`ForkingNotification`] holds, as a mathematical value.
pub enum ForkingNotificationView {
    Forker(ForkProofView),
    Units(Seq<SignedUnitView>),
}

impl DeepView for ForkingNotification {
    type V = ForkingNotificationView;

    open spec fn deep_view(&self) -> ForkingNotificationView {
        match self {
            ForkingNotification::Forker(x0) => ForkingNotificationView::Forker(x0.deep_view()),
            ForkingNotification::Units(x0) => ForkingNotificationView::Units(x0.deep_view()),
        }
    }
}

impl View for ForkingNotification {
    type V = ForkingNotificationView;

    open spec fn view(&self) -> ForkingNotificationView {
        self.deep_view()
    }
}


impl Value for ForkingNotification {
    fn duplicate(&self) -> (r: Self) {
        match self {
            ForkingNotification::Forker(x0) => ForkingNotification::Forker(x0.duplicate()),
            ForkingNotification::Units(x0) => ForkingNotification::Units(x0.duplicate()),
        }
    }

    fn same(&self, other: &Self) -> (b: bool) {
        match (self, other) {
            (ForkingNotification::Forker(x0), ForkingNotification::Forker(y0)) => x0.same(y0),
            (ForkingNotification::Units(x0), ForkingNotification::Units(y0)) => x0.same(y0),
            _ => false,
        }
    }
}

impl Clone for ForkingNotification {
    fn clone(&self) -> (r: Self)
        ensures
            r.deep_view() == self.deep_view(),
    {
        self.duplicate()
    }
}

/// What the alerts put into the backup.
#[derive(Debug, PartialEq, Eq, Hash)]
pub enum AlertData {
    /// An alert that this participant decided to raise.
    OwnAlert(Alert),
    /// An alert of another participant that was accepted.
    NetworkAlert(Alert),
    /// A reliable multicast that was seen to complete.
    MultisignedHash(Multisigned),
}

/// What an [`AlertData`] holds, as a mathematical value.
pub enum AlertDataView {
    OwnAlert(AlertView),
    NetworkAlert(AlertView),
    MultisignedHash(MultisignedView),
}

impl DeepView for AlertData {
    type V = AlertDataView;

    open spec fn deep_view(&self) -> AlertDataView {
        match self {
            AlertData::OwnAlert(x0) => AlertDataView::OwnAlert(x0.deep_view()),
            AlertData::NetworkAlert(x0) => AlertDataView::NetworkAlert(x0.deep_view()),
            AlertData::MultisignedHash(x0) => AlertDataView::MultisignedHash(x0.deep_view()),
        }
    }
}

impl View for AlertData {
    type V = AlertDataView;

    open spec fn view(&self) -> AlertDataView {
        self.deep_view()
    }
}

impl Wire for AlertData {
    open spec fn enc(v: AlertDataView) -> Seq<u8> {
        match v {
            AlertDataView::OwnAlert(x0) => seq![0u8] + <Alert>::enc(x0),
            AlertDataView::NetworkAlert(x0) => seq![1u8] + <Alert>::enc(x0),
            AlertDataView::MultisignedHash(x0) => seq![2u8] + <Multisigned>::enc(x0),
        }
    }

    open spec fn parse(s: Seq<u8>, pos: int) -> Option<(AlertDataView, int)> {
        match u8::parse(s, pos) {
            Some((tag, at0)) => {
                if tag == 0 {
                    match <Alert>::parse(s, at0) {
                        Some((x0, at1)) => Some((AlertDataView::OwnAlert(x0), at1)),
                        None => None,
                    }
                } else if tag == 1 {
                    match <Alert>::parse(s, at0) {
                        Some((x0, at1)) => Some((AlertDataView::NetworkAlert(x0), at1)),
                        None => None,
                    }
                } else if tag == 2 {
                    match <Multisigned>::parse(s, at0) {
                        Some((x0, at1)) => Some((AlertDataView::MultisignedHash(x0), at1)),
                        None => None,
                    }
                } else {
                    None
                }
            },
            None => None,
        }
    }

    open spec fn representable(v: AlertDataView) -> bool {
        match v {
            AlertDataView::OwnAlert(x0) => <Alert>::representable(x0),
            AlertDataView::NetworkAlert(x0) => <Alert>::representable(x0),
            AlertDataView::MultisignedHash(x0) => <Multisigned>::representable(x0),
        }
    }

    proof fn lemma_representable(&self) {
        match self {
            AlertData::OwnAlert(x0) => {
                x0.lemma_representable();
            },
            AlertData::NetworkAlert(x0) => {
                x0.lemma_representable();
            },
            AlertData::MultisignedHash(x0) => {
                x0.lemma_representable();
            },
        }
    }

    proof fn lemma_parse_sound(s: Seq<u8>, pos: int) {
        u8::lemma_parse_sound(s, pos);
        if let Some((tag, at0)) = u8::parse(s, pos) {
            if tag == 0 {
                <Alert>::lemma_parse_sound(s, at0);
                if let Some((x0, at1)) = <Alert>::parse(s, at0) {
                    let so_far = seq![0u8];
                    lemma_is_at_join(s, pos, so_far, <Alert>::enc(x0));
                }
            }
            if tag == 1 {
                <Alert>::lemma_parse_sound(s, at0);
                if let Some((x0, at1)) = <Alert>::parse(s, at0) {
                    let so_far = seq![1u8];
                    lemma_is_at_join(s, pos, so_far, <Alert>::enc(x0));
                }
            }
            if tag == 2 {
                <Multisigned>::lemma_parse_sound(s, at0);
                if let Some((x0, at1)) = <Multisigned>::parse(s, at0) {
                    let so_far = seq![2u8];
                    lemma_is_at_join(s, pos, so_far, <Multisigned>::enc(x0));
                }
            }
        }
    }

    proof fn lemma_parse_enc(s: Seq<u8>, pos: int, v: AlertDataView) {
        match v {
            AlertDataView::OwnAlert(x0) => {
                let tag = seq![0u8];
                let enc0 = <Alert>::enc(x0);
                lemma_is_at_split(s, pos, tag, enc0);
                u8::lemma_parse_enc(s, pos, 0u8);
                <Alert>::lemma_parse_enc(s, pos + tag.len(), x0);
            },
            AlertDataView::NetworkAlert(x0) => {
                let tag = seq![1u8];
                let enc0 = <Alert>::enc(x0);
                lemma_is_at_split(s, pos, tag, enc0);
                u8::lemma_parse_enc(s, pos, 1u8);
                <Alert>::lemma_parse_enc(s, pos + tag.len(), x0);
            },
            AlertDataView::MultisignedHash(x0) => {
                let tag = seq![2u8];
                let enc0 = <Multisigned>::enc(x0);
                lemma_is_at_split(s, pos, tag, enc0);
                u8::lemma_parse_enc(s, pos, 2u8);
                <Multisigned>::lemma_parse_enc(s, pos + tag.len(), x0);
            },
        }
    }

    fn encode_to(&self, out: &mut Vec<u8>) {
        match self {
            AlertData::OwnAlert(x0) => {
                out.push(0u8);
                x0.encode_to(out);
                proof {
                    let enc0 = <Alert>::enc(x0.deep_view());
                    let whole = seq![0u8] + enc0;
                    assert(old(out)@.push(0u8) + enc0 =~= old(out)@ + whole);
                }
            },
            AlertData::NetworkAlert(x0) => {
                out.push(1u8);
                x0.encode_to(out);
                proof {
                    let enc0 = <Alert>::enc(x0.deep_view());
                    let whole = seq![1u8] + enc0;
                    assert(old(out)@.push(1u8) + enc0 =~= old(out)@ + whole);
                }
            },
            AlertData::MultisignedHash(x0) => {
                out.push(2u8);
                x0.encode_to(out);
                proof {
                    let enc0 = <Multisigned>::enc(x0.deep_view());
                    let whole = seq![2u8] + enc0;
                    assert(old(out)@.push(2u8) + enc0 =~= old(out)@ + whole);
                }
            },
        }
    }

    fn decode(input: &[u8], pos: usize) -> (r: Option<(Self, usize)>) {
        let (tag, at0) = match u8::decode(input, pos) {
            Some(read) => read,
            None => {
                return None;
            },
        };
        if tag == 0 {
            let (x0, at1) = match <Alert>::decode(input, at0) {
                Some(read) => read,
                None => {
                    return None;
                },
            };
            Some((AlertData::OwnAlert(x0), at1))
        } else if tag == 1 {
            let (x0, at1) = match <Alert>::decode(input, at0) {
                Some(read) => read,
                None => {
                    return None;
                },
            };
            Some((AlertData::NetworkAlert(x0), at1))
        } else if tag == 2 {
            let (x0, at1) = match <Multisigned>::decode(input, at0) {
                Some(read) => read,
                None => {
                    return None;
                },
            };
            Some((AlertData::MultisignedHash(x0), at1))
        } else {
            None
        }
    }
}

impl Value for AlertData {
    fn duplicate(&self) -> (r: Self) {
        match self {
            AlertData::OwnAlert(x0) => AlertData::OwnAlert(x0.duplicate()),
            AlertData::NetworkAlert(x0) => AlertData::NetworkAlert(x0.duplicate()),
            AlertData::MultisignedHash(x0) => AlertData::MultisignedHash(x0.duplicate()),
        }
    }

    fn same(&self, other: &Self) -> (b: bool) {
        match (self, other) {
            (AlertData::OwnAlert(x0), AlertData::OwnAlert(y0)) => x0.same(y0),
            (AlertData::NetworkAlert(x0), AlertData::NetworkAlert(y0)) => x0.same(y0),
            (AlertData::MultisignedHash(x0), AlertData::MultisignedHash(y0)) => x0.same(y0),
            _ => false,
        }
    }
}

impl Clone for AlertData {
    fn clone(&self) -> (r: Self)
        ensures
            r.deep_view() == self.deep_view(),
    {
        self.duplicate()
    }
}
/// The hash of an alert: that of the canonical encoding of its sender, proof and units.
pub open spec fn alert_hash<H: Hasher>(alert: AlertView) -> Hash64 {
    content_hash::<H, Alert>(alert)
}

/// The participant that the alert accuses: the creator of the first unit of its proof.
pub open spec fn alert_forker(alert: AlertView) -> NodeIndex {
    alert.proof.0.signable.creator
}

/// The payloads of the given units, in their order.
pub open spec fn units_data(units: Seq<SignedUnitView>) -> Seq<Seq<u8>> {
    units.map_values(|u: SignedUnitView| u.signable.data)
}

/// The alert carries its sender's signature on its hash.
pub open spec fn alert_correctly_signed<H: Hasher, K: KeyBox>(
    keychain: &K,
    alert: SignedAlertView,
) -> bool {
    signs_hash(keychain, alert_hash::<H>(alert.signable), alert.signature, alert.signable.sender)
}

impl Alert {
    pub fn new(
        sender: NodeIndex,
        proof: ForkProof,
        legit_units: Vec<UncheckedSignedUnit>,
    ) -> (alert: Alert)
        ensures
            alert == (Alert { sender, proof, legit_units }),
    {
        Alert { sender, proof, legit_units }
    }

    /// The hash of the alert.
    pub fn hash<H: Hasher>(&self) -> (h: Hash64)
        ensures
            h == alert_hash::<H>(self.deep_view()),
    {
        hash_of::<H, Alert>(self)
    }

    /// The participant that the alert accuses. This is a forker only where the proof is valid.
    pub fn forker(&self) -> (forker: NodeIndex)
        ensures
            forker == alert_forker(self.deep_view()),
    {
        self.proof.0.signable.creator
    }

    /// The payloads that may end up ordered if the alert is accepted: those of the units it
    /// commits to, not those of the proof.
    pub fn included_data(&self) -> (data: Vec<Vec<u8>>)
        ensures
            data.deep_view() == units_data(self.deep_view().legit_units),
    {
        units_included_data(&self.legit_units)
    }
}

/// The payloads of the given units, in their order.
pub fn units_included_data(units: &Vec<UncheckedSignedUnit>) -> (data: Vec<Vec<u8>>)
    ensures
        data.deep_view() == units_data(units.deep_view()),
{
    let mut data: Vec<Vec<u8>> = Vec::new();
    let mut i: usize = 0;
    while i < units.len()
        invariant
            i <= units.len(),
            data.deep_view() == units_data(units.deep_view().take(i as int)),
        decreases units.len() - i,
    {
        let payload = units[i].signable.data.duplicate();
        let ghost before = data.deep_view();
        let ghost added = payload.deep_view();
        data.push(payload);
        proof {
            assert(data.deep_view() =~= before.push(added));
            assert(units_data(units.deep_view().take(i + 1)) =~= units_data(
                units.deep_view().take(i as int),
            ).push(units.deep_view()[i as int].signable.data));
        }
        i += 1;
    }
    proof {
        assert(units.deep_view().take(units.len() as int) =~= units.deep_view());
    }
    data
}

impl Index for Alert {
    open spec fn spec_index(&self) -> NodeIndex {
        self.sender
    }

    fn index(&self) -> (i: NodeIndex) {
        self.sender
    }
}

/// Checks the sender's signature on an alert.
pub fn check_alert<H: Hasher, K: KeyBox>(keychain: &K, alert: &UncheckedSignedAlert) -> (ok: bool)
    ensures
        ok == alert_correctly_signed::<H, K>(keychain, alert.deep_view()),
{
    let hash = alert.signable.hash::<H>();
    check_hash(keychain, hash, &alert.signature, alert.signable.sender)
}

/// Signs an alert with the key box's own key. The signature is the sender's where the alert
/// names the key box's participant as its sender.
pub fn sign_alert<H: Hasher, K: KeyBox>(keychain: &K, alert: Alert) -> (signed: UncheckedSignedAlert)
    ensures
        signed.signable == alert,
        signs_hash(
            keychain,
            alert_hash::<H>(alert.deep_view()),
            signed.signature.deep_view(),
            keychain.spec_index(),
        ),
{
    let hash = alert.hash::<H>();
    let signature = sign_hash(keychain, hash);
    UncheckedSigned { signable: alert, signature }
}

/// The payloads that a message may bring into the ordering.
pub open spec fn message_data(message: AlertMessageView) -> Seq<Seq<u8>> {
    match message {
        AlertMessageView::ForkAlert(alert) => units_data(alert.signable.legit_units),
        _ => Seq::empty(),
    }
}

impl AlertMessage {
    /// The payloads that may end up ordered as a result of accepting this message.
    pub fn included_data(&self) -> (data: Vec<Vec<u8>>)
        ensures
            data.deep_view() == message_data(self.deep_view()),
    {
        match self {
            AlertMessage::ForkAlert(alert) => alert.signable.included_data(),
            AlertMessage::RmcHash(_, _) => {
                let data: Vec<Vec<u8>> = Vec::new();
                proof {
                    assert(data.deep_view() =~= Seq::<Seq<u8>>::empty());
                }
                data
            },
            AlertMessage::AlertRequest(_, _) => {
                let data: Vec<Vec<u8>> = Vec::new();
                proof {
                    assert(data.deep_view() =~= Seq::<Seq<u8>>::empty());
                }
                data
            },
        }
    }
}

} // verus!

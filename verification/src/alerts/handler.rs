//! The decisions about alerts: a state machine without I/O, whose methods say what is to be
//! done next.

use crate::alerts::{
    alert_correctly_signed, alert_forker, alert_hash, check_alert, sign_alert, Alert, AlertConfig,
    AlertData, AlertDataView, AlertMessage, AlertMessageView, ForkProof, ForkProofView,
    ForkingNotification, ForkingNotificationView, SignedAlertView, UncheckedSignedAlert,
};
use crate::crypto::{is_multisignature, signs_hash, KeyBox, Multisigned};
use crate::nodes::{Hash64, Hasher, Index, NodeIndex, Recipient, Round, SessionId};
use crate::rmc::{message_hash, RmcMessage, RmcMessageView};
use crate::units::{
    check_unit, unit_correctly_signed, SignatureView, SignedUnitView, UncheckedSignedUnit,
    UncheckedSignedView,
};
use crate::value::Value;
use std::collections::{HashMap, HashSet};
use std::marker::PhantomData;
use vstd::prelude::*;

verus! {

broadcast use vstd::std_specs::hash::group_hash_axioms;

/// Why the handler turned something down.
#[derive(Copy, Clone, Debug, PartialEq, Eq, Structural)]
pub enum Error {
    /// The alert does not carry its sender's signature.
    IncorrectlySignedAlert,
    /// The proof of the alert by the given sender does not prove a fork.
    IncorrectProof(NodeIndex),
    /// An alert by the first participant about the second is already being multicast.
    RepeatedAlert(NodeIndex, NodeIndex),
    /// A participant asked for an alert that is not known here.
    UnknownAlertRequest,
    /// A multicast completed for an alert that is not known here.
    UnknownAlertRmc,
    /// The units that the alert of the given sender commits to are not a valid commitment.
    IncorrectCommitment(NodeIndex),
}

/// What is to be done with a message of the reliable multicast.
#[derive(Debug, PartialEq, Eq)]
pub enum RmcResponse {
    /// The message goes on to the reliable multicast.
    RmcMessage(RmcMessage),
    /// The alert with the given hash is to be asked for.
    AlertRequest(Hash64, Recipient),
    /// The message is stale and dropped.
    Noop,
}

/// What an [`RmcResponse`] holds, as a mathematical value.
pub enum RmcResponseView {
    RmcMessage(RmcMessageView),
    AlertRequest(Hash64, Recipient),
    Noop,
}

impl DeepView for RmcResponse {
    type V = RmcResponseView;

    open spec fn deep_view(&self) -> RmcResponseView {
        match self {
            RmcResponse::RmcMessage(message) => RmcResponseView::RmcMessage(message.deep_view()),
            RmcResponse::AlertRequest(hash, recipient) => RmcResponseView::AlertRequest(
                *hash,
                *recipient,
            ),
            RmcResponse::Noop => RmcResponseView::Noop,
        }
    }
}

/// What the handler answers a message with: it is the caller's part to carry the answer out.
#[derive(Debug, PartialEq, Eq)]
pub enum AlerterResponse {
    /// The alert is to be sent to the recipient.
    ForkAlert(UncheckedSignedAlert, Recipient),
    /// An alert was accepted: consensus is to be told of the forker, if it is new, and the hash
    /// is to be multicast.
    ForkResponse(Option<ForkingNotification>, Hash64),
    /// The alert with the given hash is to be asked for.
    AlertRequest(Hash64, Recipient),
    /// The message goes on to the reliable multicast.
    RmcMessage(RmcMessage),
}

/// What an [`AlerterResponse`] holds, as a mathematical value.
pub enum AlerterResponseView {
    ForkAlert(SignedAlertView, Recipient),
    ForkResponse(Option<ForkingNotificationView>, Hash64),
    AlertRequest(Hash64, Recipient),
    RmcMessage(RmcMessageView),
}

impl DeepView for AlerterResponse {
    type V = AlerterResponseView;

    open spec fn deep_view(&self) -> AlerterResponseView {
        match self {
            AlerterResponse::ForkAlert(alert, recipient) => AlerterResponseView::ForkAlert(
                alert.deep_view(),
                *recipient,
            ),
            AlerterResponse::ForkResponse(notification, hash) => AlerterResponseView::ForkResponse(
                notification.deep_view(),
                *hash,
            ),
            AlerterResponse::AlertRequest(hash, recipient) => AlerterResponseView::AlertRequest(
                *hash,
                *recipient,
            ),
            AlerterResponse::RmcMessage(message) => AlerterResponseView::RmcMessage(
                message.deep_view(),
            ),
        }
    }
}

/// The broadcast of an own alert: the message, to whom it goes, and the hash to multicast.
pub type OnOwnAlertResponse = (AlertMessage, Recipient, Hash64);

/// The acceptance of another's alert: what consensus is to be told, if anything, and the hash
/// to multicast.
pub type OnNetworkAlertResponse = (Option<ForkingNotification>, Hash64);

/// What a handler knows, as a mathematical value.
pub struct HandlerView {
    pub session_id: SessionId,
    /// The participants known to fork, each with the proof.
    pub forkers: Map<NodeIndex, ForkProofView>,
    /// The alerts that can be handed out, by their hash.
    pub alerts: Map<Hash64, SignedAlertView>,
    /// For a sender and a forker, the hash of the alert that is multicast for the two.
    pub rmcs: Map<(NodeIndex, NodeIndex), Hash64>,
}

/// The forker that the proof proves, if it proves one: both units are signed by their creator,
/// belong to the session, differ, and have one creator and one round.
pub open spec fn who_is_forking_spec<H: Hasher, K: KeyBox>(
    keychain: &K,
    session_id: SessionId,
    proof: ForkProofView,
) -> Option<NodeIndex> {
    let (u1, u2) = proof;
    if unit_correctly_signed::<H, K>(keychain, u1) && unit_correctly_signed::<H, K>(keychain, u2)
        && u1.signable.session_id == session_id && u2.signable.session_id == session_id
        && u1.signable != u2.signable && u1.signable.creator == u2.signable.creator
        && u1.signable.round == u2.signable.round {
        Some(u1.signable.creator)
    } else {
        None
    }
}

/// The unit is signed by the forker and belongs to the session.
pub open spec fn unit_commits<H: Hasher, K: KeyBox>(
    keychain: &K,
    session_id: SessionId,
    forker: NodeIndex,
    unit: SignedUnitView,
) -> bool {
    &&& unit_correctly_signed::<H, K>(keychain, unit)
    &&& unit.signable.creator == forker
    &&& unit.signable.session_id == session_id
}

/// No two of the units are of the same round.
pub open spec fn distinct_rounds(units: Seq<SignedUnitView>) -> bool {
    forall|i: int, j: int|
        0 <= i < j < units.len() ==> (#[trigger] units[i]).signable.round != (
        #[trigger] units[j]).signable.round
}

/// The units are a valid commitment to units of the forker: each is signed by the forker and
/// belongs to the session, and no two are of the same round.
pub open spec fn correct_commitment_spec<H: Hasher, K: KeyBox>(
    keychain: &K,
    session_id: SessionId,
    forker: NodeIndex,
    units: Seq<SignedUnitView>,
) -> bool {
    &&& forall|i: int|
        0 <= i < units.len() ==> unit_commits::<H, K>(keychain, session_id, forker, #[trigger] units[i])
    &&& distinct_rounds(units)
}

/// The message carries a hash with a multisignature on it.
pub open spec fn carries_multisignature<K: KeyBox>(keychain: &K, message: RmcMessageView) -> bool {
    message matches RmcMessageView::MultisignedHash(multisigned) && is_multisignature(
        keychain,
        multisigned.signable,
        multisigned.signature,
    )
}

impl HandlerView {
    /// Every alert is kept under its own hash, and for the sender and the forker of every alert
    /// that is kept an alert is multicast.
    pub open spec fn wf<H: Hasher>(self) -> bool {
        forall|h: Hash64| #[trigger]
            self.alerts.contains_key(h) ==> {
                &&& h == alert_hash::<H>(self.alerts[h].signable)
                &&& self.rmcs.contains_key(
                    (self.alerts[h].signable.sender, alert_forker(self.alerts[h].signable)),
                )
            }
    }

    /// The alert is multicast for its sender and the forker, and kept for handing out.
    pub open spec fn rmc_alert<H: Hasher>(self, forker: NodeIndex, alert: SignedAlertView) -> Self {
        let hash = alert_hash::<H>(alert.signable);
        HandlerView {
            rmcs: self.rmcs.insert((alert.signable.sender, forker), hash),
            alerts: self.alerts.insert(hash, alert),
            ..self
        }
    }

    /// What is known after an own alert was raised.
    pub open spec fn with_own_alert<H: Hasher>(self, alert: SignedAlertView) -> Self {
        let forker = alert_forker(alert.signable);
        (HandlerView {
            forkers: self.forkers.insert(forker, alert.signable.proof),
            ..self
        }).rmc_alert::<H>(forker, alert)
    }

    /// What an alert from the network is answered with.
    pub open spec fn network_alert_result<H: Hasher, K: KeyBox>(
        self,
        keychain: &K,
        alert: SignedAlertView,
    ) -> Result<(Option<ForkingNotificationView>, Hash64), Error> {
        let sender = alert.signable.sender;
        if !alert_correctly_signed::<H, K>(keychain, alert) {
            Err(Error::IncorrectlySignedAlert)
        } else {
            match who_is_forking_spec::<H, K>(keychain, self.session_id, alert.signable.proof) {
                None => Err(Error::IncorrectProof(sender)),
                Some(forker) => {
                    if self.rmcs.contains_key((sender, forker)) {
                        Err(Error::RepeatedAlert(sender, forker))
                    } else if self.forkers.contains_key(forker) {
                        Ok((None, alert_hash::<H>(alert.signable)))
                    } else {
                        Ok(
                            (
                                Some(ForkingNotificationView::Forker(alert.signable.proof)),
                                alert_hash::<H>(alert.signable),
                            ),
                        )
                    }
                },
            }
        }
    }

    /// What is known after an alert came from the network.
    pub open spec fn after_network_alert<H: Hasher, K: KeyBox>(
        self,
        keychain: &K,
        alert: SignedAlertView,
    ) -> Self {
        let sender = alert.signable.sender;
        if !alert_correctly_signed::<H, K>(keychain, alert) {
            self
        } else {
            match who_is_forking_spec::<H, K>(keychain, self.session_id, alert.signable.proof) {
                None => self,
                Some(forker) => {
                    if self.rmcs.contains_key((sender, forker)) {
                        HandlerView {
                            alerts: self.alerts.insert(alert_hash::<H>(alert.signable), alert),
                            ..self
                        }
                    } else if self.forkers.contains_key(forker) {
                        self.rmc_alert::<H>(forker, alert)
                    } else {
                        (HandlerView {
                            forkers: self.forkers.insert(forker, alert.signable.proof),
                            ..self
                        }).rmc_alert::<H>(forker, alert)
                    }
                },
            }
        }
    }

    /// What is to be done with a message of the reliable multicast that the participant
    /// `sender` sent: where the alert with its hash is not known, the alert is asked for from
    /// the sender; where it is known, the message goes on if that alert is the one that is
    /// multicast for its sender and forker, or if the message carries a multisignature; else it
    /// is stale.
    pub open spec fn rmc_message_response<K: KeyBox>(
        self,
        keychain: &K,
        sender: NodeIndex,
        message: RmcMessageView,
    ) -> RmcResponseView {
        let hash = message_hash(message);
        if !self.alerts.contains_key(hash) {
            RmcResponseView::AlertRequest(hash, Recipient::Node(sender))
        } else {
            let alert = self.alerts[hash].signable;
            let id = (alert.sender, alert_forker(alert));
            if (self.rmcs.contains_key(id) && self.rmcs[id] == hash) || carries_multisignature(
                keychain,
                message,
            ) {
                RmcResponseView::RmcMessage(message)
            } else {
                RmcResponseView::Noop
            }
        }
    }

    /// What a request for the alert with the given hash is answered with.
    pub open spec fn alert_request_result(self, node: NodeIndex, hash: Hash64) -> Result<
        (SignedAlertView, Recipient),
        Error,
    > {
        if self.alerts.contains_key(hash) {
            Ok((self.alerts[hash], Recipient::Node(node)))
        } else {
            Err(Error::UnknownAlertRequest)
        }
    }

    /// What a message from the network is answered with, if with anything.
    pub open spec fn message_response<H: Hasher, K: KeyBox>(
        self,
        keychain: &K,
        message: AlertMessageView,
    ) -> Option<AlerterResponseView> {
        match message {
            AlertMessageView::ForkAlert(alert) => match self.network_alert_result::<H, K>(
                keychain,
                alert,
            ) {
                Ok((notification, hash)) => Some(
                    AlerterResponseView::ForkResponse(notification, hash),
                ),
                Err(_) => None,
            },
            AlertMessageView::RmcHash(sender, message) => match self.rmc_message_response(
                keychain,
                sender,
                message,
            ) {
                RmcResponseView::RmcMessage(message) => Some(
                    AlerterResponseView::RmcMessage(message),
                ),
                RmcResponseView::AlertRequest(hash, recipient) => Some(
                    AlerterResponseView::AlertRequest(hash, recipient),
                ),
                RmcResponseView::Noop => None,
            },
            AlertMessageView::AlertRequest(node, hash) => match self.alert_request_result(
                node,
                hash,
            ) {
                Ok((alert, recipient)) => Some(AlerterResponseView::ForkAlert(alert, recipient)),
                Err(_) => None,
            },
        }
    }

    /// What is known after a message came from the network.
    pub open spec fn after_message<H: Hasher, K: KeyBox>(
        self,
        keychain: &K,
        message: AlertMessageView,
    ) -> Self {
        match message {
            AlertMessageView::ForkAlert(alert) => self.after_network_alert::<H, K>(
                keychain,
                alert,
            ),
            _ => self,
        }
    }

    /// What is known after a record of the backup was taken up again: an own alert is raised
    /// again, with the given signature; an alert of another participant is multicast for its
    /// sender and forker again, unless an alert already is, and its forker is known again; a
    /// completed multicast makes its alert the one that counts, if the alert is known.
    pub open spec fn after_record<H: Hasher, K: KeyBox>(
        self,
        keychain: &K,
        record: AlertDataView,
        signature: SignatureView,
    ) -> Self {
        match record {
            AlertDataView::OwnAlert(alert) => self.with_own_alert::<H>(
                UncheckedSignedView { signable: alert, signature },
            ),
            AlertDataView::NetworkAlert(alert) => {
                match who_is_forking_spec::<H, K>(keychain, self.session_id, alert.proof) {
                    Some(forker) => {
                        if self.rmcs.contains_key((alert.sender, forker)) {
                            self
                        } else {
                            HandlerView {
                                forkers: if self.forkers.contains_key(forker) {
                                    self.forkers
                                } else {
                                    self.forkers.insert(forker, alert.proof)
                                },
                                rmcs: self.rmcs.insert(
                                    (alert.sender, forker),
                                    alert_hash::<H>(alert),
                                ),
                                ..self
                            }
                        }
                    },
                    None => self,
                }
            },
            AlertDataView::MultisignedHash(multisigned) => self.after_confirmed::<H>(
                multisigned.signable,
            ),
        }
    }

    /// What is known after the records of the backup were taken up again, one after the other,
    /// each own alert with its signature.
    pub open spec fn after_records<H: Hasher, K: KeyBox>(
        self,
        keychain: &K,
        records: Seq<AlertDataView>,
        signatures: Seq<SignatureView>,
    ) -> Self
        decreases records.len(),
    {
        if records.len() == 0 {
            self
        } else {
            self.after_records::<H, K>(
                keychain,
                records.drop_last(),
                signatures.drop_last(),
            ).after_record::<H, K>(keychain, records.last(), signatures.last())
        }
    }

    /// Taking the record up again with the given signature leads to `after`; the signature is
    /// this participant's where the record is an own alert.
    pub open spec fn record_with<H: Hasher, K: KeyBox>(
        self,
        keychain: &K,
        record: AlertDataView,
        signature: SignatureView,
        after: Self,
    ) -> bool {
        &&& record matches AlertDataView::OwnAlert(alert) ==> signs_hash(
            keychain,
            alert_hash::<H>(alert),
            signature,
            keychain.spec_index(),
        )
        &&& after == self.after_record::<H, K>(keychain, record, signature)
    }

    /// What consensus is told when the multicast of `hash` has completed.
    pub open spec fn confirmed_result<H: Hasher, K: KeyBox>(
        self,
        keychain: &K,
        hash: Hash64,
    ) -> Result<ForkingNotificationView, Error> {
        if !self.alerts.contains_key(hash) {
            Err(Error::UnknownAlertRmc)
        } else {
            let alert = self.alerts[hash].signable;
            if correct_commitment_spec::<H, K>(
                keychain,
                self.session_id,
                alert_forker(alert),
                alert.legit_units,
            ) {
                Ok(ForkingNotificationView::Units(alert.legit_units))
            } else {
                Err(Error::IncorrectCommitment(alert.sender))
            }
        }
    }

    /// What is known after the multicast of `hash` has completed: the alert with that hash is
    /// the one that counts for its sender and forker.
    pub open spec fn after_confirmed<H: Hasher>(self, hash: Hash64) -> Self {
        if !self.alerts.contains_key(hash) {
            self
        } else {
            let alert = self.alerts[hash].signable;
            HandlerView {
                rmcs: self.rmcs.insert(
                    (alert.sender, alert_forker(alert)),
                    alert_hash::<H>(alert),
                ),
                ..self
            }
        }
    }
}

/// The one number that stands for a sender and a forker in the table of multicasts.
pub open spec fn spec_pair_key(sender: NodeIndex, forker: NodeIndex) -> u128 {
    (sender.0 * 0x1_0000_0000_0000_0000 + forker.0) as u128
}

fn pair_key(sender: NodeIndex, forker: NodeIndex) -> (key: u128)
    ensures
        key == spec_pair_key(sender, forker),
{
    let high: u128 = sender.0 as u128;
    let low: u128 = forker.0 as u128;
    high * 0x1_0000_0000_0000_0000u128 + low
}

proof fn lemma_pair_key_injective(a: (NodeIndex, NodeIndex), b: (NodeIndex, NodeIndex))
    requires
        spec_pair_key(a.0, a.1) == spec_pair_key(b.0, b.1),
    ensures
        a == b,
{
}

/// The component that decides about fork alerts.
pub struct Handler<H: Hasher, K: KeyBox> {
    session_id: SessionId,
    keychain: K,
    known_forkers: HashMap<usize, ForkProof>,
    known_alerts: HashMap<Hash64, UncheckedSignedAlert>,
    known_rmcs: HashMap<u128, Hash64>,
    hasher: PhantomData<H>,
}

impl<H: Hasher, K: KeyBox> View for Handler<H, K> {
    type V = HandlerView;

    closed spec fn view(&self) -> HandlerView {
        HandlerView {
            session_id: self.session_id,
            forkers: Map::new(
                |n: NodeIndex| self.known_forkers@.contains_key(n.0),
                |n: NodeIndex| self.known_forkers@[n.0].deep_view(),
            ),
            alerts: Map::new(
                |h: Hash64| self.known_alerts@.contains_key(h),
                |h: Hash64| self.known_alerts@[h].deep_view(),
            ),
            rmcs: Map::new(
                |p: (NodeIndex, NodeIndex)| self.known_rmcs@.contains_key(spec_pair_key(p.0, p.1)),
                |p: (NodeIndex, NodeIndex)| self.known_rmcs@[spec_pair_key(p.0, p.1)],
            ),
        }
    }
}

impl<H: Hasher, K: KeyBox> Handler<H, K> {
    /// The key box that the handler signs and checks with.
    pub closed spec fn keychain(&self) -> &K {
        &self.keychain
    }

    /// The handler's tables are in order.
    pub open spec fn wf(&self) -> bool {
        self@.wf::<H>()
    }

    /// A handler that knows of no forker and no alert.
    pub fn new(keychain: K, session_id: SessionId) -> (handler: Self)
        ensures
            handler.wf(),
            *handler.keychain() == keychain,
            handler@ == (HandlerView {
                session_id,
                forkers: Map::empty(),
                alerts: Map::empty(),
                rmcs: Map::empty(),
            }),
    {
        let handler = Handler {
            session_id,
            keychain,
            known_forkers: HashMap::new(),
            known_alerts: HashMap::new(),
            known_rmcs: HashMap::new(),
            hasher: PhantomData,
        };
        proof {
            assert(handler@.forkers =~= Map::empty());
            assert(handler@.alerts =~= Map::empty());
            assert(handler@.rmcs =~= Map::empty());
        }
        handler
    }

    /// A handler for the session that the configuration names.
    pub fn with_config(keychain: K, config: AlertConfig) -> (handler: Self)
        ensures
            handler.wf(),
            *handler.keychain() == keychain,
            handler@ == (HandlerView {
                session_id: config.session_id,
                forkers: Map::empty(),
                alerts: Map::empty(),
                rmcs: Map::empty(),
            }),
    {
        Self::new(keychain, config.session_id)
    }

    /// The key box that the handler signs and checks with.
    pub fn key_box(&self) -> (keychain: &K)
        ensures
            keychain == self.keychain(),
    {
        &self.keychain
    }

    pub fn session_id(&self) -> (session_id: SessionId)
        ensures
            session_id == self@.session_id,
    {
        self.session_id
    }

    /// Whether the participant is known to fork.
    pub fn is_forker(&self, forker: NodeIndex) -> (known: bool)
        ensures
            known == self@.forkers.contains_key(forker),
    {
        self.known_forkers.contains_key(&forker.0)
    }

    /// Records that the participant forks, with the proof.
    pub fn on_new_forker_detected(&mut self, forker: NodeIndex, proof: ForkProof)
        ensures
            final(self)@ == (HandlerView {
                forkers: old(self)@.forkers.insert(forker, proof.deep_view()),
                ..old(self)@
            }),
            final(self).keychain() == old(self).keychain(),
    {
        self.known_forkers.insert(forker.0, proof);
        proof {
            assert(self@.forkers =~= old(self)@.forkers.insert(forker, proof.deep_view()));
        }
    }

    /// Whether the units are a valid commitment to units of the forker.
    pub fn correct_commitment(&self, forker: NodeIndex, units: &Vec<UncheckedSignedUnit>) -> (ok:
        bool)
        ensures
            ok == correct_commitment_spec::<H, K>(
                self.keychain(),
                self@.session_id,
                forker,
                units.deep_view(),
            ),
    {
        let mut rounds: HashSet<Round> = HashSet::new();
        let mut i: usize = 0;
        while i < units.len()
            invariant
                i <= units.len(),
                forall|j: int|
                    0 <= j < i ==> unit_commits::<H, K>(
                        self.keychain(),
                        self@.session_id,
                        forker,
                        #[trigger] units.deep_view()[j],
                    ),
                forall|j: int|
                    0 <= j < i ==> rounds@.contains((#[trigger] units.deep_view()[j]).signable.round),
                forall|r: Round|
                    rounds@.contains(r) ==> exists|j: int|
                        0 <= j < i && (#[trigger] units.deep_view()[j]).signable.round == r,
                distinct_rounds(units.deep_view().take(i as int)),
            decreases units.len() - i,
        {
            let unit = &units[i];
            proof {
                assert(unit.deep_view() == units.deep_view()[i as int]);
            }
            if !check_unit::<H, K>(&self.keychain, unit) {
                return false;
            }
            if unit.signable.creator.0 != forker.0 {
                return false;
            }
            if unit.signable.session_id != self.session_id {
                return false;
            }
            if rounds.contains(&unit.signable.round) {
                proof {
                    let j = choose|j: int|
                        0 <= j < i && (#[trigger] units.deep_view()[j]).signable.round
                            == unit.signable.round;
                    assert(units.deep_view()[j].signable.round == units.deep_view()[i as int].signable.round);
                }
                return false;
            }
            rounds.insert(unit.signable.round);
            proof {
                let all = units.deep_view();
                assert forall|a: int, b: int| 0 <= a < b < all.take(i + 1).len() implies (
                #[trigger] all.take(i + 1)[a]).signable.round != (
                #[trigger] all.take(i + 1)[b]).signable.round by {
                    if b < i {
                        assert(all.take(i as int)[a] == all[a]);
                        assert(all.take(i as int)[b] == all[b]);
                    } else {
                        assert(all[a].signable.round != all[i as int].signable.round);
                    }
                }
            }
            i += 1;
        }
        proof {
            assert(units.deep_view().take(units.len() as int) =~= units.deep_view());
        }
        true
    }

    /// The forker that the proof proves, if it proves one.
    pub fn who_is_forking(&self, proof: &ForkProof) -> (forker: Option<NodeIndex>)
        ensures
            forker == who_is_forking_spec::<H, K>(
                self.keychain(),
                self@.session_id,
                proof.deep_view(),
            ),
    {
        let u1 = &proof.0;
        let u2 = &proof.1;
        if !check_unit::<H, K>(&self.keychain, u1) || !check_unit::<H, K>(&self.keychain, u2) {
            return None;
        }
        if u1.signable.session_id != self.session_id || u2.signable.session_id
            != self.session_id {
            return None;
        }
        if u1.signable.same(&u2.signable) {
            return None;
        }
        if u1.signable.creator.0 != u2.signable.creator.0 {
            return None;
        }
        if u1.signable.round != u2.signable.round {
            return None;
        }
        Some(u1.signable.creator)
    }

    /// Registers the alert for multicast under its sender and the forker, and keeps it for
    /// handing out; gives the hash to multicast.
    fn rmc_alert(&mut self, forker: NodeIndex, alert: UncheckedSignedAlert) -> (hash: Hash64)
        requires
            old(self).wf(),
            forker == alert_forker(alert.deep_view().signable),
        ensures
            final(self).wf(),
            hash == alert_hash::<H>(alert.deep_view().signable),
            final(self)@ == old(self)@.rmc_alert::<H>(forker, alert.deep_view()),
            final(self).keychain() == old(self).keychain(),
    {
        let hash = alert.signable.hash::<H>();
        let sender = alert.signable.sender;
        self.known_rmcs.insert(pair_key(sender, forker), hash);
        self.known_alerts.insert(hash, alert);
        proof {
            let expected = old(self)@.rmc_alert::<H>(forker, alert.deep_view());
            assert forall|p: (NodeIndex, NodeIndex)| #[trigger]
                self@.rmcs.contains_key(p) <==> expected.rmcs.contains_key(p) by {
                if spec_pair_key(p.0, p.1) == spec_pair_key(sender, forker) {
                    lemma_pair_key_injective(p, (sender, forker));
                }
            }
            assert forall|p: (NodeIndex, NodeIndex)| #[trigger]
                self@.rmcs.contains_key(p) implies self@.rmcs[p] == expected.rmcs[p] by {
                if spec_pair_key(p.0, p.1) == spec_pair_key(sender, forker) {
                    lemma_pair_key_injective(p, (sender, forker));
                }
            }
            assert(self@.rmcs =~= expected.rmcs);
            assert(self@.alerts =~= expected.alerts);
            assert(self@.forkers =~= expected.forkers);
        }
        hash
    }

    /// Raises an alert of this participant's own: records the forker, signs the alert, and
    /// registers it for multicast. Gives the message to broadcast and the hash to multicast.
    pub fn on_own_alert(&mut self, alert: Alert) -> (response: OnOwnAlertResponse)
        requires
            old(self).wf(),
        ensures
            final(self).wf(),
            final(self).keychain() == old(self).keychain(),
            response.1 == Recipient::Everyone,
            response.2 == alert_hash::<H>(alert.deep_view()),
            response.0.deep_view() matches AlertMessageView::ForkAlert(signed) && {
                &&& signed.signable == alert.deep_view()
                &&& signs_hash(
                    old(self).keychain(),
                    alert_hash::<H>(alert.deep_view()),
                    signed.signature,
                    old(self).keychain().spec_index(),
                )
                &&& final(self)@ == old(self)@.with_own_alert::<H>(signed)
            },
    {
        let forker = alert.forker();
        let proof = alert.proof.duplicate();
        self.on_new_forker_detected(forker, proof);
        let signed = sign_alert::<H, K>(&self.keychain, alert);
        let copy = signed.duplicate();
        let hash = self.rmc_alert(forker, copy);
        (AlertMessage::ForkAlert(signed), Recipient::Everyone, hash)
    }

    /// Takes an alert that came from the network: checks it, and registers it for multicast
    /// unless one by the same sender about the same forker already is.
    pub fn on_network_alert(&mut self, alert: UncheckedSignedAlert) -> (result: Result<
        OnNetworkAlertResponse,
        Error,
    >)
        requires
            old(self).wf(),
        ensures
            final(self).wf(),
            final(self).keychain() == old(self).keychain(),
            final(self)@ == old(self)@.after_network_alert::<H, K>(
                old(self).keychain(),
                alert.deep_view(),
            ),
            match (result, old(self)@.network_alert_result::<H, K>(
                old(self).keychain(),
                alert.deep_view(),
            )) {
                (Ok(response), Ok(expected)) => response.deep_view() == expected,
                (Err(e), Err(expected)) => e == expected,
                _ => false,
            },
    {
        if !check_alert::<H, K>(&self.keychain, &alert) {
            return Err(Error::IncorrectlySignedAlert);
        }
        let sender = alert.signable.sender;
        match self.who_is_forking(&alert.signable.proof) {
            None => Err(Error::IncorrectProof(sender)),
            Some(forker) => {
                if self.known_rmcs.contains_key(&pair_key(sender, forker)) {
                    let hash = alert.signable.hash::<H>();
                    let ghost kept = alert.deep_view();
                    self.known_alerts.insert(hash, alert);
                    proof {
                        assert(self@.alerts =~= old(self)@.alerts.insert(hash, kept));
                        assert(self@.rmcs =~= old(self)@.rmcs);
                        assert(self@.forkers =~= old(self)@.forkers);
                    }
                    return Err(Error::RepeatedAlert(sender, forker));
                }
                let propagate_alert = if self.is_forker(forker) {
                    None
                } else {
                    self.on_new_forker_detected(forker, alert.signable.proof.duplicate());
                    Some(ForkingNotification::Forker(alert.signable.proof.duplicate()))
                };
                let hash_for_rmc = self.rmc_alert(forker, alert);
                Ok((propagate_alert, hash_for_rmc))
            },
        }
    }

    /// Decides what is to be done with a message of the reliable multicast that the participant
    /// `sender` sent.
    pub fn on_rmc_message(&self, sender: NodeIndex, message: RmcMessage) -> (response: RmcResponse)
        ensures
            response.deep_view() == self@.rmc_message_response(
                self.keychain(),
                sender,
                message.deep_view(),
            ),
    {
        let hash = message.hash();
        match self.known_alerts.get(&hash) {
            Some(alert) => {
                let alert_id = pair_key(alert.signable.sender, alert.signable.forker());
                let current = match self.known_rmcs.get(&alert_id) {
                    Some(known) => *known == hash,
                    None => false,
                };
                let complete = match &message {
                    RmcMessage::SignedHash(_) => false,
                    RmcMessage::MultisignedHash(multisigned) => multisigned.signature.is_complete(
                        &self.keychain,
                        multisigned.signable,
                    ),
                };
                if current || complete {
                    RmcResponse::RmcMessage(message)
                } else {
                    RmcResponse::Noop
                }
            },
            None => RmcResponse::AlertRequest(hash, Recipient::Node(sender)),
        }
    }

    /// Answers the participant `node`'s request for the alert with the given hash.
    pub fn on_alert_request(&self, node: NodeIndex, hash: Hash64) -> (result: Result<
        (UncheckedSignedAlert, Recipient),
        Error,
    >)
        ensures
            match (result, self@.alert_request_result(node, hash)) {
                (Ok(response), Ok(expected)) => response.deep_view() == expected,
                (Err(e), Err(expected)) => e == expected,
                _ => false,
            },
    {
        match self.known_alerts.get(&hash) {
            Some(alert) => Ok((alert.duplicate(), Recipient::Node(node))),
            None => Err(Error::UnknownAlertRequest),
        }
    }

    /// Takes up again what the backup holds of an earlier run of the session: after it, alerts
    /// from the network are accepted and turned down as they were before.
    pub fn replay_record(&mut self, record: &AlertData)
        requires
            old(self).wf(),
        ensures
            final(self).wf(),
            final(self).keychain() == old(self).keychain(),
            exists|signature: SignatureView|
                old(self)@.record_with::<H, K>(
                    old(self).keychain(),
                    record.deep_view(),
                    signature,
                    final(self)@,
                ),
    {
        let ghost unused = SignatureView { bytes: Seq::empty() };
        match record {
            AlertData::OwnAlert(alert) => {
                let response = self.on_own_alert(alert.duplicate());
                proof {
                    let signed = response.0.deep_view()->ForkAlert_0;
                    assert(old(self)@.record_with::<H, K>(
                        old(self).keychain(),
                        record.deep_view(),
                        signed.signature,
                        self@,
                    ));
                }
            },
            AlertData::NetworkAlert(alert) => {
                match self.who_is_forking(&alert.proof) {
                    Some(forker) => {
                        let key = pair_key(alert.sender, forker);
                        if !self.known_rmcs.contains_key(&key) {
                            if !self.is_forker(forker) {
                                self.on_new_forker_detected(forker, alert.proof.duplicate());
                            }
                            let hash = alert.hash::<H>();
                            let ghost before = self@;
                            self.known_rmcs.insert(key, hash);
                            proof {
                                let pair = (alert.sender, forker);
                                let expected = before.rmcs.insert(pair, hash);
                                assert forall|p: (NodeIndex, NodeIndex)| #[trigger]
                                    self@.rmcs.contains_key(p) <==> expected.contains_key(p) by {
                                    if spec_pair_key(p.0, p.1) == spec_pair_key(pair.0, pair.1) {
                                        lemma_pair_key_injective(p, pair);
                                    }
                                }
                                assert forall|p: (NodeIndex, NodeIndex)| #[trigger]
                                    self@.rmcs.contains_key(p) implies self@.rmcs[p]
                                    == expected[p] by {
                                    if spec_pair_key(p.0, p.1) == spec_pair_key(pair.0, pair.1) {
                                        lemma_pair_key_injective(p, pair);
                                    }
                                }
                                assert(self@.rmcs =~= expected);
                                assert(self@.alerts =~= before.alerts);
                                assert(self@.forkers =~= before.forkers);
                            }
                        }
                    },
                    None => {},
                }
                proof {
                    assert(old(self)@.record_with::<H, K>(
                        old(self).keychain(),
                        record.deep_view(),
                        unused,
                        self@,
                    ));
                }
            },
            AlertData::MultisignedHash(multisigned) => {
                let _ = self.alert_confirmed(multisigned);
                proof {
                    assert(old(self)@.record_with::<H, K>(
                        old(self).keychain(),
                        record.deep_view(),
                        unused,
                        self@,
                    ));
                }
            },
        }
    }

    /// Takes up again the records that the backup holds of an earlier run of the session, in
    /// their order.
    pub fn replay(&mut self, records: &Vec<AlertData>)
        requires
            old(self).wf(),
        ensures
            final(self).wf(),
            final(self).keychain() == old(self).keychain(),
            exists|signatures: Seq<SignatureView>|
                signatures.len() == records.deep_view().len() && final(self)@ == old(
                    self,
                )@.after_records::<H, K>(old(self).keychain(), records.deep_view(), signatures),
    {
        let ghost mut signatures: Seq<SignatureView> = Seq::empty();
        let ghost all = records.deep_view();
        let mut i: usize = 0;
        proof {
            assert(all.take(0) =~= Seq::empty());
        }
        while i < records.len()
            invariant
                i <= records.len(),
                all == records.deep_view(),
                self.wf(),
                self.keychain() == old(self).keychain(),
                signatures.len() == i,
                self@ == old(self)@.after_records::<H, K>(
                    old(self).keychain(),
                    all.take(i as int),
                    signatures,
                ),
            decreases records.len() - i,
        {
            let ghost before = self@;
            self.replay_record(&records[i]);
            proof {
                let signature = choose|signature: SignatureView|
                    before.record_with::<H, K>(
                        old(self).keychain(),
                        all[i as int],
                        signature,
                        self@,
                    );
                assert(all.take(i + 1).drop_last() =~= all.take(i as int));
                assert(all.take(i + 1).last() == all[i as int]);
                assert(signatures.push(signature).drop_last() =~= signatures);
                signatures = signatures.push(signature);
            }
            i += 1;
        }
        proof {
            assert(all.take(all.len() as int) =~= all);
        }
    }

    /// Takes a message that came from the network and gives the answer to carry out, if there
    /// is one.
    pub fn on_message(&mut self, message: AlertMessage) -> (response: Option<AlerterResponse>)
        requires
            old(self).wf(),
        ensures
            final(self).wf(),
            final(self).keychain() == old(self).keychain(),
            final(self)@ == old(self)@.after_message::<H, K>(
                old(self).keychain(),
                message.deep_view(),
            ),
            response.deep_view() == old(self)@.message_response::<H, K>(
                old(self).keychain(),
                message.deep_view(),
            ),
    {
        match message {
            AlertMessage::ForkAlert(alert) => match self.on_network_alert(alert) {
                Ok((notification, hash)) => Some(AlerterResponse::ForkResponse(notification, hash)),
                Err(_) => None,
            },
            AlertMessage::RmcHash(sender, message) => match self.on_rmc_message(sender, message) {
                RmcResponse::RmcMessage(message) => Some(AlerterResponse::RmcMessage(message)),
                RmcResponse::AlertRequest(hash, recipient) => Some(
                    AlerterResponse::AlertRequest(hash, recipient),
                ),
                RmcResponse::Noop => None,
            },
            AlertMessage::AlertRequest(node, hash) => match self.on_alert_request(node, hash) {
                Ok((alert, recipient)) => Some(AlerterResponse::ForkAlert(alert, recipient)),
                Err(_) => None,
            },
        }
    }

    /// Takes note that the multicast of an alert's hash has completed: that alert now is the one
    /// that counts for its sender and forker. Gives the units to release, if its commitment is
    /// valid.
    pub fn alert_confirmed(&mut self, multisigned: &Multisigned) -> (result: Result<
        ForkingNotification,
        Error,
    >)
        requires
            old(self).wf(),
        ensures
            final(self).wf(),
            final(self).keychain() == old(self).keychain(),
            final(self)@ == old(self)@.after_confirmed::<H>(multisigned.signable),
            match (result, old(self)@.confirmed_result::<H, K>(
                old(self).keychain(),
                multisigned.signable,
            )) {
                (Ok(notification), Ok(expected)) => notification.deep_view() == expected,
                (Err(e), Err(expected)) => e == expected,
                _ => false,
            },
    {
        let hash = multisigned.signable;
        let (sender, forker, alert_hash, units) = match self.known_alerts.get(&hash) {
            Some(alert) => (
                alert.signable.sender,
                alert.signable.forker(),
                alert.signable.hash::<H>(),
                alert.signable.legit_units.duplicate(),
            ),
            None => {
                return Err(Error::UnknownAlertRmc);
            },
        };
        self.known_rmcs.insert(pair_key(sender, forker), alert_hash);
        proof {
            let expected = old(self)@.after_confirmed::<H>(hash);
            assert forall|p: (NodeIndex, NodeIndex)| #[trigger]
                self@.rmcs.contains_key(p) <==> expected.rmcs.contains_key(p) by {
                if spec_pair_key(p.0, p.1) == spec_pair_key(sender, forker) {
                    lemma_pair_key_injective(p, (sender, forker));
                }
            }
            assert forall|p: (NodeIndex, NodeIndex)| #[trigger]
                self@.rmcs.contains_key(p) implies self@.rmcs[p] == expected.rmcs[p] by {
                if spec_pair_key(p.0, p.1) == spec_pair_key(sender, forker) {
                    lemma_pair_key_injective(p, (sender, forker));
                }
            }
            assert(self@.rmcs =~= expected.rmcs);
            assert(self@.alerts =~= expected.alerts);
            assert(self@.forkers =~= expected.forkers);
        }
        if !self.correct_commitment(forker, &units) {
            return Err(Error::IncorrectCommitment(sender));
        }
        Ok(ForkingNotification::Units(units))
    }
}

impl<H: Hasher, K: KeyBox> Index for Handler<H, K> {
    open spec fn spec_index(&self) -> NodeIndex {
        self.keychain().spec_index()
    }

    fn index(&self) -> (i: NodeIndex) {
        self.keychain.index()
    }
}

} // verus!

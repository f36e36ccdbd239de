//! What holds of the alerts whatever arrives: laws of the handler and of the service.

use crate::alerts::handler::{who_is_forking_spec, Error, HandlerView};
use crate::alerts::service::{own_signed_hash, ServiceActionView, ServiceEventView, ServiceView};
use crate::alerts::{
    alert_forker, alert_hash, AlertDataView, AlertMessage, AlertMessageView, AlertView,
    ForkingNotificationView, SignedAlertView,
};
use crate::codec::{lemma_encode_then_parse, Wire};
use crate::crypto::{KeyBox, MultisignedView};
use crate::nodes::{Hash64, Hasher, NodeIndex, Recipient};
use crate::rmc::handler::{after_signed_hash, newly_completed};
use crate::rmc::scheduler::without_hash;
use crate::rmc::RmcMessageView;
use crate::units::{unit_correctly_signed, SignatureView, SignedUnitView, UncheckedSignedView};
use vstd::prelude::*;

verus! {

/// An alert that is accepted from the network carries a proof that proves the creator of its
/// units to fork.
pub proof fn lemma_accepted_alert_proves_fork<H: Hasher, K: KeyBox>(
    state: HandlerView,
    keychain: &K,
    alert: SignedAlertView,
)
    requires
        state.network_alert_result::<H, K>(keychain, alert) is Ok,
    ensures
        who_is_forking_spec::<H, K>(keychain, state.session_id, alert.signable.proof) == Some(
            alert.signable.proof.0.signable.creator,
        ),
        alert.signable.proof.0.signable.creator == alert.signable.proof.1.signable.creator,
{
}

/// The units of a confirmed alert are all by the forker, all signed by the forker, all of the
/// session, and of rounds that all differ.
pub proof fn lemma_confirmed_units<H: Hasher, K: KeyBox>(
    state: HandlerView,
    keychain: &K,
    hash: Hash64,
    units: Seq<SignedUnitView>,
)
    requires
        state.confirmed_result::<H, K>(keychain, hash) == Ok::<ForkingNotificationView, Error>(
            ForkingNotificationView::Units(units),
        ),
    ensures
        state.alerts.contains_key(hash),
        units == state.alerts[hash].signable.legit_units,
        forall|i: int|
            0 <= i < units.len() ==> {
                &&& (#[trigger] units[i]).signable.creator == alert_forker(
                    state.alerts[hash].signable,
                )
                &&& units[i].signable.session_id == state.session_id
                &&& unit_correctly_signed::<H, K>(keychain, units[i])
            },
        forall|i: int, j: int|
            0 <= i < j < units.len() ==> (#[trigger] units[i]).signable.round != (
            #[trigger] units[j]).signable.round,
{
}

/// An alert from the network is accepted for a sender and a forker only where no alert is
/// multicast for the two yet, and from then on that alert is.
pub proof fn lemma_accepted_once<H: Hasher, K: KeyBox>(
    state: HandlerView,
    keychain: &K,
    alert: SignedAlertView,
)
    requires
        state.network_alert_result::<H, K>(keychain, alert) is Ok,
    ensures
        !state.rmcs.contains_key(
            (alert.signable.sender, alert.signable.proof.0.signable.creator),
        ),
        state.after_network_alert::<H, K>(keychain, alert).rmcs.contains_key(
            (alert.signable.sender, alert.signable.proof.0.signable.creator),
        ),
        state.after_network_alert::<H, K>(keychain, alert).network_alert_result::<H, K>(
            keychain,
            alert,
        ) is Err,
{
}

/// No alert, own or from the network, and no completed multicast takes away that an alert is
/// multicast for a sender and a forker.
pub proof fn lemma_designations_stay<H: Hasher, K: KeyBox>(
    state: HandlerView,
    keychain: &K,
    alert: SignedAlertView,
    hash: Hash64,
    pair: (NodeIndex, NodeIndex),
)
    requires
        state.rmcs.contains_key(pair),
    ensures
        state.after_network_alert::<H, K>(keychain, alert).rmcs.contains_key(pair),
        state.with_own_alert::<H>(alert).rmcs.contains_key(pair),
        state.after_confirmed::<H>(hash).rmcs.contains_key(pair),
{
}

/// The handler's tables stay in order whatever arrives.
pub proof fn lemma_handler_stays_wf<H: Hasher, K: KeyBox>(
    state: HandlerView,
    keychain: &K,
    alert: SignedAlertView,
    hash: Hash64,
)
    requires
        state.wf::<H>(),
    ensures
        state.after_network_alert::<H, K>(keychain, alert).wf::<H>(),
        state.with_own_alert::<H>(alert).wf::<H>(),
        state.after_confirmed::<H>(hash).wf::<H>(),
{
}

/// The broadcast of the alert to everyone.
pub open spec fn broadcast_of(alert: SignedAlertView) -> ServiceActionView {
    ServiceActionView::MessageForNetwork(AlertMessageView::ForkAlert(alert), Recipient::Everyone)
}

/// The release of the units to consensus.
pub open spec fn release_of(units: Seq<SignedUnitView>) -> ServiceActionView {
    ServiceActionView::NotificationForUnits(ForkingNotificationView::Units(units))
}

/// The event is the backup's word that it holds an own alert with the given hash.
pub open spec fn acknowledges_own_alert<H: Hasher>(event: ServiceEventView, hash: Hash64) -> bool {
    event matches ServiceEventView::ResponseFromBackup(AlertDataView::OwnAlert(alert))
        && alert_hash::<H>(alert) == hash
}

/// The event is the backup's word that it holds a multisignature on the given hash.
pub open spec fn acknowledges_multisigned(event: ServiceEventView, hash: Hash64) -> bool {
    event matches ServiceEventView::ResponseFromBackup(AlertDataView::MultisignedHash(multisigned))
        && multisigned.signable == hash
}

proof fn lemma_multisigned_actions<H: Hasher, K: KeyBox>(
    state: ServiceView,
    handler_keys: &K,
    multisigned: MultisignedView,
)
    requires
        state.wf::<H>(),
    ensures
        state.on_multisigned::<H, K>(handler_keys, multisigned).0.wf::<H>(),
        forall|i: int|
            0 <= i < state.on_multisigned::<H, K>(handler_keys, multisigned).1.len() ==> (
            #[trigger] state.on_multisigned::<H, K>(handler_keys, multisigned).1[i])
                is DataForBackup,
{
    let hash = multisigned.signable;
    let (after, actions) = state.on_multisigned::<H, K>(handler_keys, multisigned);
    lemma_handler_stays_wf::<H, K>(
        state.handler,
        handler_keys,
        arbitrary(),
        hash,
    );
    if let Ok(notification) = state.handler.confirmed_result::<H, K>(handler_keys, hash) {
        let alert = state.handler.alerts[hash].signable;
        assert(alert_hash::<H>(alert) == hash && alert.legit_units == alert.legit_units);
        assert forall|h: Hash64| #[trigger]
            after.multisigned_notifications.contains_key(h) implies {
            &&& after.multisigned_notifications[h] matches ForkingNotificationView::Units(units)
            &&& exists|alert: AlertView| #[trigger]
                alert_hash::<H>(alert) == h && alert.legit_units == units
        } by {
            if h != hash {
                assert(state.multisigned_notifications.contains_key(h));
            }
        }
    }
}

proof fn lemma_start_actions<H: Hasher, K: KeyBox>(
    state: ServiceView,
    handler_keys: &K,
    rmc_keys: &K,
    hash: Hash64,
    now: u64,
    signature: SignatureView,
)
    requires
        state.wf::<H>(),
    ensures
        state.on_start_rmc::<H, K>(handler_keys, rmc_keys, hash, now, signature).0.wf::<H>(),
        forall|i: int|
            0 <= i < state.on_start_rmc::<H, K>(
                handler_keys,
                rmc_keys,
                hash,
                now,
                signature,
            ).1.len() ==> (#[trigger] state.on_start_rmc::<H, K>(
                handler_keys,
                rmc_keys,
                hash,
                now,
                signature,
            ).1[i]) is DataForBackup,
{
    let gathered = state.on_start_rmc::<H, K>(handler_keys, rmc_keys, hash, now, signature).0.gathered;
    lemma_multisigned_actions::<H, K>(ServiceView { gathered, ..state }, handler_keys, arbitrary());
    if let Some(multisigned) = newly_completed(
        rmc_keys,
        state.gathered,
        own_signed_hash(rmc_keys, hash, signature),
    ) {
        let started = ServiceView {
            gathered: after_signed_hash(
                rmc_keys,
                state.gathered,
                own_signed_hash(rmc_keys, hash, signature),
            ),
            ..state
        };
        lemma_multisigned_actions::<H, K>(started, handler_keys, multisigned);
    }
}

proof fn lemma_rmc_message_actions<H: Hasher, K: KeyBox>(
    state: ServiceView,
    handler_keys: &K,
    rmc_keys: &K,
    message: RmcMessageView,
)
    requires
        state.wf::<H>(),
    ensures
        state.on_rmc_message::<H, K>(handler_keys, rmc_keys, message).0.wf::<H>(),
        forall|i: int|
            0 <= i < state.on_rmc_message::<H, K>(handler_keys, rmc_keys, message).1.len() ==> (
            #[trigger] state.on_rmc_message::<H, K>(handler_keys, rmc_keys, message).1[i])
                is DataForBackup,
{
    match message {
        RmcMessageView::SignedHash(signed) => {
            if let Some(multisigned) = newly_completed(
                rmc_keys,
                state.gathered,
                signed,
            ) {
                let moved = ServiceView {
                    gathered: after_signed_hash(
                        rmc_keys,
                        state.gathered,
                        signed,
                    ),
                    tasks: without_hash(state.tasks, signed.signable.hash),
                    ..state
                };
                lemma_multisigned_actions::<H, K>(moved, handler_keys, multisigned);
            }
        },
        RmcMessageView::MultisignedHash(multisigned) => {
            let moved = ServiceView {
                gathered: state.gathered.insert(multisigned.signable, multisigned.signature),
                tasks: without_hash(state.tasks, multisigned.signable),
                ..state
            };
            lemma_multisigned_actions::<H, K>(moved, handler_keys, multisigned);
        },
    }
}

/// One step of the service keeps its tables in order; it broadcasts an own alert to everyone
/// only on the backup's word that it holds an own alert with that hash, and it releases units
/// to consensus only on the backup's word that it holds a multisignature on the hash of an
/// alert that commits to exactly these units.
pub proof fn lemma_step<H: Hasher, K: KeyBox>(
    state: ServiceView,
    handler_keys: &K,
    rmc_keys: &K,
    node_index: NodeIndex,
    delay: u64,
    event: ServiceEventView,
    now: u64,
    signature: SignatureView,
)
    requires
        state.wf::<H>(),
    ensures
        ({
            let (after, actions) = state.step::<H, K>(
                handler_keys,
                rmc_keys,
                node_index,
                delay,
                event,
                now,
                signature,
            );
            &&& after.wf::<H>()
            &&& forall|alert: SignedAlertView|
                actions.contains(#[trigger] broadcast_of(alert)) ==> acknowledges_own_alert::<H>(
                    event,
                    alert_hash::<H>(alert.signable),
                )
            &&& forall|units: Seq<SignedUnitView>|
                actions.contains(#[trigger] release_of(units)) ==> exists|alert: AlertView|
                    acknowledges_multisigned(event, #[trigger] alert_hash::<H>(alert))
                        && alert.legit_units == units
        }),
{
    let (after, actions) = state.step::<H, K>(
        handler_keys,
        rmc_keys,
        node_index,
        delay,
        event,
        now,
        signature,
    );
    if state.exiting {
        return ;
    }
    match event {
        ServiceEventView::MessageFromNetwork(message) => {
            match message {
                AlertMessageView::ForkAlert(alert) => {
                    lemma_handler_stays_wf::<H, K>(state.handler, handler_keys, alert, 0);
                    if let Ok(response) = state.handler.network_alert_result::<H, K>(
                        handler_keys,
                        alert,
                    ) {
                        assert forall|h: Hash64| #[trigger]
                            after.network_alert_responses.contains_key(h) implies {
                            &&& after.network_alert_responses[h].1 == h
                            &&& !(after.network_alert_responses[h].0 matches Some(
                                ForkingNotificationView::Units(_),
                            ))
                        } by {
                            if h != alert_hash::<H>(alert.signable) {
                                assert(state.network_alert_responses.contains_key(h));
                            }
                        }
                    }
                },
                AlertMessageView::RmcHash(sender, message) => {
                    lemma_rmc_message_actions::<H, K>(state, handler_keys, rmc_keys, message);
                },
                AlertMessageView::AlertRequest(node, hash) => {},
            }
        },
        ServiceEventView::AlertFromUnits(alert) => {
            lemma_handler_stays_wf::<H, K>(
                state.handler,
                handler_keys,
                UncheckedSignedView { signable: alert, signature },
                0,
            );
            assert forall|h: Hash64| #[trigger]
                after.own_alert_responses.contains_key(h) implies {
                &&& after.own_alert_responses[h].0 matches AlertMessageView::ForkAlert(signed)
                &&& alert_hash::<H>(signed.signable) == h
                &&& after.own_alert_responses[h].1 == Recipient::Everyone
                &&& after.own_alert_responses[h].2 == h
            } by {
                if h != alert_hash::<H>(alert) {
                    assert(state.own_alert_responses.contains_key(h));
                }
            }
        },
        ServiceEventView::ResponseFromBackup(data) => {
            match data {
                AlertDataView::OwnAlert(alert) => {
                    let key = alert_hash::<H>(alert);
                    if state.own_alert_responses.contains_key(key) {
                        let (message, recipient, hash) = state.own_alert_responses[key];
                        let waiting = ServiceView {
                            own_alert_responses: state.own_alert_responses.remove(key),
                            ..state
                        };
                        assert(waiting.wf::<H>()) by {
                            assert forall|h: Hash64| #[trigger]
                                waiting.own_alert_responses.contains_key(h) implies {
                                &&& waiting.own_alert_responses[h].0 matches AlertMessageView::ForkAlert(
                                    signed,
                                )
                                &&& alert_hash::<H>(signed.signable) == h
                                &&& waiting.own_alert_responses[h].1 == Recipient::Everyone
                                &&& waiting.own_alert_responses[h].2 == h
                            } by {
                                assert(state.own_alert_responses.contains_key(h));
                            }
                        }
                        lemma_start_actions::<H, K>(
                            waiting,
                            handler_keys,
                            rmc_keys,
                            hash,
                            now,
                            signature,
                        );
                        let started = waiting.on_start_rmc::<H, K>(
                            handler_keys,
                            rmc_keys,
                            hash,
                            now,
                            signature,
                        ).1;
                        let first = seq![ServiceActionView::MessageForNetwork(message, recipient)];
                        assert forall|i: int| 0 <= i < actions.len() implies (i == 0
                            && actions[i] == first[0]) || (#[trigger] actions[i])
                            is DataForBackup by {
                            if i > 0 {
                                assert(actions[i] == started[i - 1]);
                            }
                        }
                    }
                },
                AlertDataView::NetworkAlert(alert) => {
                    let key = alert_hash::<H>(alert);
                    if state.network_alert_responses.contains_key(key) {
                        let (maybe_notification, hash) = state.network_alert_responses[key];
                        let waiting = ServiceView {
                            network_alert_responses: state.network_alert_responses.remove(key),
                            ..state
                        };
                        assert(waiting.wf::<H>()) by {
                            assert forall|h: Hash64| #[trigger]
                                waiting.network_alert_responses.contains_key(h) implies {
                                &&& waiting.network_alert_responses[h].1 == h
                                &&& !(waiting.network_alert_responses[h].0 matches Some(
                                    ForkingNotificationView::Units(_),
                                ))
                            } by {
                                assert(state.network_alert_responses.contains_key(h));
                            }
                        }
                        lemma_start_actions::<H, K>(
                            waiting,
                            handler_keys,
                            rmc_keys,
                            hash,
                            now,
                            signature,
                        );
                        let started = waiting.on_start_rmc::<H, K>(
                            handler_keys,
                            rmc_keys,
                            hash,
                            now,
                            signature,
                        ).1;
                        assert forall|i: int| 0 <= i < actions.len() implies (
                        #[trigger] actions[i]) is DataForBackup || (maybe_notification matches Some(
                            n,
                        ) && actions[i] == ServiceActionView::NotificationForUnits(n)) by {
                            if i < started.len() {
                                assert(actions[i] == started[i]);
                            }
                        }
                    }
                },
                AlertDataView::MultisignedHash(multisigned) => {
                    let key = multisigned.signable;
                    if state.multisigned_notifications.contains_key(key) {
                        assert forall|h: Hash64| #[trigger]
                            after.multisigned_notifications.contains_key(h) implies {
                            &&& after.multisigned_notifications[h] matches ForkingNotificationView::Units(
                                units,
                            )
                            &&& exists|alert: AlertView| #[trigger]
                                alert_hash::<H>(alert) == h && alert.legit_units == units
                        } by {
                            assert(state.multisigned_notifications.contains_key(h));
                        }
                    }
                },
            }
        },
        ServiceEventView::Tick => {},
        ServiceEventView::Exit => {},
    }
    assert forall|alert: SignedAlertView|
        actions.contains(#[trigger] broadcast_of(alert)) implies acknowledges_own_alert::<H>(
        event,
        alert_hash::<H>(alert.signable),
    ) by {
        let i = choose|i: int| 0 <= i < actions.len() && actions[i] == broadcast_of(alert);
        assert(actions[i] == broadcast_of(alert));
    }
    assert forall|units: Seq<SignedUnitView>|
        actions.contains(#[trigger] release_of(units)) implies exists|alert: AlertView|
        acknowledges_multisigned(event, #[trigger] alert_hash::<H>(alert)) && alert.legit_units
            == units by {
        let i = choose|i: int| 0 <= i < actions.len() && actions[i] == release_of(units);
        assert(actions[i] == release_of(units));
    }
}

/// In every run of the service, its tables stay in order; every own alert that is broadcast to
/// everyone was acknowledged by the backup in that run, and so was, for every release of
/// units, a multisignature on the hash of an alert that commits to exactly these units.
pub proof fn lemma_run<H: Hasher, K: KeyBox>(
    state: ServiceView,
    handler_keys: &K,
    rmc_keys: &K,
    node_index: NodeIndex,
    delay: u64,
    events: Seq<(ServiceEventView, u64)>,
    signatures: Seq<SignatureView>,
)
    requires
        state.wf::<H>(),
    ensures
        ({
            let (after, actions) = state.run::<H, K>(
                handler_keys,
                rmc_keys,
                node_index,
                delay,
                events,
                signatures,
            );
            &&& after.wf::<H>()
            &&& forall|alert: SignedAlertView|
                actions.contains(#[trigger] broadcast_of(alert)) ==> exists|i: int|
                    0 <= i < events.len() && acknowledges_own_alert::<H>(
                        (#[trigger] events[i]).0,
                        alert_hash::<H>(alert.signable),
                    )
            &&& forall|units: Seq<SignedUnitView>|
                actions.contains(#[trigger] release_of(units)) ==> exists|i: int, alert: AlertView|
                    0 <= i < events.len() && acknowledges_multisigned(
                        (#[trigger] events[i]).0,
                        #[trigger] alert_hash::<H>(alert),
                    ) && alert.legit_units == units
        }),
    decreases events.len(),
{
    if events.len() > 0 {
        let front = events.drop_last();
        let (before, done) = state.run::<H, K>(
            handler_keys,
            rmc_keys,
            node_index,
            delay,
            front,
            signatures.drop_last(),
        );
        lemma_run::<H, K>(
            state,
            handler_keys,
            rmc_keys,
            node_index,
            delay,
            front,
            signatures.drop_last(),
        );
        let last = events.len() - 1;
        let (after, more) = before.step::<H, K>(
            handler_keys,
            rmc_keys,
            node_index,
            delay,
            events.last().0,
            events.last().1,
            signatures.last(),
        );
        lemma_step::<H, K>(
            before,
            handler_keys,
            rmc_keys,
            node_index,
            delay,
            events.last().0,
            events.last().1,
            signatures.last(),
        );
        let actions = done + more;
        assert forall|alert: SignedAlertView|
            actions.contains(#[trigger] broadcast_of(alert)) implies exists|i: int|
            0 <= i < events.len() && acknowledges_own_alert::<H>(
                (#[trigger] events[i]).0,
                alert_hash::<H>(alert.signable),
            ) by {
            let k = choose|k: int| 0 <= k < actions.len() && actions[k] == broadcast_of(alert);
            if k < done.len() {
                assert(done[k] == broadcast_of(alert));
                let i = choose|i: int|
                    0 <= i < front.len() && acknowledges_own_alert::<H>(
                        (#[trigger] front[i]).0,
                        alert_hash::<H>(alert.signable),
                    );
                assert(events[i] == front[i]);
            } else {
                assert(more[k - done.len()] == broadcast_of(alert));
                assert(acknowledges_own_alert::<H>(
                    events[last].0,
                    alert_hash::<H>(alert.signable),
                ));
            }
        }
        assert forall|units: Seq<SignedUnitView>|
            actions.contains(#[trigger] release_of(units)) implies exists|i: int, alert: AlertView|
            0 <= i < events.len() && acknowledges_multisigned(
                (#[trigger] events[i]).0,
                #[trigger] alert_hash::<H>(alert),
            ) && alert.legit_units == units by {
            let k = choose|k: int| 0 <= k < actions.len() && actions[k] == release_of(units);
            if k < done.len() {
                assert(done[k] == release_of(units));
                let (i, alert) = choose|i: int, alert: AlertView|
                    0 <= i < front.len() && acknowledges_multisigned(
                        (#[trigger] front[i]).0,
                        #[trigger] alert_hash::<H>(alert),
                    ) && alert.legit_units == units;
                assert(events[i] == front[i]);
                assert(acknowledges_multisigned(events[i].0, alert_hash::<H>(alert)));
            } else {
                assert(more[k - done.len()] == release_of(units));
                let alert = choose|alert: AlertView|
                    acknowledges_multisigned(events.last().0, #[trigger] alert_hash::<H>(alert))
                        && alert.legit_units == units;
                assert(acknowledges_multisigned(events[last].0, alert_hash::<H>(alert)));
            }
        }
    }
}

/// Encoding an alert message and decoding the result gives the message back, whatever bytes
/// follow it.
pub proof fn lemma_alert_message_round_trip(message: AlertMessageView, rest: Seq<u8>)
    requires
        AlertMessage::representable(message),
    ensures
        AlertMessage::parse(AlertMessage::enc(message) + rest, 0) == Some(
            (message, AlertMessage::enc(message).len() as int),
        ),
{
    lemma_encode_then_parse::<AlertMessage>(message, rest);
}

} // verus!

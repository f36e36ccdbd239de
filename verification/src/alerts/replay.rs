//! Taking up again what the backup holds: a handler that has done so decides about alerts as
//! the handler that ran before.

use crate::alerts::handler::{who_is_forking_spec, HandlerView, RmcResponseView};
use crate::alerts::service::{
    next_index, own_signed_hash, ServiceActionView, ServiceEventView, ServiceView,
};
use crate::alerts::system::{lemma_system_stays_wf, records_of, Move, SystemView};
use crate::alerts::{alert_forker, alert_hash, AlertDataView, AlertMessageView, SignedAlertView};
use crate::crypto::{is_multisignature, signed_hash_valid, KeyBox, MultisignedView};
use crate::nodes::{Hash64, Hasher, NodeIndex, Recipient, SessionId};
use crate::rmc::handler::{after_signed_hash, completed, newly_completed};
use crate::rmc::scheduler::{due, without_hash};
use crate::rmc::service::has_task;
use crate::rmc::RmcMessageView;
use crate::units::{SignatureView, UncheckedSignedView};
use vstd::prelude::*;

verus! {

/// The two handlers accept and turn down alerts alike: they are of one session, know the same
/// forkers, and have an alert multicast for the same senders and forkers.
pub open spec fn decides_alike(first: HandlerView, second: HandlerView) -> bool {
    &&& first.session_id == second.session_id
    &&& first.forkers.dom() == second.forkers.dom()
    &&& first.rmcs.dom() == second.rmcs.dom()
}

/// Handlers that decide alike answer every alert from the network alike.
pub proof fn lemma_decides_alike<H: Hasher, K: KeyBox>(
    first: HandlerView,
    second: HandlerView,
    keychain: &K,
    alert: SignedAlertView,
)
    requires
        decides_alike(first, second),
    ensures
        first.network_alert_result::<H, K>(keychain, alert) == second.network_alert_result::<H, K>(
            keychain,
            alert,
        ),
        decides_alike(
            first.after_network_alert::<H, K>(keychain, alert),
            second.after_network_alert::<H, K>(keychain, alert),
        ),
{
    let sender = alert.signable.sender;
    match who_is_forking_spec::<H, K>(keychain, first.session_id, alert.signable.proof) {
        Some(forker) => {
            assert(first.rmcs.contains_key((sender, forker)) == first.rmcs.dom().contains(
                (sender, forker),
            ));
            assert(second.rmcs.contains_key((sender, forker)) == second.rmcs.dom().contains(
                (sender, forker),
            ));
            assert(first.forkers.contains_key(forker) == first.forkers.dom().contains(forker));
            assert(second.forkers.contains_key(forker) == second.forkers.dom().contains(forker));
            let a = first.after_network_alert::<H, K>(keychain, alert);
            let b = second.after_network_alert::<H, K>(keychain, alert);
            assert(a.rmcs.dom() =~= b.rmcs.dom());
            assert(a.forkers.dom() =~= b.forkers.dom());
        },
        None => {},
    }
}

/// What one step of the service does to what its handler knows, and what it hands to the
/// backup of it.
pub enum Effect {
    /// Nothing that the backup is told of.
    Nothing,
    /// An own alert was raised, with this signature.
    Raised(SignedAlertView),
    /// An alert from the network was accepted.
    Accepted(SignedAlertView),
    /// An alert from the network was turned down.
    TurnedDown(SignedAlertView),
    /// The multicast of the hash of a known alert has completed.
    Confirmed(MultisignedView),
}

/// The effect leads from `before` to `after` and hands `records` to the backup.
pub open spec fn has_effect<H: Hasher, K: KeyBox>(
    effect: Effect,
    keychain: &K,
    before: HandlerView,
    after: HandlerView,
    records: Seq<AlertDataView>,
) -> bool {
    match effect {
        Effect::Nothing => after == before && records == Seq::<AlertDataView>::empty(),
        Effect::Raised(alert) => after == before.with_own_alert::<H>(alert) && records
            == seq![AlertDataView::OwnAlert(alert.signable)],
        Effect::Accepted(alert) => {
            &&& before.network_alert_result::<H, K>(keychain, alert) is Ok
            &&& after == before.after_network_alert::<H, K>(keychain, alert)
            &&& records == seq![AlertDataView::NetworkAlert(alert.signable)]
        },
        Effect::TurnedDown(alert) => {
            &&& before.network_alert_result::<H, K>(keychain, alert) is Err
            &&& after == before.after_network_alert::<H, K>(keychain, alert)
            &&& records == Seq::<AlertDataView>::empty()
        },
        Effect::Confirmed(multisigned) => {
            &&& before.alerts.contains_key(multisigned.signable)
            &&& after == before.after_confirmed::<H>(multisigned.signable)
            &&& records == seq![AlertDataView::MultisignedHash(multisigned)]
        },
    }
}

/// The records that two lists of actions hand to the backup are those of the first, then those
/// of the second.
pub proof fn lemma_records_of_concat(first: Seq<ServiceActionView>, second: Seq<ServiceActionView>)
    ensures
        records_of(first + second) == records_of(first) + records_of(second),
    decreases second.len(),
{
    if second.len() == 0 {
        assert(first + second =~= first);
        assert(records_of(first) + records_of(second) =~= records_of(first));
    } else {
        lemma_records_of_concat(first, second.drop_last());
        assert((first + second).drop_last() =~= first + second.drop_last());
        assert((first + second).last() == second.last());
        match second.last() {
            ServiceActionView::DataForBackup(data) => {
                assert((records_of(first) + records_of(second.drop_last())).push(data)
                    =~= records_of(first) + records_of(second.drop_last()).push(data));
            },
            _ => {},
        }
    }
}

proof fn lemma_records_of_one(action: ServiceActionView)
    ensures
        records_of(seq![action]) == match action {
            ServiceActionView::DataForBackup(data) => seq![data],
            _ => Seq::<AlertDataView>::empty(),
        },
{
    let one = seq![action];
    assert(one.drop_last() =~= Seq::<ServiceActionView>::empty());
    assert(records_of(one.drop_last()) =~= Seq::<AlertDataView>::empty());
    assert(one.last() == action);
    match action {
        ServiceActionView::DataForBackup(data) => {
            assert(Seq::<AlertDataView>::empty().push(data) =~= seq![data]);
        },
        _ => {},
    }
}

proof fn lemma_multisigned_effect<H: Hasher, K: KeyBox>(
    state: ServiceView,
    handler_keys: &K,
    multisigned: MultisignedView,
) -> (effect: Effect)
    ensures
        has_effect::<H, K>(
            effect,
            handler_keys,
            state.handler,
            state.on_multisigned::<H, K>(handler_keys, multisigned).0.handler,
            records_of(state.on_multisigned::<H, K>(handler_keys, multisigned).1),
        ),
{
    let record = ServiceActionView::DataForBackup(AlertDataView::MultisignedHash(multisigned));
    lemma_records_of_one(record);
    assert(records_of(Seq::<ServiceActionView>::empty()) =~= Seq::<AlertDataView>::empty());
    if state.handler.alerts.contains_key(multisigned.signable) {
        Effect::Confirmed(multisigned)
    } else {
        Effect::Nothing
    }
}

proof fn lemma_start_effect<H: Hasher, K: KeyBox>(
    state: ServiceView,
    handler_keys: &K,
    rmc_keys: &K,
    hash: Hash64,
    now: u64,
    signature: SignatureView,
) -> (effect: Effect)
    ensures
        has_effect::<H, K>(
            effect,
            handler_keys,
            state.handler,
            state.on_start_rmc::<H, K>(handler_keys, rmc_keys, hash, now, signature).0.handler,
            records_of(
                state.on_start_rmc::<H, K>(handler_keys, rmc_keys, hash, now, signature).1,
            ),
        ),
{
    assert(records_of(Seq::<ServiceActionView>::empty()) =~= Seq::<AlertDataView>::empty());
    let signed = own_signed_hash(rmc_keys, hash, signature);
    if completed(rmc_keys, state.gathered, hash)
        || has_task(state.tasks, hash) {
        Effect::Nothing
    } else {
        match newly_completed(rmc_keys, state.gathered, signed) {
            Some(multisigned) => {
                let started = ServiceView {
                    gathered: after_signed_hash(
                        rmc_keys,
                        state.gathered,
                        signed,
                    ),
                    ..state
                };
                lemma_multisigned_effect::<H, K>(started, handler_keys, multisigned)
            },
            None => Effect::Nothing,
        }
    }
}

proof fn lemma_rmc_message_effect<H: Hasher, K: KeyBox>(
    state: ServiceView,
    handler_keys: &K,
    rmc_keys: &K,
    message: RmcMessageView,
) -> (effect: Effect)
    ensures
        has_effect::<H, K>(
            effect,
            handler_keys,
            state.handler,
            state.on_rmc_message::<H, K>(handler_keys, rmc_keys, message).0.handler,
            records_of(state.on_rmc_message::<H, K>(handler_keys, rmc_keys, message).1),
        ),
{
    assert(records_of(Seq::<ServiceActionView>::empty()) =~= Seq::<AlertDataView>::empty());
    match message {
        RmcMessageView::SignedHash(signed) => {
            if !signed_hash_valid(rmc_keys, signed) {
                Effect::Nothing
            } else {
                match newly_completed(rmc_keys, state.gathered, signed) {
                    Some(multisigned) => {
                        let moved = ServiceView {
                            gathered: after_signed_hash(
                                rmc_keys,
                                state.gathered,
                                signed,
                            ),
                            tasks: without_hash(
                                state.tasks,
                                signed.signable.hash,
                            ),
                            ..state
                        };
                        lemma_multisigned_effect::<H, K>(moved, handler_keys, multisigned)
                    },
                    None => Effect::Nothing,
                }
            }
        },
        RmcMessageView::MultisignedHash(multisigned) => {
            if completed(rmc_keys, state.gathered, multisigned.signable)
                || !is_multisignature(
                rmc_keys,
                multisigned.signable,
                multisigned.signature,
            ) {
                Effect::Nothing
            } else {
                let moved = ServiceView {
                    gathered: state.gathered.insert(multisigned.signable, multisigned.signature),
                    tasks: without_hash(state.tasks, multisigned.signable),
                    ..state
                };
                lemma_multisigned_effect::<H, K>(moved, handler_keys, multisigned)
            }
        },
    }
}

/// Whatever arrives, one step of the service has one of the effects on what its handler knows,
/// and hands the record of it to the backup.
pub proof fn lemma_step_effect<H: Hasher, K: KeyBox>(
    state: ServiceView,
    handler_keys: &K,
    rmc_keys: &K,
    node_index: NodeIndex,
    delay: u64,
    event: ServiceEventView,
    now: u64,
    signature: SignatureView,
) -> (effect: Effect)
    ensures
        has_effect::<H, K>(
            effect,
            handler_keys,
            state.handler,
            state.step::<H, K>(
                handler_keys,
                rmc_keys,
                node_index,
                delay,
                event,
                now,
                signature,
            ).0.handler,
            records_of(
                state.step::<H, K>(
                    handler_keys,
                    rmc_keys,
                    node_index,
                    delay,
                    event,
                    now,
                    signature,
                ).1,
            ),
        ),
{
    let (after, actions) = state.step::<H, K>(
        handler_keys,
        rmc_keys,
        node_index,
        delay,
        event,
        now,
        signature,
    );
    assert(records_of(Seq::<ServiceActionView>::empty()) =~= Seq::<AlertDataView>::empty());
    if state.exiting {
        return Effect::Nothing;
    }
    match event {
        ServiceEventView::MessageFromNetwork(message) => {
            match message {
                AlertMessageView::ForkAlert(alert) => {
                    lemma_records_of_one(
                        ServiceActionView::DataForBackup(
                            AlertDataView::NetworkAlert(alert.signable),
                        ),
                    );
                    if state.handler.network_alert_result::<H, K>(handler_keys, alert) is Ok {
                        Effect::Accepted(alert)
                    } else {
                        Effect::TurnedDown(alert)
                    }
                },
                AlertMessageView::RmcHash(sender, message) => {
                    match state.handler.rmc_message_response(handler_keys, sender, message) {
                        RmcResponseView::RmcMessage(
                            message,
                        ) => lemma_rmc_message_effect::<H, K>(
                            state,
                            handler_keys,
                            rmc_keys,
                            message,
                        ),
                        RmcResponseView::AlertRequest(hash, recipient) => {
                            lemma_records_of_one(
                                ServiceActionView::MessageForNetwork(
                                    AlertMessageView::AlertRequest(node_index, hash),
                                    recipient,
                                ),
                            );
                            Effect::Nothing
                        },
                        RmcResponseView::Noop => Effect::Nothing,
                    }
                },
                AlertMessageView::AlertRequest(node, hash) => {
                    match state.handler.alert_request_result(node, hash) {
                        Ok((alert, recipient)) => {
                            lemma_records_of_one(
                                ServiceActionView::MessageForNetwork(
                                    AlertMessageView::ForkAlert(alert),
                                    recipient,
                                ),
                            );
                        },
                        Err(_) => {},
                    }
                    Effect::Nothing
                },
            }
        },
        ServiceEventView::AlertFromUnits(alert) => {
            lemma_records_of_one(
                ServiceActionView::DataForBackup(AlertDataView::OwnAlert(alert)),
            );
            Effect::Raised(UncheckedSignedView { signable: alert, signature })
        },
        ServiceEventView::ResponseFromBackup(data) => {
            match data {
                AlertDataView::OwnAlert(alert) => {
                    let key = alert_hash::<H>(alert);
                    if state.own_alert_responses.contains_key(key) {
                        let (message, recipient, hash) = state.own_alert_responses[key];
                        let waiting = ServiceView {
                            own_alert_responses: state.own_alert_responses.remove(key),
                            ..state
                        };
                        let effect = lemma_start_effect::<H, K>(
                            waiting,
                            handler_keys,
                            rmc_keys,
                            hash,
                            now,
                            signature,
                        );
                        let first = seq![ServiceActionView::MessageForNetwork(message, recipient)];
                        let more = waiting.on_start_rmc::<H, K>(
                            handler_keys,
                            rmc_keys,
                            hash,
                            now,
                            signature,
                        ).1;
                        lemma_records_of_one(first[0]);
                        lemma_records_of_concat(first, more);
                        assert(Seq::<AlertDataView>::empty() + records_of(more) =~= records_of(
                            more,
                        ));
                        effect
                    } else {
                        Effect::Nothing
                    }
                },
                AlertDataView::NetworkAlert(alert) => {
                    let key = alert_hash::<H>(alert);
                    if state.network_alert_responses.contains_key(key) {
                        let (maybe_notification, hash) = state.network_alert_responses[key];
                        let waiting = ServiceView {
                            network_alert_responses: state.network_alert_responses.remove(key),
                            ..state
                        };
                        let effect = lemma_start_effect::<H, K>(
                            waiting,
                            handler_keys,
                            rmc_keys,
                            hash,
                            now,
                            signature,
                        );
                        let first = waiting.on_start_rmc::<H, K>(
                            handler_keys,
                            rmc_keys,
                            hash,
                            now,
                            signature,
                        ).1;
                        let more = match maybe_notification {
                            Some(notification) => seq![
                                ServiceActionView::NotificationForUnits(notification),
                            ],
                            None => Seq::empty(),
                        };
                        if let Some(notification) = maybe_notification {
                            lemma_records_of_one(
                                ServiceActionView::NotificationForUnits(notification),
                            );
                        }
                        lemma_records_of_concat(first, more);
                        assert(records_of(first) + Seq::<AlertDataView>::empty() =~= records_of(
                            first,
                        ));
                        effect
                    } else {
                        Effect::Nothing
                    }
                },
                AlertDataView::MultisignedHash(multisigned) => {
                    let key = multisigned.signable;
                    if state.multisigned_notifications.contains_key(key) {
                        lemma_records_of_one(
                            ServiceActionView::NotificationForUnits(
                                state.multisigned_notifications[key],
                            ),
                        );
                    }
                    Effect::Nothing
                },
            }
        },
        ServiceEventView::Tick => {
            let i = next_index(state.tasks, delay);
            if state.tasks.len() > 0 && due(state.tasks[i], delay) <= now {
                lemma_records_of_one(
                    ServiceActionView::MessageForNetwork(
                        AlertMessageView::RmcHash(node_index, state.tasks[i].task),
                        Recipient::Everyone,
                    ),
                );
            }
            Effect::Nothing
        },
        ServiceEventView::Exit => Effect::Nothing,
    }
}

/// Taking a record up again keeps the handler's tables in order and its session, and takes
/// away neither a known forker nor that an alert is multicast for a sender and a forker.
pub proof fn lemma_record_keeps<H: Hasher, K: KeyBox>(
    state: HandlerView,
    keychain: &K,
    record: AlertDataView,
    signature: SignatureView,
)
    requires
        state.wf::<H>(),
    ensures
        state.after_record::<H, K>(keychain, record, signature).wf::<H>(),
        state.after_record::<H, K>(keychain, record, signature).session_id == state.session_id,
        state.forkers.dom().subset_of(
            state.after_record::<H, K>(keychain, record, signature).forkers.dom(),
        ),
        state.rmcs.dom().subset_of(
            state.after_record::<H, K>(keychain, record, signature).rmcs.dom(),
        ),
{
}

/// Taking records up again keeps the handler's tables in order and its session, and takes away
/// neither a known forker nor that an alert is multicast for a sender and a forker.
pub proof fn lemma_records_keep<H: Hasher, K: KeyBox>(
    state: HandlerView,
    keychain: &K,
    records: Seq<AlertDataView>,
    signatures: Seq<SignatureView>,
)
    requires
        state.wf::<H>(),
    ensures
        state.after_records::<H, K>(keychain, records, signatures).wf::<H>(),
        state.after_records::<H, K>(keychain, records, signatures).session_id == state.session_id,
        state.forkers.dom().subset_of(
            state.after_records::<H, K>(keychain, records, signatures).forkers.dom(),
        ),
        state.rmcs.dom().subset_of(
            state.after_records::<H, K>(keychain, records, signatures).rmcs.dom(),
        ),
    decreases records.len(),
{
    if records.len() > 0 {
        lemma_records_keep::<H, K>(state, keychain, records.drop_last(), signatures.drop_last());
        lemma_record_keeps::<H, K>(
            state.after_records::<H, K>(keychain, records.drop_last(), signatures.drop_last()),
            keychain,
            records.last(),
            signatures.last(),
        );
    }
}

proof fn lemma_effect_replayed<H: Hasher, K: KeyBox>(
    effect: Effect,
    keychain: &K,
    before: HandlerView,
    after: HandlerView,
    records: Seq<AlertDataView>,
    replayed: HandlerView,
    signature: SignatureView,
)
    requires
        before.wf::<H>(),
        replayed.wf::<H>(),
        has_effect::<H, K>(effect, keychain, before, after, records),
        decides_alike(before, replayed),
    ensures
        records.len() <= 1,
        records.len() == 0 ==> decides_alike(after, replayed),
        records.len() == 1 ==> decides_alike(
            after,
            replayed.after_record::<H, K>(keychain, records[0], signature),
        ),
{
    match effect {
        Effect::Nothing => {},
        Effect::Raised(alert) => {
            let again = replayed.after_record::<H, K>(keychain, records[0], signature);
            assert(after.rmcs.dom() =~= again.rmcs.dom());
            assert(after.forkers.dom() =~= again.forkers.dom());
        },
        Effect::Accepted(alert) => {
            let again = replayed.after_record::<H, K>(keychain, records[0], signature);
            let sender = alert.signable.sender;
            let forker = who_is_forking_spec::<H, K>(
                keychain,
                before.session_id,
                alert.signable.proof,
            )->0;
            assert(before.rmcs.contains_key((sender, forker)) == before.rmcs.dom().contains(
                (sender, forker),
            ));
            assert(replayed.rmcs.contains_key((sender, forker)) == replayed.rmcs.dom().contains(
                (sender, forker),
            ));
            assert(before.forkers.contains_key(forker) == before.forkers.dom().contains(forker));
            assert(replayed.forkers.contains_key(forker) == replayed.forkers.dom().contains(
                forker,
            ));
            assert(after.rmcs.dom() =~= again.rmcs.dom());
            assert(after.forkers.dom() =~= again.forkers.dom());
        },
        Effect::TurnedDown(alert) => {
            assert(after.rmcs.dom() =~= before.rmcs.dom());
            assert(after.forkers.dom() =~= before.forkers.dom());
        },
        Effect::Confirmed(multisigned) => {
            let again = replayed.after_record::<H, K>(keychain, records[0], signature);
            assert(after.rmcs.dom() =~= before.rmcs.dom());
            assert(again.rmcs.dom() =~= replayed.rmcs.dom());
        },
    }
}

/// What a handler knows at the start of a session.
pub open spec fn fresh_handler(session_id: SessionId) -> HandlerView {
    HandlerView { session_id, forkers: Map::empty(), alerts: Map::empty(), rmcs: Map::empty() }
}

/// A service at the start of a session, beside an empty backup.
pub open spec fn fresh_system(session_id: SessionId) -> SystemView {
    SystemView {
        service: ServiceView {
            handler: fresh_handler(session_id),
            gathered: Map::empty(),
            tasks: Seq::empty(),
            own_alert_responses: Map::empty(),
            network_alert_responses: Map::empty(),
            multisigned_notifications: Map::empty(),
            exiting: false,
        },
        written: Seq::empty(),
        acknowledged: 0,
    }
}

/// A handler that takes up again what the backup holds decides as the handler that ran until
/// then: whatever has moved a service since the start of its session, a fresh handler that
/// takes up the records of its backup knows the same forkers and has an alert multicast for the
/// same senders and forkers, so that it accepts and turns down every alert from the network as
/// the handler of the service does, and announces no forker twice.
pub proof fn lemma_replay_decides_as_before<H: Hasher, K: KeyBox>(
    session_id: SessionId,
    handler_keys: &K,
    rmc_keys: &K,
    node_index: NodeIndex,
    delay: u64,
    moves: Seq<Move>,
    signatures: Seq<SignatureView>,
)
    requires
        signatures.len() == fresh_system(session_id).advance_all::<H, K>(
            handler_keys,
            rmc_keys,
            node_index,
            delay,
            moves,
        ).written.len(),
    ensures
        ({
            let system = fresh_system(session_id).advance_all::<H, K>(
                handler_keys,
                rmc_keys,
                node_index,
                delay,
                moves,
            );
            let replayed = fresh_handler(session_id).after_records::<H, K>(
                handler_keys,
                system.written,
                signatures,
            );
            &&& system.wf::<H>()
            &&& replayed.wf::<H>()
            &&& decides_alike(system.service.handler, replayed)
            &&& forall|alert: SignedAlertView|
                #[trigger] system.service.handler.network_alert_result::<H, K>(
                    handler_keys,
                    alert,
                ) == replayed.network_alert_result::<H, K>(handler_keys, alert)
        }),
    decreases moves.len(),
{
    let start = fresh_system(session_id);
    let system = start.advance_all::<H, K>(handler_keys, rmc_keys, node_index, delay, moves);
    let replayed = fresh_handler(session_id).after_records::<H, K>(
        handler_keys,
        system.written,
        signatures,
    );
    lemma_system_stays_wf::<H, K>(start, handler_keys, rmc_keys, node_index, delay, moves);
    lemma_records_keep::<H, K>(
        fresh_handler(session_id),
        handler_keys,
        system.written,
        signatures,
    );
    if moves.len() > 0 {
        let before = start.advance_all::<H, K>(
            handler_keys,
            rmc_keys,
            node_index,
            delay,
            moves.drop_last(),
        );
        lemma_system_stays_wf::<H, K>(
            start,
            handler_keys,
            rmc_keys,
            node_index,
            delay,
            moves.drop_last(),
        );
        let earlier = signatures.take(before.written.len() as int);
        let changed = match moves.last() {
            Move::Arrival(event, now, signature) => !(event is ResponseFromBackup),
            Move::Acknowledgement(now, signature) => before.acknowledged < before.written.len(),
        };
        if changed {
            let (event, now, signature) = match moves.last() {
                Move::Arrival(event, now, signature) => (event, now, signature),
                Move::Acknowledgement(now, signature) => (
                    ServiceEventView::ResponseFromBackup(
                        before.written[before.acknowledged as int],
                    ),
                    now,
                    signature,
                ),
            };
            let (service, actions) = before.service.step::<H, K>(
                handler_keys,
                rmc_keys,
                node_index,
                delay,
                event,
                now,
                signature,
            );
            let records = records_of(actions);
            assert(system.written == before.written + records);
            let effect = lemma_step_effect::<H, K>(
                before.service,
                handler_keys,
                rmc_keys,
                node_index,
                delay,
                event,
                now,
                signature,
            );
            assert(records.len() <= 1) by {
                match effect {
                    Effect::Nothing => {},
                    Effect::Raised(_) => {},
                    Effect::Accepted(_) => {},
                    Effect::TurnedDown(_) => {},
                    Effect::Confirmed(_) => {},
                }
            }
            lemma_replay_decides_as_before::<H, K>(
                session_id,
                handler_keys,
                rmc_keys,
                node_index,
                delay,
                moves.drop_last(),
                earlier,
            );
            let replayed_before = fresh_handler(session_id).after_records::<H, K>(
                handler_keys,
                before.written,
                earlier,
            );
            lemma_effect_replayed::<H, K>(
                effect,
                handler_keys,
                before.service.handler,
                service.handler,
                records,
                replayed_before,
                signatures.last(),
            );
            if records.len() == 0 {
                assert(system.written =~= before.written);
                assert(earlier =~= signatures);
            } else {
                assert(system.written =~= before.written.push(records[0]));
                assert(system.written.drop_last() =~= before.written);
                assert(signatures.drop_last() =~= earlier);
            }
        } else {
            assert(system == before);
            assert(earlier =~= signatures);
            lemma_replay_decides_as_before::<H, K>(
                session_id,
                handler_keys,
                rmc_keys,
                node_index,
                delay,
                moves.drop_last(),
                earlier,
            );
        }
    } else {
        assert(signatures.len() == 0);
    }
    assert forall|alert: SignedAlertView|
        #[trigger] system.service.handler.network_alert_result::<H, K>(handler_keys, alert)
            == replayed.network_alert_result::<H, K>(handler_keys, alert) by {
        lemma_decides_alike::<H, K>(system.service.handler, replayed, handler_keys, alert);
    }
}

/// Replay is idempotent in what it decides: a handler that has taken the records up and takes
/// them up once more, with whatever signatures, decides as it did after the first time.
pub proof fn lemma_replay_twice<H: Hasher, K: KeyBox>(
    state: HandlerView,
    keychain: &K,
    records: Seq<AlertDataView>,
    first: Seq<SignatureView>,
    second: Seq<SignatureView>,
)
    requires
        state.wf::<H>(),
    ensures
        decides_alike(
            state.after_records::<H, K>(keychain, records, first),
            state.after_records::<H, K>(keychain, records, first).after_records::<H, K>(
                keychain,
                records,
                second,
            ),
        ),
{
    let once = state.after_records::<H, K>(keychain, records, first);
    lemma_records_keep::<H, K>(state, keychain, records, first);
    lemma_replay_again::<H, K>(state, keychain, records, first, once, second);
}

/// A handler that knows all that taking the records up brings about is not changed, in what it
/// decides, by taking them up.
proof fn lemma_replay_again<H: Hasher, K: KeyBox>(
    state: HandlerView,
    keychain: &K,
    records: Seq<AlertDataView>,
    first: Seq<SignatureView>,
    knowing: HandlerView,
    second: Seq<SignatureView>,
)
    requires
        state.wf::<H>(),
        knowing.wf::<H>(),
        knowing.session_id == state.session_id,
        state.after_records::<H, K>(keychain, records, first).forkers.dom().subset_of(
            knowing.forkers.dom(),
        ),
        state.after_records::<H, K>(keychain, records, first).rmcs.dom().subset_of(
            knowing.rmcs.dom(),
        ),
    ensures
        decides_alike(knowing, knowing.after_records::<H, K>(keychain, records, second)),
        knowing.after_records::<H, K>(keychain, records, second).wf::<H>(),
    decreases records.len(),
{
    if records.len() > 0 {
        let front = records.drop_last();
        let once_front = state.after_records::<H, K>(keychain, front, first.drop_last());
        lemma_records_keep::<H, K>(state, keychain, front, first.drop_last());
        lemma_record_keeps::<H, K>(once_front, keychain, records.last(), first.last());
        lemma_replay_again::<H, K>(
            state,
            keychain,
            front,
            first.drop_last(),
            knowing,
            second.drop_last(),
        );
        let again_front = knowing.after_records::<H, K>(keychain, front, second.drop_last());
        let once = once_front.after_record::<H, K>(keychain, records.last(), first.last());
        let again = again_front.after_record::<H, K>(keychain, records.last(), second.last());
        lemma_record_keeps::<H, K>(again_front, keychain, records.last(), second.last());
        match records.last() {
            AlertDataView::OwnAlert(alert) => {
                let pair = (alert.sender, alert_forker(alert));
                assert(once.rmcs.dom().contains(pair));
                assert(once.forkers.dom().contains(alert_forker(alert)));
                assert(knowing.rmcs.dom().contains(pair));
                assert(knowing.forkers.dom().contains(alert_forker(alert)));
                assert(again.rmcs.dom() =~= again_front.rmcs.dom());
                assert(again.forkers.dom() =~= again_front.forkers.dom());
            },
            AlertDataView::NetworkAlert(alert) => {
                match who_is_forking_spec::<H, K>(keychain, state.session_id, alert.proof) {
                    Some(forker) => {
                        let pair = (alert.sender, forker);
                        assert(once.rmcs.dom().contains(pair));
                        assert(knowing.rmcs.dom().contains(pair));
                        assert(again_front.rmcs.dom().contains(pair));
                        assert(again == again_front);
                    },
                    None => {},
                }
            },
            AlertDataView::MultisignedHash(multisigned) => {
                assert(again.rmcs.dom() =~= again_front.rmcs.dom());
            },
        }
    }
}

} // verus!

//! The service beside its backup: what the backup holds when the service acts.

use crate::alerts::laws::{
    acknowledges_multisigned, acknowledges_own_alert, broadcast_of, lemma_step, release_of,
};
use crate::alerts::service::{ServiceActionView, ServiceEventView, ServiceView};
use crate::alerts::{alert_hash, AlertDataView, AlertView, SignedAlertView};
use crate::crypto::KeyBox;
use crate::nodes::{Hash64, Hasher, NodeIndex};
use crate::units::{SignatureView, SignedUnitView};
use vstd::prelude::*;

verus! {

/// What moves a service and its backup on.
pub enum Move {
    /// Something arrives from outside, at a time and with the signature that it asks for: a
    /// message, an alert of consensus, a tick of the clock, the order to stop.
    Arrival(ServiceEventView, u64, SignatureView),
    /// The backup gives its word on the oldest record that it has written and not yet given its
    /// word on, at a time and with the signature that the service's answer asks for.
    Acknowledgement(u64, SignatureView),
}

/// A service beside its backup: the backup writes the records that the service hands to it, in
/// their order, and only then gives its word on them, in the same order.
pub struct SystemView {
    pub service: ServiceView,
    /// The records that the backup holds.
    pub written: Seq<AlertDataView>,
    /// On how many of them the backup has given its word.
    pub acknowledged: nat,
}

/// The records that the actions hand to the backup, in their order.
pub open spec fn records_of(actions: Seq<ServiceActionView>) -> Seq<AlertDataView>
    decreases actions.len(),
{
    if actions.len() == 0 {
        Seq::empty()
    } else {
        match actions.last() {
            ServiceActionView::DataForBackup(data) => records_of(actions.drop_last()).push(data),
            _ => records_of(actions.drop_last()),
        }
    }
}

/// The record is an own alert with the given hash.
pub open spec fn is_own_alert_with<H: Hasher>(data: AlertDataView, hash: Hash64) -> bool {
    data matches AlertDataView::OwnAlert(own) && alert_hash::<H>(own) == hash
}

/// The record is a multisignature on the given hash.
pub open spec fn is_multisigned_with(data: AlertDataView, hash: Hash64) -> bool {
    data matches AlertDataView::MultisignedHash(multisigned) && multisigned.signable == hash
}

/// The backup holds an own alert with the given hash.
pub open spec fn holds_own_alert<H: Hasher>(written: Seq<AlertDataView>, hash: Hash64) -> bool {
    exists|k: int| 0 <= k < written.len() && is_own_alert_with::<H>(#[trigger] written[k], hash)
}

/// The backup holds a multisignature on the given hash.
pub open spec fn holds_multisigned(written: Seq<AlertDataView>, hash: Hash64) -> bool {
    exists|k: int| 0 <= k < written.len() && is_multisigned_with(#[trigger] written[k], hash)
}

impl SystemView {
    /// The service's tables are in order, and the backup has given its word on no more than
    /// it holds.
    pub open spec fn wf<H: Hasher>(self) -> bool {
        &&& self.service.wf::<H>()
        &&& self.acknowledged <= self.written.len()
    }

    /// The system after one move, and what the service asks for in it. Nothing from outside
    /// can speak for the backup.
    pub open spec fn advance<H: Hasher, K: KeyBox>(
        self,
        handler_keys: &K,
        rmc_keys: &K,
        node_index: NodeIndex,
        delay: u64,
        step: Move,
    ) -> (SystemView, Seq<ServiceActionView>) {
        match step {
            Move::Arrival(event, now, signature) => {
                if event is ResponseFromBackup {
                    (self, Seq::empty())
                } else {
                    let (service, actions) = self.service.step::<H, K>(
                        handler_keys,
                        rmc_keys,
                        node_index,
                        delay,
                        event,
                        now,
                        signature,
                    );
                    (
                        SystemView {
                            service,
                            written: self.written + records_of(actions),
                            ..self
                        },
                        actions,
                    )
                }
            },
            Move::Acknowledgement(now, signature) => {
                if self.acknowledged < self.written.len() {
                    let (service, actions) = self.service.step::<H, K>(
                        handler_keys,
                        rmc_keys,
                        node_index,
                        delay,
                        ServiceEventView::ResponseFromBackup(
                            self.written[self.acknowledged as int],
                        ),
                        now,
                        signature,
                    );
                    (
                        SystemView {
                            service,
                            written: self.written + records_of(actions),
                            acknowledged: self.acknowledged + 1,
                        },
                        actions,
                    )
                } else {
                    (self, Seq::empty())
                }
            },
        }
    }

    /// The system after the moves, one after the other.
    pub open spec fn advance_all<H: Hasher, K: KeyBox>(
        self,
        handler_keys: &K,
        rmc_keys: &K,
        node_index: NodeIndex,
        delay: u64,
        moves: Seq<Move>,
    ) -> SystemView
        decreases moves.len(),
    {
        if moves.len() == 0 {
            self
        } else {
            self.advance_all::<H, K>(
                handler_keys,
                rmc_keys,
                node_index,
                delay,
                moves.drop_last(),
            ).advance::<H, K>(handler_keys, rmc_keys, node_index, delay, moves.last()).0
        }
    }
}

/// Whatever moves the system: when the service broadcasts an own alert to everyone, the
/// backup holds an own alert with the same hash; when the service releases units to
/// consensus, the backup holds a multisignature on the hash of an alert that commits to
/// exactly these units. And the system stays in order.
pub proof fn lemma_written_before_done<H: Hasher, K: KeyBox>(
    system: SystemView,
    handler_keys: &K,
    rmc_keys: &K,
    node_index: NodeIndex,
    delay: u64,
    step: Move,
)
    requires
        system.wf::<H>(),
    ensures
        ({
            let (after, actions) = system.advance::<H, K>(
                handler_keys,
                rmc_keys,
                node_index,
                delay,
                step,
            );
            &&& after.wf::<H>()
            &&& forall|alert: SignedAlertView|
                actions.contains(#[trigger] broadcast_of(alert)) ==> holds_own_alert::<H>(
                    system.written,
                    alert_hash::<H>(alert.signable),
                )
            &&& forall|units: Seq<SignedUnitView>|
                actions.contains(#[trigger] release_of(units)) ==> exists|alert: AlertView|
                    holds_multisigned(system.written, #[trigger] alert_hash::<H>(alert))
                        && alert.legit_units == units
        }),
{
    let (after, actions) = system.advance::<H, K>(
        handler_keys,
        rmc_keys,
        node_index,
        delay,
        step,
    );
    match step {
        Move::Arrival(event, now, signature) => {
            if !(event is ResponseFromBackup) {
                lemma_step::<H, K>(
                    system.service,
                    handler_keys,
                    rmc_keys,
                    node_index,
                    delay,
                    event,
                    now,
                    signature,
                );
            }
        },
        Move::Acknowledgement(now, signature) => {
            if system.acknowledged < system.written.len() {
                let k = system.acknowledged as int;
                let event = ServiceEventView::ResponseFromBackup(system.written[k]);
                lemma_step::<H, K>(
                    system.service,
                    handler_keys,
                    rmc_keys,
                    node_index,
                    delay,
                    event,
                    now,
                    signature,
                );
                assert forall|alert: SignedAlertView|
                    actions.contains(#[trigger] broadcast_of(alert)) implies holds_own_alert::<H>(
                    system.written,
                    alert_hash::<H>(alert.signable),
                ) by {
                    assert(acknowledges_own_alert::<H>(event, alert_hash::<H>(alert.signable)));
                    assert(is_own_alert_with::<H>(
                        system.written[k],
                        alert_hash::<H>(alert.signable),
                    ));
                }
                assert forall|units: Seq<SignedUnitView>|
                    actions.contains(#[trigger] release_of(units)) implies exists|alert: AlertView|
                    holds_multisigned(system.written, #[trigger] alert_hash::<H>(alert))
                        && alert.legit_units == units by {
                    let alert = choose|alert: AlertView|
                        acknowledges_multisigned(event, #[trigger] alert_hash::<H>(alert))
                            && alert.legit_units == units;
                    assert(is_multisigned_with(system.written[k], alert_hash::<H>(alert)));
                    assert(holds_multisigned(system.written, alert_hash::<H>(alert)));
                }
            }
        },
    }
}

/// The system stays in order through every sequence of moves, so that what holds of one move
/// holds of each.
pub proof fn lemma_system_stays_wf<H: Hasher, K: KeyBox>(
    system: SystemView,
    handler_keys: &K,
    rmc_keys: &K,
    node_index: NodeIndex,
    delay: u64,
    moves: Seq<Move>,
)
    requires
        system.wf::<H>(),
    ensures
        system.advance_all::<H, K>(handler_keys, rmc_keys, node_index, delay, moves).wf::<H>(),
    decreases moves.len(),
{
    if moves.len() > 0 {
        lemma_system_stays_wf::<H, K>(
            system,
            handler_keys,
            rmc_keys,
            node_index,
            delay,
            moves.drop_last(),
        );
        lemma_written_before_done::<H, K>(
            system.advance_all::<H, K>(
                handler_keys,
                rmc_keys,
                node_index,
                delay,
                moves.drop_last(),
            ),
            handler_keys,
            rmc_keys,
            node_index,
            delay,
            moves.last(),
        );
    }
}

} // verus!

//! The alert service: it takes what arrives from the network, from consensus, from the backup
//! and from the clock, and says what is to be sent, written and told.
//!
//! Whatever has a durable consequence is first handed to the backup; what follows from it is
//! done once the backup has acknowledged the record.

use crate::alerts::handler::{
    Error, Handler, HandlerView, OnNetworkAlertResponse, OnOwnAlertResponse, RmcResponse,
    RmcResponseView,
};
use crate::alerts::{
    alert_hash, Alert, AlertData, AlertDataView, AlertMessage, AlertMessageView, AlertView,
    ForkingNotification, ForkingNotificationView,
};
use crate::crypto::{
    is_multisignature, signed_hash_valid, signs_hash, IndexedHashView, KeyBox, Multisigned,
    MultisignedView, SignedHashView,
};
use crate::nodes::{Hash64, Hasher, Index, NodeIndex, Recipient};
use crate::rmc::handler::{after_signed_hash, completed, newly_completed, RmcView};
use crate::rmc::scheduler::{
    due, fired_once_more, is_next, without_hash, DoublingDelayScheduler, TaskView,
};
use crate::rmc::service::{has_task, start_outcome, Service as RmcService};
use crate::rmc::{RmcMessage, RmcMessageView};
use crate::units::{SignatureView, UncheckedSignedView};
use crate::value::Value;
use std::collections::HashMap;
use vstd::prelude::*;

verus! {

broadcast use vstd::std_specs::hash::group_hash_axioms;

/// What arrives at the service.
#[derive(Debug, PartialEq, Eq)]
pub enum ServiceEvent {
    /// A message that another participant sent.
    MessageFromNetwork(AlertMessage),
    /// An alert that consensus raises.
    AlertFromUnits(Alert),
    /// The backup has written the record.
    ResponseFromBackup(AlertData),
    /// Time has passed: what is due in the reliable multicast is to be sent.
    Tick,
    /// The service is to stop, by order or because one of its channels has closed.
    Exit,
}

/// What a [`ServiceEvent`] holds, as a mathematical value.
pub enum ServiceEventView {
    MessageFromNetwork(AlertMessageView),
    AlertFromUnits(AlertView),
    ResponseFromBackup(AlertDataView),
    Tick,
    Exit,
}

impl DeepView for ServiceEvent {
    type V = ServiceEventView;

    open spec fn deep_view(&self) -> ServiceEventView {
        match self {
            ServiceEvent::MessageFromNetwork(message) => ServiceEventView::MessageFromNetwork(
                message.deep_view(),
            ),
            ServiceEvent::AlertFromUnits(alert) => ServiceEventView::AlertFromUnits(
                alert.deep_view(),
            ),
            ServiceEvent::ResponseFromBackup(data) => ServiceEventView::ResponseFromBackup(
                data.deep_view(),
            ),
            ServiceEvent::Tick => ServiceEventView::Tick,
            ServiceEvent::Exit => ServiceEventView::Exit,
        }
    }
}

/// What the service asks the surrounding program to do.
#[derive(Debug, PartialEq, Eq, Hash)]
pub enum ServiceAction {
    /// A message to send to the given recipient.
    MessageForNetwork(AlertMessage, Recipient),
    /// Something to tell consensus.
    NotificationForUnits(ForkingNotification),
    /// A record to write to the backup and to acknowledge once it is written.
    DataForBackup(AlertData),
}

/// What a [`ServiceAction`] holds, as a mathematical value.
pub enum ServiceActionView {
    MessageForNetwork(AlertMessageView, Recipient),
    NotificationForUnits(ForkingNotificationView),
    DataForBackup(AlertDataView),
}

impl DeepView for ServiceAction {
    type V = ServiceActionView;

    open spec fn deep_view(&self) -> ServiceActionView {
        match self {
            ServiceAction::MessageForNetwork(x0, x1) => ServiceActionView::MessageForNetwork(
                x0.deep_view(),
                x1.deep_view(),
            ),
            ServiceAction::NotificationForUnits(x0) => ServiceActionView::NotificationForUnits(
                x0.deep_view(),
            ),
            ServiceAction::DataForBackup(x0) => ServiceActionView::DataForBackup(x0.deep_view()),
        }
    }
}

impl View for ServiceAction {
    type V = ServiceActionView;

    open spec fn view(&self) -> ServiceActionView {
        self.deep_view()
    }
}


impl Value for ServiceAction {
    fn duplicate(&self) -> (r: Self) {
        match self {
            ServiceAction::MessageForNetwork(x0, x1) => ServiceAction::MessageForNetwork(
                x0.duplicate(),
                x1.duplicate(),
            ),
            ServiceAction::NotificationForUnits(x0) => ServiceAction::NotificationForUnits(
                x0.duplicate(),
            ),
            ServiceAction::DataForBackup(x0) => ServiceAction::DataForBackup(x0.duplicate()),
        }
    }

    fn same(&self, other: &Self) -> (b: bool) {
        match (self, other) {
            (ServiceAction::MessageForNetwork(x0, x1), ServiceAction::MessageForNetwork(y0, y1)) => {
                x0.same(y0) && x1.same(y1)
            },
            (ServiceAction::NotificationForUnits(x0), ServiceAction::NotificationForUnits(y0)) => {
                x0.same(y0)
            },
            (ServiceAction::DataForBackup(x0), ServiceAction::DataForBackup(y0)) => x0.same(y0),
            _ => false,
        }
    }
}

impl Clone for ServiceAction {
    fn clone(&self) -> (r: Self)
        ensures
            r.deep_view() == self.deep_view(),
    {
        self.duplicate()
    }
}
/// What the service knows and has pending, as a mathematical value.
pub struct ServiceView {
    pub handler: HandlerView,
    /// The signatures that the reliable multicast has gathered, by hash.
    pub gathered: RmcView,
    /// The messages that the reliable multicast sends again and again.
    pub tasks: Seq<TaskView>,
    /// The broadcasts of own alerts that wait for the backup, by the alert's hash.
    pub own_alert_responses: Map<Hash64, (AlertMessageView, Recipient, Hash64)>,
    /// The acceptances of others' alerts that wait for the backup, by the alert's hash.
    pub network_alert_responses: Map<Hash64, (Option<ForkingNotificationView>, Hash64)>,
    /// The units that wait for the backup to have the multisignature, by the alert's hash.
    pub multisigned_notifications: Map<Hash64, ForkingNotificationView>,
    pub exiting: bool,
}

/// The hash signed by the participant of the key box, with the given signature.
pub open spec fn own_signed_hash<K: KeyBox>(
    keychain: &K,
    hash: Hash64,
    signature: SignatureView,
) -> SignedHashView {
    UncheckedSignedView {
        signable: IndexedHashView { hash, index: keychain.spec_index() },
        signature,
    }
}

/// The index of the task that is sent next, where there is a task.
pub open spec fn next_index(tasks: Seq<TaskView>, delay: u64) -> int {
    choose|i: int| is_next(tasks, delay, i)
}

/// Only one task is the next.
pub proof fn lemma_next_unique(tasks: Seq<TaskView>, delay: u64, i: int)
    requires
        is_next(tasks, delay, i),
    ensures
        next_index(tasks, delay) == i,
{
    let j = next_index(tasks, delay);
    assert(is_next(tasks, delay, j));
    if i < j {
        assert(due(tasks[j], delay) < due(tasks[i], delay));
        assert(due(tasks[i], delay) <= due(tasks[j], delay));
    }
    if j < i {
        assert(due(tasks[i], delay) < due(tasks[j], delay));
        assert(due(tasks[j], delay) <= due(tasks[i], delay));
    }
}

impl ServiceView {
    /// The pending tables are in order: what waits under a hash belongs to an alert with that
    /// hash.
    pub open spec fn wf<H: Hasher>(self) -> bool {
        &&& self.handler.wf::<H>()
        &&& forall|h: Hash64| #[trigger]
            self.own_alert_responses.contains_key(h) ==> {
                &&& self.own_alert_responses[h].0 matches AlertMessageView::ForkAlert(signed)
                &&& alert_hash::<H>(signed.signable) == h
                &&& self.own_alert_responses[h].1 == Recipient::Everyone
                &&& self.own_alert_responses[h].2 == h
            }
        &&& forall|h: Hash64| #[trigger]
            self.network_alert_responses.contains_key(h) ==> {
                &&& self.network_alert_responses[h].1 == h
                &&& !(self.network_alert_responses[h].0 matches Some(
                    ForkingNotificationView::Units(_),
                ))
            }
        &&& forall|h: Hash64| #[trigger]
            self.multisigned_notifications.contains_key(h) ==> {
                &&& self.multisigned_notifications[h] matches ForkingNotificationView::Units(units)
                &&& exists|alert: AlertView| #[trigger]
                    alert_hash::<H>(alert) == h && alert.legit_units == units
            }
    }

    /// A multisignature is new: if the alert with its hash is known, that alert now counts for
    /// its sender and forker and the multisignature goes to the backup; the alert's units wait
    /// for the backup if its commitment is valid.
    pub open spec fn on_multisigned<H: Hasher, K: KeyBox>(
        self,
        handler_keys: &K,
        multisigned: MultisignedView,
    ) -> (ServiceView, Seq<ServiceActionView>) {
        let hash = multisigned.signable;
        let handler = self.handler.after_confirmed::<H>(hash);
        let record = ServiceActionView::DataForBackup(AlertDataView::MultisignedHash(multisigned));
        match self.handler.confirmed_result::<H, K>(handler_keys, hash) {
            Ok(notification) => (
                ServiceView {
                    handler,
                    multisigned_notifications: self.multisigned_notifications.insert(
                        hash,
                        notification,
                    ),
                    ..self
                },
                seq![record],
            ),
            Err(Error::IncorrectCommitment(_)) => (ServiceView { handler, ..self }, seq![record]),
            Err(_) => (ServiceView { handler, ..self }, Seq::empty()),
        }
    }

    /// The multicast of a hash is started at the time `now`, with `signature` being this
    /// participant's signature on the hash.
    pub open spec fn on_start_rmc<H: Hasher, K: KeyBox>(
        self,
        handler_keys: &K,
        rmc_keys: &K,
        hash: Hash64,
        now: u64,
        signature: SignatureView,
    ) -> (ServiceView, Seq<ServiceActionView>) {
        if completed(rmc_keys, self.gathered, hash) || has_task(self.tasks, hash) {
            (self, Seq::empty())
        } else {
            let signed = own_signed_hash(rmc_keys, hash, signature);
            let gathered = after_signed_hash(rmc_keys, self.gathered, signed);
            match newly_completed(rmc_keys, self.gathered, signed) {
                Some(multisigned) => (ServiceView { gathered, ..self }).on_multisigned::<H, K>(
                    handler_keys,
                    multisigned,
                ),
                None => (
                    ServiceView {
                        gathered,
                        tasks: self.tasks.push(
                            TaskView {
                                task: RmcMessageView::SignedHash(signed),
                                start: now,
                                fired: 0,
                            },
                        ),
                        ..self
                    },
                    Seq::empty(),
                ),
            }
        }
    }

    /// A message of the reliable multicast goes on to it.
    pub open spec fn on_rmc_message<H: Hasher, K: KeyBox>(
        self,
        handler_keys: &K,
        rmc_keys: &K,
        message: RmcMessageView,
    ) -> (ServiceView, Seq<ServiceActionView>) {
        match message {
            RmcMessageView::SignedHash(signed) => {
                if !signed_hash_valid(rmc_keys, signed) {
                    (self, Seq::empty())
                } else {
                    let gathered = after_signed_hash(rmc_keys, self.gathered, signed);
                    match newly_completed(rmc_keys, self.gathered, signed) {
                        Some(multisigned) => (ServiceView {
                            gathered,
                            tasks: without_hash(self.tasks, signed.signable.hash),
                            ..self
                        }).on_multisigned::<H, K>(handler_keys, multisigned),
                        None => (ServiceView { gathered, ..self }, Seq::empty()),
                    }
                }
            },
            RmcMessageView::MultisignedHash(multisigned) => {
                if completed(rmc_keys, self.gathered, multisigned.signable) || !is_multisignature(
                    rmc_keys,
                    multisigned.signable,
                    multisigned.signature,
                ) {
                    (self, Seq::empty())
                } else {
                    (ServiceView {
                        gathered: self.gathered.insert(
                            multisigned.signable,
                            multisigned.signature,
                        ),
                        tasks: without_hash(self.tasks, multisigned.signable),
                        ..self
                    }).on_multisigned::<H, K>(handler_keys, multisigned)
                }
            },
        }
    }

    /// A message came from the network.
    pub open spec fn on_network_message<H: Hasher, K: KeyBox>(
        self,
        handler_keys: &K,
        rmc_keys: &K,
        node_index: NodeIndex,
        message: AlertMessageView,
    ) -> (ServiceView, Seq<ServiceActionView>) {
        match message {
            AlertMessageView::ForkAlert(alert) => {
                let handler = self.handler.after_network_alert::<H, K>(handler_keys, alert);
                match self.handler.network_alert_result::<H, K>(handler_keys, alert) {
                    Ok(response) => (
                        ServiceView {
                            handler,
                            network_alert_responses: self.network_alert_responses.insert(
                                alert_hash::<H>(alert.signable),
                                response,
                            ),
                            ..self
                        },
                        seq![
                            ServiceActionView::DataForBackup(
                                AlertDataView::NetworkAlert(alert.signable),
                            ),
                        ],
                    ),
                    Err(_) => (ServiceView { handler, ..self }, Seq::empty()),
                }
            },
            AlertMessageView::RmcHash(sender, message) => {
                match self.handler.rmc_message_response(handler_keys, sender, message) {
                    RmcResponseView::RmcMessage(message) => self.on_rmc_message::<H, K>(
                        handler_keys,
                        rmc_keys,
                        message,
                    ),
                    RmcResponseView::AlertRequest(hash, recipient) => (
                        self,
                        seq![
                            ServiceActionView::MessageForNetwork(
                                AlertMessageView::AlertRequest(node_index, hash),
                                recipient,
                            ),
                        ],
                    ),
                    RmcResponseView::Noop => (self, Seq::empty()),
                }
            },
            AlertMessageView::AlertRequest(node, hash) => {
                match self.handler.alert_request_result(node, hash) {
                    Ok((alert, recipient)) => (
                        self,
                        seq![
                            ServiceActionView::MessageForNetwork(
                                AlertMessageView::ForkAlert(alert),
                                recipient,
                            ),
                        ],
                    ),
                    Err(_) => (self, Seq::empty()),
                }
            },
        }
    }

    /// Consensus raised an alert, which got the given signature: the alert goes to the backup,
    /// and its broadcast waits for the backup.
    pub open spec fn on_own_alert<H: Hasher>(self, alert: AlertView, signature: SignatureView) -> (
        ServiceView,
        Seq<ServiceActionView>,
    ) {
        let signed = UncheckedSignedView { signable: alert, signature };
        let hash = alert_hash::<H>(alert);
        (
            ServiceView {
                handler: self.handler.with_own_alert::<H>(signed),
                own_alert_responses: self.own_alert_responses.insert(
                    hash,
                    (AlertMessageView::ForkAlert(signed), Recipient::Everyone, hash),
                ),
                ..self
            },
            seq![ServiceActionView::DataForBackup(AlertDataView::OwnAlert(alert))],
        )
    }

    /// The backup has written a record: what waited for it is done.
    pub open spec fn on_backup_response<H: Hasher, K: KeyBox>(
        self,
        handler_keys: &K,
        rmc_keys: &K,
        data: AlertDataView,
        now: u64,
        signature: SignatureView,
    ) -> (ServiceView, Seq<ServiceActionView>) {
        match data {
            AlertDataView::OwnAlert(alert) => {
                let key = alert_hash::<H>(alert);
                if self.own_alert_responses.contains_key(key) {
                    let (message, recipient, hash) = self.own_alert_responses[key];
                    let waiting = ServiceView {
                        own_alert_responses: self.own_alert_responses.remove(key),
                        ..self
                    };
                    let (after, actions) = waiting.on_start_rmc::<H, K>(
                        handler_keys,
                        rmc_keys,
                        hash,
                        now,
                        signature,
                    );
                    (after, seq![ServiceActionView::MessageForNetwork(message, recipient)] + actions)
                } else {
                    (self, Seq::empty())
                }
            },
            AlertDataView::NetworkAlert(alert) => {
                let key = alert_hash::<H>(alert);
                if self.network_alert_responses.contains_key(key) {
                    let (maybe_notification, hash) = self.network_alert_responses[key];
                    let waiting = ServiceView {
                        network_alert_responses: self.network_alert_responses.remove(key),
                        ..self
                    };
                    let (after, actions) = waiting.on_start_rmc::<H, K>(
                        handler_keys,
                        rmc_keys,
                        hash,
                        now,
                        signature,
                    );
                    (
                        after,
                        actions + match maybe_notification {
                            Some(notification) => seq![
                                ServiceActionView::NotificationForUnits(notification),
                            ],
                            None => Seq::empty(),
                        },
                    )
                } else {
                    (self, Seq::empty())
                }
            },
            AlertDataView::MultisignedHash(multisigned) => {
                let key = multisigned.signable;
                if self.multisigned_notifications.contains_key(key) {
                    (
                        ServiceView {
                            multisigned_notifications: self.multisigned_notifications.remove(key),
                            ..self
                        },
                        seq![
                            ServiceActionView::NotificationForUnits(
                                self.multisigned_notifications[key],
                            ),
                        ],
                    )
                } else {
                    (self, Seq::empty())
                }
            },
        }
    }

    /// Time has passed: the message of the reliable multicast that is due first is sent to
    /// everyone, if one is due by `now`.
    pub open spec fn on_tick(self, node_index: NodeIndex, delay: u64, now: u64) -> (
        ServiceView,
        Seq<ServiceActionView>,
    ) {
        let i = next_index(self.tasks, delay);
        if self.tasks.len() > 0 && due(self.tasks[i], delay) <= now {
            (
                ServiceView {
                    tasks: self.tasks.update(i, fired_once_more(self.tasks[i])),
                    ..self
                },
                seq![
                    ServiceActionView::MessageForNetwork(
                        AlertMessageView::RmcHash(node_index, self.tasks[i].task),
                        Recipient::Everyone,
                    ),
                ],
            )
        } else {
            (self, Seq::empty())
        }
    }

    /// What the service does with one event at the time `now`, `signature` being what the key
    /// box signs with where the event asks for a signature.
    pub open spec fn step<H: Hasher, K: KeyBox>(
        self,
        handler_keys: &K,
        rmc_keys: &K,
        node_index: NodeIndex,
        delay: u64,
        event: ServiceEventView,
        now: u64,
        signature: SignatureView,
    ) -> (ServiceView, Seq<ServiceActionView>) {
        if self.exiting {
            (self, Seq::empty())
        } else {
            match event {
                ServiceEventView::MessageFromNetwork(message) => self.on_network_message::<H, K>(
                    handler_keys,
                    rmc_keys,
                    node_index,
                    message,
                ),
                ServiceEventView::AlertFromUnits(alert) => self.on_own_alert::<H>(alert, signature),
                ServiceEventView::ResponseFromBackup(data) => self.on_backup_response::<H, K>(
                    handler_keys,
                    rmc_keys,
                    data,
                    now,
                    signature,
                ),
                ServiceEventView::Tick => self.on_tick(node_index, delay, now),
                ServiceEventView::Exit => (ServiceView { exiting: true, ..self }, Seq::empty()),
            }
        }
    }

    /// The hash that the event has signed, if it has one signed, and whether the key box of the
    /// reliable multicast signs it.
    pub open spec fn signed_in_step<H: Hasher, K: KeyBox>(
        self,
        rmc_keys: &K,
        event: ServiceEventView,
    ) -> Option<(bool, Hash64)> {
        if self.exiting {
            None
        } else {
            match event {
                ServiceEventView::AlertFromUnits(alert) => Some((false, alert_hash::<H>(alert))),
                ServiceEventView::ResponseFromBackup(AlertDataView::OwnAlert(alert)) => {
                    let key = alert_hash::<H>(alert);
                    if self.own_alert_responses.contains_key(key) {
                        self.signed_in_start(rmc_keys, self.own_alert_responses[key].2)
                    } else {
                        None
                    }
                },
                ServiceEventView::ResponseFromBackup(AlertDataView::NetworkAlert(alert)) => {
                    let key = alert_hash::<H>(alert);
                    if self.network_alert_responses.contains_key(key) {
                        self.signed_in_start(rmc_keys, self.network_alert_responses[key].1)
                    } else {
                        None
                    }
                },
                _ => None,
            }
        }
    }

    /// The hash that starting its multicast has signed, if the start signs.
    pub open spec fn signed_in_start<K: KeyBox>(self, rmc_keys: &K, hash: Hash64) -> Option<
        (bool, Hash64),
    > {
        if completed(rmc_keys, self.gathered, hash) || has_task(self.tasks, hash) {
            None
        } else {
            Some((true, hash))
        }
    }

    /// The signature is what the step asks for: this participant's signature on the hash that
    /// the event has signed.
    pub open spec fn signature_fits<H: Hasher, K: KeyBox>(
        self,
        handler_keys: &K,
        rmc_keys: &K,
        event: ServiceEventView,
        signature: SignatureView,
    ) -> bool {
        match self.signed_in_step::<H, K>(rmc_keys, event) {
            Some((true, hash)) => signs_hash(rmc_keys, hash, signature, rmc_keys.spec_index()),
            Some((false, hash)) => signs_hash(
                handler_keys,
                hash,
                signature,
                handler_keys.spec_index(),
            ),
            None => true,
        }
    }

    /// Starting the multicast of `hash` with the given signature leads to `after` and asks
    /// for `actions`; the signature is this participant's where the start signs.
    pub open spec fn start_with<H: Hasher, K: KeyBox>(
        self,
        handler_keys: &K,
        rmc_keys: &K,
        hash: Hash64,
        now: u64,
        signature: SignatureView,
        after: ServiceView,
        actions: Seq<ServiceActionView>,
    ) -> bool {
        &&& self.signed_in_start(rmc_keys, hash) is Some ==> signs_hash(
            rmc_keys,
            hash,
            signature,
            rmc_keys.spec_index(),
        )
        &&& (after, actions) == self.on_start_rmc::<H, K>(
            handler_keys,
            rmc_keys,
            hash,
            now,
            signature,
        )
    }

    /// Raising the alert with the given signature, which is this participant's, leads to
    /// `after` and asks for `actions`.
    pub open spec fn own_alert_with<H: Hasher, K: KeyBox>(
        self,
        handler_keys: &K,
        alert: AlertView,
        signature: SignatureView,
        after: ServiceView,
        actions: Seq<ServiceActionView>,
    ) -> bool {
        &&& signs_hash(
            handler_keys,
            alert_hash::<H>(alert),
            signature,
            handler_keys.spec_index(),
        )
        &&& (after, actions) == self.on_own_alert::<H>(alert, signature)
    }

    /// The event, with the given signature where it asks for one, leads to `after` and asks
    /// for `actions`.
    pub open spec fn step_with<H: Hasher, K: KeyBox>(
        self,
        handler_keys: &K,
        rmc_keys: &K,
        node_index: NodeIndex,
        delay: u64,
        event: ServiceEventView,
        now: u64,
        signature: SignatureView,
        after: ServiceView,
        actions: Seq<ServiceActionView>,
    ) -> bool {
        &&& self.signature_fits::<H, K>(handler_keys, rmc_keys, event, signature)
        &&& (after, actions) == self.step::<H, K>(
            handler_keys,
            rmc_keys,
            node_index,
            delay,
            event,
            now,
            signature,
        )
    }

    /// What the service does with the events, one after the other, each with its time and with
    /// the signature that it asks for.
    pub open spec fn run<H: Hasher, K: KeyBox>(
        self,
        handler_keys: &K,
        rmc_keys: &K,
        node_index: NodeIndex,
        delay: u64,
        events: Seq<(ServiceEventView, u64)>,
        signatures: Seq<SignatureView>,
    ) -> (ServiceView, Seq<ServiceActionView>)
        decreases events.len(),
    {
        if events.len() == 0 {
            (self, Seq::empty())
        } else {
            let (before, actions) = self.run::<H, K>(
                handler_keys,
                rmc_keys,
                node_index,
                delay,
                events.drop_last(),
                signatures.drop_last(),
            );
            let (after, more) = before.step::<H, K>(
                handler_keys,
                rmc_keys,
                node_index,
                delay,
                events.last().0,
                events.last().1,
                signatures.last(),
            );
            (after, actions + more)
        }
    }

    /// Each signature is what its event asks for.
    pub open spec fn signatures_fit<H: Hasher, K: KeyBox>(
        self,
        handler_keys: &K,
        rmc_keys: &K,
        node_index: NodeIndex,
        delay: u64,
        events: Seq<(ServiceEventView, u64)>,
        signatures: Seq<SignatureView>,
    ) -> bool
        decreases events.len(),
    {
        events.len() == 0 || {
            &&& self.signatures_fit::<H, K>(
                handler_keys,
                rmc_keys,
                node_index,
                delay,
                events.drop_last(),
                signatures.drop_last(),
            )
            &&& self.run::<H, K>(
                handler_keys,
                rmc_keys,
                node_index,
                delay,
                events.drop_last(),
                signatures.drop_last(),
            ).0.signature_fits::<H, K>(handler_keys, rmc_keys, events.last().0, signatures.last())
        }
    }

    /// The events, with the given signatures, lead to `after` and ask for `actions`.
    pub open spec fn run_with<H: Hasher, K: KeyBox>(
        self,
        handler_keys: &K,
        rmc_keys: &K,
        node_index: NodeIndex,
        delay: u64,
        events: Seq<(ServiceEventView, u64)>,
        signatures: Seq<SignatureView>,
        after: ServiceView,
        actions: Seq<ServiceActionView>,
    ) -> bool {
        &&& signatures.len() == events.len()
        &&& self.signatures_fit::<H, K>(
            handler_keys,
            rmc_keys,
            node_index,
            delay,
            events,
            signatures,
        )
        &&& (after, actions) == self.run::<H, K>(
            handler_keys,
            rmc_keys,
            node_index,
            delay,
            events,
            signatures,
        )
    }
}

/// Every list of tasks that is not empty has a task that is sent next.
pub proof fn lemma_next_exists(tasks: Seq<TaskView>, delay: u64)
    requires
        tasks.len() > 0,
    ensures
        is_next(tasks, delay, next_index(tasks, delay)),
    decreases tasks.len(),
{
    if tasks.len() == 1 {
        assert(is_next(tasks, delay, 0));
    } else {
        let front = tasks.drop_last();
        lemma_next_exists(front, delay);
        let i = next_index(front, delay);
        let last = tasks.len() - 1;
        if due(tasks[last], delay) < due(front[i], delay) {
            assert forall|j: int| 0 <= j < tasks.len() implies due(tasks[last], delay) <= due(
                #[trigger] tasks[j],
                delay,
            ) by {
                if j < last {
                    assert(due(front[i], delay) <= due(front[j], delay));
                }
            }
            assert forall|j: int| 0 <= j < last implies due(tasks[last], delay) < due(
                #[trigger] tasks[j],
                delay,
            ) by {
                assert(due(front[i], delay) <= due(front[j], delay));
            }
            assert(is_next(tasks, delay, last));
        } else {
            assert forall|j: int| 0 <= j < tasks.len() implies due(tasks[i], delay) <= due(
                #[trigger] tasks[j],
                delay,
            ) by {
                if j < last {
                    assert(due(front[i], delay) <= due(front[j], delay));
                }
            }
            assert forall|j: int| 0 <= j < i implies due(tasks[i], delay) < due(
                #[trigger] tasks[j],
                delay,
            ) by {
                assert(due(front[i], delay) < due(front[j], delay));
            }
            assert(is_next(tasks, delay, i));
        }
    }
}

/// The delay, in milliseconds, between the first and the second sending of a message of the
/// reliable multicast, unless another is asked for.
pub const DEFAULT_DELAY_MILLIS: u64 = 500;

/// The alert service of one participant.
pub struct Service<H: Hasher, K: KeyBox> {
    handler: Handler<H, K>,
    rmc: RmcService<K>,
    own_alert_responses: HashMap<Hash64, OnOwnAlertResponse>,
    network_alert_responses: HashMap<Hash64, OnNetworkAlertResponse>,
    multisigned_notifications: HashMap<Hash64, ForkingNotification>,
    node_index: NodeIndex,
    exiting: bool,
}

impl<H: Hasher, K: KeyBox> View for Service<H, K> {
    type V = ServiceView;

    closed spec fn view(&self) -> ServiceView {
        ServiceView {
            handler: self.handler@,
            gathered: self.rmc.gathered(),
            tasks: self.rmc.tasks(),
            own_alert_responses: Map::new(
                |h: Hash64| self.own_alert_responses@.contains_key(h),
                |h: Hash64| self.own_alert_responses@[h].deep_view(),
            ),
            network_alert_responses: Map::new(
                |h: Hash64| self.network_alert_responses@.contains_key(h),
                |h: Hash64| self.network_alert_responses@[h].deep_view(),
            ),
            multisigned_notifications: Map::new(
                |h: Hash64| self.multisigned_notifications@.contains_key(h),
                |h: Hash64| self.multisigned_notifications@[h].deep_view(),
            ),
            exiting: self.exiting,
        }
    }
}

fn no_actions() -> (actions: Vec<ServiceAction>)
    ensures
        actions.deep_view() == Seq::<ServiceActionView>::empty(),
{
    let actions: Vec<ServiceAction> = Vec::new();
    proof {
        assert(actions.deep_view() =~= Seq::<ServiceActionView>::empty());
    }
    actions
}

fn one_action(action: ServiceAction) -> (actions: Vec<ServiceAction>)
    ensures
        actions.deep_view() == seq![action.deep_view()],
{
    let mut actions: Vec<ServiceAction> = Vec::new();
    actions.push(action);
    proof {
        assert(actions.deep_view() =~= seq![action.deep_view()]);
    }
    actions
}

fn join_actions(first: Vec<ServiceAction>, second: Vec<ServiceAction>) -> (actions: Vec<
    ServiceAction,
>)
    ensures
        actions.deep_view() == first.deep_view() + second.deep_view(),
{
    let mut actions = first;
    let mut rest = second;
    actions.append(&mut rest);
    proof {
        assert(actions.deep_view() =~= first.deep_view() + second.deep_view());
    }
    actions
}

impl<H: Hasher, K: KeyBox> Service<H, K> {
    /// The key box that the alerts are signed and checked with.
    pub closed spec fn handler_keys(&self) -> &K {
        self.handler.keychain()
    }

    /// The key box that the hashes of the reliable multicast are signed and checked with.
    pub closed spec fn rmc_keys(&self) -> &K {
        self.rmc.keychain()
    }

    /// The index of this participant.
    pub closed spec fn node_index(&self) -> NodeIndex {
        self.node_index
    }

    /// The delay between the first and the second sending of a message of the reliable
    /// multicast.
    pub closed spec fn delay(&self) -> u64 {
        self.rmc.delay()
    }

    /// The two services have the same keys, index and delay.
    pub open spec fn same_setting(&self, other: &Self) -> bool {
        &&& self.handler_keys() == other.handler_keys()
        &&& self.rmc_keys() == other.rmc_keys()
        &&& self.node_index() == other.node_index()
        &&& self.delay() == other.delay()
    }

    /// The service's parts and tables are in order.
    pub closed spec fn wf(&self) -> bool {
        &&& self.handler.wf()
        &&& self.rmc.wf()
        &&& self@.wf::<H>()
    }

    /// What is in order in the service is in order in what it holds.
    pub proof fn lemma_wf(&self)
        requires
            self.wf(),
        ensures
            self@.wf::<H>(),
    {
    }

    /// A service that multicasts with the default delay.
    pub fn new(keychain: K, handler: Handler<H, K>) -> (service: Self)
        requires
            handler.wf(),
        ensures
            service.wf(),
            service.handler_keys() == handler.keychain(),
            *service.rmc_keys() == keychain,
            service.node_index() == keychain.spec_index(),
            service.delay() == DEFAULT_DELAY_MILLIS,
            service@ == (ServiceView {
                handler: handler@,
                gathered: Map::empty(),
                tasks: Seq::empty(),
                own_alert_responses: Map::empty(),
                network_alert_responses: Map::empty(),
                multisigned_notifications: Map::empty(),
                exiting: false,
            }),
    {
        Self::with_delay(keychain, handler, DEFAULT_DELAY_MILLIS)
    }

    /// A service that multicasts with the given delay, in milliseconds.
    pub fn with_delay(keychain: K, handler: Handler<H, K>, delay: u64) -> (service: Self)
        requires
            handler.wf(),
        ensures
            service.wf(),
            service.handler_keys() == handler.keychain(),
            *service.rmc_keys() == keychain,
            service.node_index() == keychain.spec_index(),
            service.delay() == delay,
            service@ == (ServiceView {
                handler: handler@,
                gathered: Map::empty(),
                tasks: Seq::empty(),
                own_alert_responses: Map::empty(),
                network_alert_responses: Map::empty(),
                multisigned_notifications: Map::empty(),
                exiting: false,
            }),
    {
        let node_index = keychain.index();
        let rmc_handler = crate::rmc::handler::Handler::new(keychain);
        let rmc = RmcService::new(DoublingDelayScheduler::new(delay), rmc_handler);
        let service = Service {
            handler,
            rmc,
            own_alert_responses: HashMap::new(),
            network_alert_responses: HashMap::new(),
            multisigned_notifications: HashMap::new(),
            node_index,
            exiting: false,
        };
        proof {
            assert(service@.own_alert_responses =~= Map::empty());
            assert(service@.network_alert_responses =~= Map::empty());
            assert(service@.multisigned_notifications =~= Map::empty());
        }
        service
    }

    /// Whether the service has stopped.
    pub fn is_exiting(&self) -> (exiting: bool)
        ensures
            exiting == self@.exiting,
    {
        self.exiting
    }

    /// The time at which the reliable multicast next has something to send, if it has anything.
    pub fn next_instant(&self) -> (instant: Option<u64>)
        requires
            self.wf(),
        ensures
            match instant {
                Some(time) => self@.tasks.len() > 0 && time == due(
                    self@.tasks[next_index(self@.tasks, self.delay())],
                    self.delay(),
                ),
                None => self@.tasks.len() == 0,
            },
    {
        let instant = self.rmc.next_instant();
        proof {
            if let Some(time) = instant {
                let i = choose|i: int|
                    is_next(self.rmc.tasks(), self.rmc.delay(), i) && time == due(
                        self.rmc.tasks()[i],
                        self.rmc.delay(),
                    );
                lemma_next_unique(self.rmc.tasks(), self.rmc.delay(), i);
            }
        }
        instant
    }

    fn handle_multisigned(&mut self, multisigned: Multisigned) -> (actions: Vec<ServiceAction>)
        requires
            old(self).wf(),
        ensures
            final(self).wf(),
            final(self).same_setting(old(self)),
            (final(self)@, actions.deep_view()) == old(self)@.on_multisigned::<H, K>(
                old(self).handler_keys(),
                multisigned.deep_view(),
            ),
    {
        let hash = multisigned.signable;
        match self.handler.alert_confirmed(&multisigned) {
            Ok(notification) => {
                let ghost kept = notification.deep_view();
                self.multisigned_notifications.insert(hash, notification);
                proof {
                    assert(self@.multisigned_notifications =~= old(
                        self,
                    )@.multisigned_notifications.insert(hash, kept));
                    let alert = old(self)@.handler.alerts[hash].signable;
                    assert(alert_hash::<H>(alert) == hash && alert.legit_units
                        == alert.legit_units);
                }
                one_action(ServiceAction::DataForBackup(AlertData::MultisignedHash(multisigned)))
            },
            Err(Error::IncorrectCommitment(_)) => one_action(
                ServiceAction::DataForBackup(AlertData::MultisignedHash(multisigned)),
            ),
            Err(_) => no_actions(),
        }
    }

    fn start_rmc(&mut self, hash: Hash64, now: u64) -> (actions: Vec<ServiceAction>)
        requires
            old(self).wf(),
        ensures
            final(self).wf(),
            final(self).same_setting(old(self)),
            exists|signature: SignatureView|
                old(self)@.start_with::<H, K>(
                    old(self).handler_keys(),
                    old(self).rmc_keys(),
                    hash,
                    now,
                    signature,
                    final(self)@,
                    actions.deep_view(),
                ),
    {
        let new = self.rmc.start_rmc(hash, now);
        let ghost started = self@;
        let ghost signature = if old(self)@.signed_in_start(old(self).rmc_keys(), hash) is Some {
            let signed = choose|signed: SignedHashView|
                start_outcome(
                    old(self).rmc.keychain(),
                    old(self).rmc.gathered(),
                    old(self).rmc.tasks(),
                    hash,
                    now,
                    signed,
                    self.rmc.gathered(),
                    self.rmc.tasks(),
                    new.deep_view(),
                );
            signed.signature
        } else {
            SignatureView { bytes: Seq::empty() }
        };
        proof {
            if old(self)@.signed_in_start(old(self).rmc_keys(), hash) is Some {
                assert(own_signed_hash(old(self).rmc_keys(), hash, signature).signable == (
                IndexedHashView { hash, index: old(self).rmc.keychain().spec_index() }));
            }
        }
        let actions = match new {
            Some(multisigned) => self.handle_multisigned(multisigned),
            None => no_actions(),
        };
        proof {
            assert((self@, actions.deep_view()) == old(self)@.on_start_rmc::<H, K>(
                old(self).handler_keys(),
                old(self).rmc_keys(),
                hash,
                now,
                signature,
            ));
            assert(old(self)@.start_with::<H, K>(
                old(self).handler_keys(),
                old(self).rmc_keys(),
                hash,
                now,
                signature,
                self@,
                actions.deep_view(),
            ));
        }
        actions
    }

    fn handle_rmc_message(&mut self, message: RmcMessage) -> (actions: Vec<ServiceAction>)
        requires
            old(self).wf(),
        ensures
            final(self).wf(),
            final(self).same_setting(old(self)),
            (final(self)@, actions.deep_view()) == old(self)@.on_rmc_message::<H, K>(
                old(self).handler_keys(),
                old(self).rmc_keys(),
                message.deep_view(),
            ),
    {
        match self.rmc.on_message(message) {
            Ok(Some(multisigned)) => self.handle_multisigned(multisigned),
            _ => no_actions(),
        }
    }

    /// Takes a message that another participant sent.
    pub fn handle_message_from_network(&mut self, message: AlertMessage) -> (actions: Vec<
        ServiceAction,
    >)
        requires
            old(self).wf(),
        ensures
            final(self).wf(),
            final(self).same_setting(old(self)),
            (final(self)@, actions.deep_view()) == old(self)@.on_network_message::<H, K>(
                old(self).handler_keys(),
                old(self).rmc_keys(),
                old(self).node_index(),
                message.deep_view(),
            ),
    {
        match message {
            AlertMessage::ForkAlert(alert) => {
                let contents = alert.signable.duplicate();
                let hash = contents.hash::<H>();
                match self.handler.on_network_alert(alert) {
                    Ok(response) => {
                        let ghost kept = response.deep_view();
                        self.network_alert_responses.insert(hash, response);
                        proof {
                            assert(self@.network_alert_responses =~= old(
                                self,
                            )@.network_alert_responses.insert(hash, kept));
                        }
                        one_action(ServiceAction::DataForBackup(AlertData::NetworkAlert(contents)))
                    },
                    Err(_) => no_actions(),
                }
            },
            AlertMessage::RmcHash(sender, message) => {
                match self.handler.on_rmc_message(sender, message) {
                    RmcResponse::RmcMessage(message) => self.handle_rmc_message(message),
                    RmcResponse::AlertRequest(hash, recipient) => one_action(
                        ServiceAction::MessageForNetwork(
                            AlertMessage::AlertRequest(self.node_index, hash),
                            recipient,
                        ),
                    ),
                    RmcResponse::Noop => no_actions(),
                }
            },
            AlertMessage::AlertRequest(node, hash) => {
                match self.handler.on_alert_request(node, hash) {
                    Ok((alert, recipient)) => one_action(
                        ServiceAction::MessageForNetwork(AlertMessage::ForkAlert(alert), recipient),
                    ),
                    Err(_) => no_actions(),
                }
            },
        }
    }

    /// Takes an alert that consensus raises.
    pub fn handle_alert_from_runway(&mut self, alert: Alert) -> (actions: Vec<ServiceAction>)
        requires
            old(self).wf(),
        ensures
            final(self).wf(),
            final(self).same_setting(old(self)),
            exists|signature: SignatureView|
                old(self)@.own_alert_with::<H, K>(
                    old(self).handler_keys(),
                    alert.deep_view(),
                    signature,
                    final(self)@,
                    actions.deep_view(),
                ),
    {
        let contents = alert.duplicate();
        let response = self.handler.on_own_alert(alert);
        let hash = response.2;
        let ghost kept = response.deep_view();
        self.own_alert_responses.insert(hash, response);
        let actions = one_action(ServiceAction::DataForBackup(AlertData::OwnAlert(contents)));
        proof {
            assert(self@.own_alert_responses =~= old(self)@.own_alert_responses.insert(hash, kept));
            let signed = kept.0->ForkAlert_0;
            assert(old(self)@.own_alert_with::<H, K>(
                old(self).handler_keys(),
                alert.deep_view(),
                signed.signature,
                self@,
                actions.deep_view(),
            ));
        }
        actions
    }

    fn release_own_alert(&mut self, alert: Alert, now: u64) -> (actions: Vec<ServiceAction>)
        requires
            old(self).wf(),
            !old(self)@.exiting,
        ensures
            final(self).wf(),
            final(self).same_setting(old(self)),
            exists|signature: SignatureView|
                old(self)@.step_with::<H, K>(
                    old(self).handler_keys(),
                    old(self).rmc_keys(),
                    old(self).node_index(),
                    old(self).delay(),
                    ServiceEventView::ResponseFromBackup(
                            AlertDataView::OwnAlert(alert.deep_view()),
                        ),
                    now,
                    signature,
                    final(self)@,
                    actions.deep_view(),
                ),
    {
        let ghost data = AlertDataView::OwnAlert(alert.deep_view());
        let ghost event = ServiceEventView::ResponseFromBackup(data);
        let key = alert.hash::<H>();
        match self.own_alert_responses.remove(&key) {
            Some((message, recipient, hash)) => {
                proof {
                    assert(self@.own_alert_responses =~= old(self)@.own_alert_responses.remove(
                        key,
                    ));
                }
                let ghost waiting = self@;
                let first = one_action(ServiceAction::MessageForNetwork(message, recipient));
                let more = self.start_rmc(hash, now);
                let actions = join_actions(first, more);
                proof {
                    let signature = choose|signature: SignatureView|
                        waiting.start_with::<H, K>(
                            old(self).handler_keys(),
                            old(self).rmc_keys(),
                            hash,
                            now,
                            signature,
                            self@,
                            more.deep_view(),
                        );
                    assert(waiting.signed_in_start(old(self).rmc_keys(), hash) == old(
                        self,
                    )@.signed_in_start(old(self).rmc_keys(), hash));
                    assert(old(self)@.step_with::<H, K>(
                        old(self).handler_keys(),
                        old(self).rmc_keys(),
                        old(self).node_index(),
                        old(self).delay(),
                        event,
                        now,
                        signature,
                        self@,
                        actions.deep_view(),
                    ));
                }
                actions
            },
            None => {
                let actions = no_actions();
                proof {
                    assert(self@.own_alert_responses =~= old(self)@.own_alert_responses);
                    assert(old(self)@.step_with::<H, K>(
                        old(self).handler_keys(),
                        old(self).rmc_keys(),
                        old(self).node_index(),
                        old(self).delay(),
                        event,
                        now,
                        SignatureView { bytes: Seq::empty() },
                        self@,
                        actions.deep_view(),
                    ));
                }
                actions
            },
        }
    }

    fn release_network_alert(&mut self, alert: Alert, now: u64) -> (actions: Vec<ServiceAction>)
        requires
            old(self).wf(),
            !old(self)@.exiting,
        ensures
            final(self).wf(),
            final(self).same_setting(old(self)),
            exists|signature: SignatureView|
                old(self)@.step_with::<H, K>(
                    old(self).handler_keys(),
                    old(self).rmc_keys(),
                    old(self).node_index(),
                    old(self).delay(),
                    ServiceEventView::ResponseFromBackup(
                            AlertDataView::NetworkAlert(alert.deep_view()),
                        ),
                    now,
                    signature,
                    final(self)@,
                    actions.deep_view(),
                ),
    {
        let ghost data = AlertDataView::NetworkAlert(alert.deep_view());
        let ghost event = ServiceEventView::ResponseFromBackup(data);
        let key = alert.hash::<H>();
        match self.network_alert_responses.remove(&key) {
            Some((maybe_notification, hash)) => {
                proof {
                    assert(self@.network_alert_responses =~= old(
                        self,
                    )@.network_alert_responses.remove(key));
                }
                let ghost waiting = self@;
                let first = self.start_rmc(hash, now);
                let more = match maybe_notification {
                    Some(notification) => one_action(
                        ServiceAction::NotificationForUnits(notification),
                    ),
                    None => no_actions(),
                };
                let actions = join_actions(first, more);
                proof {
                    let signature = choose|signature: SignatureView|
                        waiting.start_with::<H, K>(
                            old(self).handler_keys(),
                            old(self).rmc_keys(),
                            hash,
                            now,
                            signature,
                            self@,
                            first.deep_view(),
                        );
                    assert(waiting.signed_in_start(old(self).rmc_keys(), hash) == old(
                        self,
                    )@.signed_in_start(old(self).rmc_keys(), hash));
                    assert(old(self)@.step_with::<H, K>(
                        old(self).handler_keys(),
                        old(self).rmc_keys(),
                        old(self).node_index(),
                        old(self).delay(),
                        event,
                        now,
                        signature,
                        self@,
                        actions.deep_view(),
                    ));
                }
                actions
            },
            None => {
                let actions = no_actions();
                proof {
                    assert(self@.network_alert_responses =~= old(self)@.network_alert_responses);
                    assert(old(self)@.step_with::<H, K>(
                        old(self).handler_keys(),
                        old(self).rmc_keys(),
                        old(self).node_index(),
                        old(self).delay(),
                        event,
                        now,
                        SignatureView { bytes: Seq::empty() },
                        self@,
                        actions.deep_view(),
                    ));
                }
                actions
            },
        }
    }

    fn release_units(&mut self, multisigned: Multisigned, now: u64) -> (actions: Vec<ServiceAction>)
        requires
            old(self).wf(),
        ensures
            final(self).wf(),
            final(self).same_setting(old(self)),
            forall|signature: SignatureView|
                (final(self)@, actions.deep_view()) == old(self)@.on_backup_response::<H, K>(
                    old(self).handler_keys(),
                    old(self).rmc_keys(),
                    AlertDataView::MultisignedHash(multisigned.deep_view()),
                    now,
                    signature,
                ),
    {
        let key = multisigned.signable;
        match self.multisigned_notifications.remove(&key) {
            Some(notification) => {
                proof {
                    assert(self@.multisigned_notifications =~= old(
                        self,
                    )@.multisigned_notifications.remove(key));
                }
                one_action(ServiceAction::NotificationForUnits(notification))
            },
            None => {
                proof {
                    assert(self@.multisigned_notifications =~= old(self)@.multisigned_notifications);
                }
                no_actions()
            },
        }
    }

    /// Takes the backup's word that a record is written: what waited for the record is done.
    pub fn handle_data_from_backup(&mut self, data: AlertData, now: u64) -> (actions: Vec<
        ServiceAction,
    >)
        requires
            old(self).wf(),
            !old(self)@.exiting,
        ensures
            final(self).wf(),
            final(self).same_setting(old(self)),
            exists|signature: SignatureView|
                old(self)@.step_with::<H, K>(
                    old(self).handler_keys(),
                    old(self).rmc_keys(),
                    old(self).node_index(),
                    old(self).delay(),
                    ServiceEventView::ResponseFromBackup(data.deep_view()),
                    now,
                    signature,
                    final(self)@,
                    actions.deep_view(),
                ),
    {
        match data {
            AlertData::OwnAlert(alert) => self.release_own_alert(alert, now),
            AlertData::NetworkAlert(alert) => self.release_network_alert(alert, now),
            AlertData::MultisignedHash(multisigned) => {
                let actions = self.release_units(multisigned, now);
                proof {
                    let unused = SignatureView { bytes: Seq::empty() };
                    assert(old(self)@.step_with::<H, K>(
                        old(self).handler_keys(),
                        old(self).rmc_keys(),
                        old(self).node_index(),
                        old(self).delay(),
                        ServiceEventView::ResponseFromBackup(data.deep_view()),
                        now,
                        unused,
                        self@,
                        actions.deep_view(),
                    ));
                }
                actions
            },
        }
    }

    /// Sends the message of the reliable multicast that is due first, if one is due by `now`.
    pub fn handle_tick(&mut self, now: u64) -> (actions: Vec<ServiceAction>)
        requires
            old(self).wf(),
        ensures
            final(self).wf(),
            final(self).same_setting(old(self)),
            (final(self)@, actions.deep_view()) == old(self)@.on_tick(
                old(self).node_index(),
                old(self).delay(),
                now,
            ),
    {
        match self.rmc.next_message(now) {
            Some(message) => {
                proof {
                    let tasks = old(self).rmc.tasks();
                    let delay = old(self).rmc.delay();
                    let i = choose|i: int|
                        {
                            &&& is_next(tasks, delay, i)
                            &&& due(tasks[i], delay) <= now
                            &&& message.deep_view() == tasks[i].task
                            &&& self.rmc.tasks() == tasks.update(i, fired_once_more(tasks[i]))
                        };
                    lemma_next_unique(tasks, delay, i);
                }
                one_action(
                    ServiceAction::MessageForNetwork(
                        AlertMessage::RmcHash(self.node_index, message),
                        Recipient::Everyone,
                    ),
                )
            },
            None => {
                proof {
                    let tasks = old(self).rmc.tasks();
                    let delay = old(self).rmc.delay();
                    if tasks.len() > 0 {
                        lemma_next_exists(tasks, delay);
                    }
                }
                no_actions()
            },
        }
    }

    /// Takes one event at the time `now`, in milliseconds, and gives what is to be done, in
    /// order. A service that has stopped does nothing.
    pub fn handle_event(&mut self, event: ServiceEvent, now: u64) -> (actions: Vec<ServiceAction>)
        requires
            old(self).wf(),
        ensures
            final(self).wf(),
            final(self).same_setting(old(self)),
            exists|signature: SignatureView|
                old(self)@.step_with::<H, K>(
                    old(self).handler_keys(),
                    old(self).rmc_keys(),
                    old(self).node_index(),
                    old(self).delay(),
                    event.deep_view(),
                    now,
                    signature,
                    final(self)@,
                    actions.deep_view(),
                ),
    {
        let ghost unused = SignatureView { bytes: Seq::empty() };
        let ghost view = event.deep_view();
        if self.exiting {
            let actions = no_actions();
            proof {
                assert(old(self)@.step_with::<H, K>(
                    old(self).handler_keys(),
                    old(self).rmc_keys(),
                    old(self).node_index(),
                    old(self).delay(),
                    view,
                    now,
                    unused,
                    self@,
                    actions.deep_view(),
                ));
            }
            return actions;
        }
        match event {
            ServiceEvent::MessageFromNetwork(message) => {
                let actions = self.handle_message_from_network(message);
                proof {
                    assert(old(self)@.step_with::<H, K>(
                        old(self).handler_keys(),
                        old(self).rmc_keys(),
                        old(self).node_index(),
                        old(self).delay(),
                        view,
                        now,
                        unused,
                        self@,
                        actions.deep_view(),
                    ));
                }
                actions
            },
            ServiceEvent::AlertFromUnits(alert) => {
                let actions = self.handle_alert_from_runway(alert);
                proof {
                    let signature = choose|signature: SignatureView|
                        old(self)@.own_alert_with::<H, K>(
                            old(self).handler_keys(),
                            alert.deep_view(),
                            signature,
                            self@,
                            actions.deep_view(),
                        );
                    assert(old(self)@.step_with::<H, K>(
                        old(self).handler_keys(),
                        old(self).rmc_keys(),
                        old(self).node_index(),
                        old(self).delay(),
                        view,
                        now,
                        signature,
                        self@,
                        actions.deep_view(),
                    ));
                }
                actions
            },
            ServiceEvent::ResponseFromBackup(data) => self.handle_data_from_backup(data, now),
            ServiceEvent::Tick => {
                let actions = self.handle_tick(now);
                proof {
                    assert(old(self)@.step_with::<H, K>(
                        old(self).handler_keys(),
                        old(self).rmc_keys(),
                        old(self).node_index(),
                        old(self).delay(),
                        view,
                        now,
                        unused,
                        self@,
                        actions.deep_view(),
                    ));
                }
                actions
            },
            ServiceEvent::Exit => {
                self.exiting = true;
                proof {
                    assert(self@.own_alert_responses =~= old(self)@.own_alert_responses);
                    assert(self@.network_alert_responses =~= old(self)@.network_alert_responses);
                    assert(self@.multisigned_notifications =~= old(
                        self,
                    )@.multisigned_notifications);
                }
                let actions = no_actions();
                proof {
                    assert(old(self)@.step_with::<H, K>(
                        old(self).handler_keys(),
                        old(self).rmc_keys(),
                        old(self).node_index(),
                        old(self).delay(),
                        view,
                        now,
                        unused,
                        self@,
                        actions.deep_view(),
                    ));
                }
                actions
            },
        }
    }

    /// Takes the events in their order, each with its time in milliseconds, and gives what is to
    /// be done, in order. Events that come after the service has stopped do nothing.
    pub fn run(&mut self, events: Vec<(ServiceEvent, u64)>) -> (actions: Vec<ServiceAction>)
        requires
            old(self).wf(),
        ensures
            final(self).wf(),
            final(self).same_setting(old(self)),
            exists|signatures: Seq<SignatureView>|
                old(self)@.run_with::<H, K>(
                    old(self).handler_keys(),
                    old(self).rmc_keys(),
                    old(self).node_index(),
                    old(self).delay(),
                    events.deep_view(),
                    signatures,
                    final(self)@,
                    actions.deep_view(),
                ),
    {
        let mut actions = no_actions();
        let ghost all = events.deep_view();
        let ghost items = events@;
        let ghost mut signatures: Seq<SignatureView> = Seq::empty();
        proof {
            assert(all.take(0) =~= Seq::empty());
        }
        for item in it: events
            invariant
                it.seq() == items,
                all == items.map_values(|e: (ServiceEvent, u64)| e.deep_view()),
                self.wf(),
                self.same_setting(old(self)),
                old(self)@.run_with::<H, K>(
                    old(self).handler_keys(),
                    old(self).rmc_keys(),
                    old(self).node_index(),
                    old(self).delay(),
                    all.take(it.index() as int),
                    signatures,
                    self@,
                    actions.deep_view(),
                ),
        {
            let (event, now) = item;
            let ghost before = self@;
            let ghost done = all.take(it.index() as int);
            let ghost view = event.deep_view();
            let more = self.handle_event(event, now);
            proof {
                let signature = choose|signature: SignatureView|
                    before.step_with::<H, K>(
                        old(self).handler_keys(),
                        old(self).rmc_keys(),
                        old(self).node_index(),
                        old(self).delay(),
                        view,
                        now,
                        signature,
                        self@,
                        more.deep_view(),
                    );
                let next = all.take(it.index() + 1);
                assert(next.drop_last() =~= done);
                assert(next.last() == (view, now));
                assert(signatures.push(signature).drop_last() =~= signatures);
                signatures = signatures.push(signature);
            }
            actions = join_actions(actions, more);
        }
        proof {
            assert(all.take(all.len() as int) =~= all);
            assert(all =~= events.deep_view());
        }
        actions
    }
}

} // verus!

//! The reliable multicast as one state machine: it takes the messages that come in and the
//! time, and says what is to be sent and which multisignatures are new.

use crate::crypto::{
    is_multisignature, signed_hash_valid, IndexedHashView, KeyBox, Multisigned, MultisignedView,
    SignedHashView,
};
use crate::nodes::{Hash64, Index};
use crate::rmc::handler::{
    after_signed_hash, completed, newly_completed, Error, Handler, OnStartRmcResponse, RmcView,
};
use crate::rmc::scheduler::{
    due, fired_once_more, is_next, without_hash, DoublingDelayScheduler, TaskView,
};
use crate::rmc::{message_hash, RmcMessage, RmcMessageView};
use crate::value::Value;
use vstd::prelude::*;

verus! {

/// What is handed to the reliable multicast.
#[derive(Debug, PartialEq, Eq)]
pub enum RmcIncomingMessage {
    /// A message that another participant sent.
    RmcHash(RmcMessage),
    /// The order to multicast a hash.
    StartRmc(Hash64),
}

/// What the reliable multicast hands out.
#[derive(Debug, PartialEq, Eq)]
pub enum RmcOutgoingMessage {
    /// A message to send to every participant.
    RmcHash(RmcMessage),
    /// A multisignature that has just been completed or learned.
    NewMultisigned(Multisigned),
}

/// Some task is about `hash`.
pub open spec fn has_task(tasks: Seq<TaskView>, hash: Hash64) -> bool {
    exists|i: int| 0 <= i < tasks.len() && message_hash((#[trigger] tasks[i]).task) == hash
}

/// No task is about a hash that has a multisignature.
pub open spec fn silent_when_complete<K: KeyBox>(
    keychain: &K,
    gathered: RmcView,
    tasks: Seq<TaskView>,
) -> bool {
    forall|i: int|
        0 <= i < tasks.len() ==> !completed(keychain, gathered, message_hash((#[trigger] tasks[i]).task))
}

/// What a result holds, as a mathematical value.
pub open spec fn result_view(result: Result<Option<Multisigned>, Error>) -> Result<
    Option<MultisignedView>,
    Error,
> {
    match result {
        Ok(new) => Ok(new.deep_view()),
        Err(e) => Err(e),
    }
}

/// The multisignature that a result brings, if it brings one.
pub open spec fn new_of(result: Result<Option<Multisigned>, Error>) -> Option<MultisignedView> {
    match result {
        Ok(new) => new.deep_view(),
        Err(_) => None,
    }
}

/// Starting the multicast of `hash` at the time `now` leads from what was gathered and
/// scheduled to what is, and gives `new`. Nothing happens where the hash has a multisignature
/// or is being multicast already. Else `signed` is the hash with this participant's signature:
/// it is put with those gathered, and it is sent from now on unless it completes the
/// multisignature, which is then new.
pub open spec fn start_outcome<K: KeyBox>(
    keychain: &K,
    gathered: RmcView,
    tasks: Seq<TaskView>,
    hash: Hash64,
    now: u64,
    signed: SignedHashView,
    after_gathered: RmcView,
    after_tasks: Seq<TaskView>,
    new: Option<MultisignedView>,
) -> bool {
    if completed(keychain, gathered, hash) || has_task(tasks, hash) {
        &&& new is None
        &&& after_gathered == gathered
        &&& after_tasks == tasks
    } else {
        &&& signed.signable == (IndexedHashView { hash, index: keychain.spec_index() })
        &&& signed_hash_valid(keychain, signed)
        &&& after_gathered == after_signed_hash(keychain, gathered, signed)
        &&& new == newly_completed(keychain, gathered, signed)
        &&& after_tasks == if new is Some {
            tasks
        } else {
            tasks.push(TaskView { task: RmcMessageView::SignedHash(signed), start: now, fired: 0 })
        }
    }
}

/// A message of another participant leads from what was gathered and scheduled to what is,
/// and gives `result`: a valid signature is put with those gathered; a multisignature is kept
/// unless one is known; whatever completes or brings a multisignature ends the sending about
/// its hash and gives the multisignature; what is not valid changes nothing.
pub open spec fn message_outcome<K: KeyBox>(
    keychain: &K,
    gathered: RmcView,
    tasks: Seq<TaskView>,
    message: RmcMessageView,
    after_gathered: RmcView,
    after_tasks: Seq<TaskView>,
    result: Result<Option<MultisignedView>, Error>,
) -> bool {
    match message {
        RmcMessageView::SignedHash(signed) => {
            if signed_hash_valid(keychain, signed) {
                &&& result == Ok::<Option<MultisignedView>, Error>(
                    newly_completed(keychain, gathered, signed),
                )
                &&& after_gathered == after_signed_hash(keychain, gathered, signed)
                &&& after_tasks == if newly_completed(keychain, gathered, signed) is Some {
                    without_hash(tasks, signed.signable.hash)
                } else {
                    tasks
                }
            } else {
                &&& result == Err::<Option<MultisignedView>, Error>(Error::BadSignature)
                &&& after_gathered == gathered
                &&& after_tasks == tasks
            }
        },
        RmcMessageView::MultisignedHash(multisigned) => {
            if completed(keychain, gathered, multisigned.signable) {
                &&& result == Ok::<Option<MultisignedView>, Error>(None)
                &&& after_gathered == gathered
                &&& after_tasks == tasks
            } else if is_multisignature(keychain, multisigned.signable, multisigned.signature) {
                &&& result == Ok::<Option<MultisignedView>, Error>(Some(multisigned))
                &&& after_gathered == gathered.insert(
                    multisigned.signable,
                    multisigned.signature,
                )
                &&& after_tasks == without_hash(tasks, multisigned.signable)
            } else {
                &&& result == Err::<Option<MultisignedView>, Error>(Error::BadMultisignature)
                &&& after_gathered == gathered
                &&& after_tasks == tasks
            }
        },
    }
}

/// The reliable multicast of one participant.
pub struct Service<K: KeyBox> {
    scheduler: DoublingDelayScheduler,
    handler: Handler<K>,
}

/// A hash that has a multisignature keeps it when a signature comes in.
pub proof fn lemma_completed_stays<K: KeyBox>(
    keychain: &K,
    gathered: RmcView,
    signed: SignedHashView,
    hash: Hash64,
)
    requires
        completed(keychain, gathered, hash),
    ensures
        completed(keychain, after_signed_hash(keychain, gathered, signed), hash),
        after_signed_hash(keychain, gathered, signed)[hash] == gathered[hash],
{
}

proof fn lemma_without_hash(tasks: Seq<TaskView>, hash: Hash64)
    ensures
        !has_task(without_hash(tasks, hash), hash),
        forall|i: int|
            0 <= i < without_hash(tasks, hash).len() ==> tasks.contains(
                #[trigger] without_hash(tasks, hash)[i],
            ),
        !has_task(tasks, hash) ==> without_hash(tasks, hash) == tasks,
{
    let pred = |t: TaskView| message_hash(t.task) != hash;
    let kept = tasks.filter(pred);
    assert forall|i: int| 0 <= i < kept.len() implies pred(#[trigger] kept[i]) && tasks.contains(
        kept[i],
    ) by {
        tasks.lemma_filter_pred(pred, i);
        tasks.lemma_filter_contains_rev(pred, kept[i]);
    }
    if !has_task(tasks, hash) {
        lemma_filter_all(tasks, hash);
    }
}

proof fn lemma_filter_all(tasks: Seq<TaskView>, hash: Hash64)
    requires
        !has_task(tasks, hash),
    ensures
        without_hash(tasks, hash) == tasks,
    decreases tasks.len(),
{
    reveal(Seq::filter);
    if tasks.len() > 0 {
        let front = tasks.drop_last();
        assert forall|i: int| 0 <= i < front.len() implies message_hash((#[trigger] front[i]).task)
            != hash by {
            assert(front[i] == tasks[i]);
        }
        lemma_filter_all(front, hash);
        assert(message_hash(tasks[tasks.len() - 1].task) != hash);
        assert(front.push(tasks.last()) =~= tasks);
    } else {
        assert(without_hash(tasks, hash) =~= tasks);
    }
}

impl<K: KeyBox> Service<K> {
    /// The key box that the service signs and checks with.
    pub closed spec fn keychain(&self) -> &K {
        self.handler.keychain()
    }

    /// The signatures gathered, by hash.
    pub closed spec fn gathered(&self) -> RmcView {
        self.handler@
    }

    /// The messages that are sent again and again.
    pub closed spec fn tasks(&self) -> Seq<TaskView> {
        self.scheduler@
    }

    /// The delay between the first and the second sending of a message.
    pub closed spec fn delay(&self) -> u64 {
        self.scheduler.delay()
    }

    /// The parts have kept their books, and nothing is sent about a hash that has a
    /// multisignature.
    pub closed spec fn wf(&self) -> bool {
        &&& self.handler.wf()
        &&& self.scheduler.wf()
        &&& silent_when_complete(self.handler.keychain(), self.handler@, self.scheduler@)
    }

    /// Every task is about a hash without a multisignature.
    pub proof fn lemma_silent_when_complete(&self)
        requires
            self.wf(),
        ensures
            silent_when_complete(self.keychain(), self.gathered(), self.tasks()),
    {
    }

    pub fn new(scheduler: DoublingDelayScheduler, handler: Handler<K>) -> (service: Self)
        requires
            scheduler.wf(),
            handler.wf(),
            scheduler@.len() == 0,
        ensures
            service.wf(),
            service.keychain() == handler.keychain(),
            service.gathered() == handler@,
            service.tasks() == scheduler@,
            service.delay() == scheduler.delay(),
    {
        Service { scheduler, handler }
    }

    /// The key box that the service signs and checks with.
    pub fn key_box(&self) -> (keychain: &K)
        ensures
            keychain == self.keychain(),
    {
        self.handler.key_box()
    }

    fn is_scheduled(&self, hash: Hash64) -> (scheduled: bool)
        ensures
            scheduled == has_task(self.tasks(), hash),
    {
        self.scheduler.contains(hash)
    }

    /// Starts the multicast of a hash at the time `now`. Nothing happens where the hash has a
    /// multisignature or is being multicast already. Else this participant signs; its signed
    /// hash is sent from now on, unless the signature completes the multisignature, which is
    /// then given.
    pub fn start_rmc(&mut self, hash: Hash64, now: u64) -> (new: Option<Multisigned>)
        requires
            old(self).wf(),
        ensures
            final(self).wf(),
            final(self).keychain() == old(self).keychain(),
            final(self).delay() == old(self).delay(),
            exists|signed: SignedHashView|
                start_outcome(
                    old(self).keychain(),
                    old(self).gathered(),
                    old(self).tasks(),
                    hash,
                    now,
                    signed,
                    final(self).gathered(),
                    final(self).tasks(),
                    new.deep_view(),
                ),
    {
        if self.handler.already_completed(hash) || self.is_scheduled(hash) {
            let new: Option<Multisigned> = None;
            proof {
                let any: SignedHashView = arbitrary();
                assert(start_outcome(
                    old(self).keychain(),
                    old(self).gathered(),
                    old(self).tasks(),
                    hash,
                    now,
                    any,
                    self.gathered(),
                    self.tasks(),
                    new.deep_view(),
                ));
            }
            return new;
        }
        let response = self.handler.on_start_rmc(hash);
        let ghost signed = choose|signed: SignedHashView|
            {
                &&& signed.signable == (IndexedHashView {
                    hash,
                    index: old(self).handler.keychain().spec_index(),
                })
                &&& signed_hash_valid(old(self).handler.keychain(), signed)
                &&& self.handler@ == after_signed_hash(
                    old(self).handler.keychain(),
                    old(self).handler@,
                    signed,
                )
                &&& match newly_completed(old(self).handler.keychain(), old(self).handler@, signed) {
                    Some(multisigned) => response matches OnStartRmcResponse::MultisignedHash(m)
                        && m.deep_view() == multisigned,
                    None => response matches OnStartRmcResponse::SignedHash(s) && s.deep_view()
                        == signed,
                }
            };
        let new = match response {
            OnStartRmcResponse::SignedHash(signed) => {
                self.scheduler.add_task(RmcMessage::SignedHash(signed), now);
                None
            },
            OnStartRmcResponse::MultisignedHash(multisigned) => Some(multisigned),
        };
        proof {
            assert(start_outcome(
                old(self).keychain(),
                old(self).gathered(),
                old(self).tasks(),
                hash,
                now,
                signed,
                self.gathered(),
                self.tasks(),
                new.deep_view(),
            ));
        }
        new
    }

    /// Takes a message that another participant sent. Gives the multisignature that it
    /// completes or brings, if that is new; the sending about its hash then ends.
    pub fn on_message(&mut self, message: RmcMessage) -> (result: Result<
        Option<Multisigned>,
        Error,
    >)
        requires
            old(self).wf(),
        ensures
            final(self).wf(),
            final(self).keychain() == old(self).keychain(),
            final(self).delay() == old(self).delay(),
            message_outcome(
                old(self).keychain(),
                old(self).gathered(),
                old(self).tasks(),
                message.deep_view(),
                final(self).gathered(),
                final(self).tasks(),
                result_view(result),
            ),
    {
        let hash = message.hash();
        let result = match message {
            RmcMessage::SignedHash(signed) => self.handler.on_signed_hash(signed),
            RmcMessage::MultisignedHash(multisigned) => self.handler.on_multisigned_hash(
                multisigned,
            ),
        };
        match &result {
            Ok(Some(_)) => {
                self.scheduler.cancel(hash);
                proof {
                    lemma_without_hash(old(self).scheduler@, hash);
                    assert forall|i: int| 0 <= i < self.scheduler@.len() implies !completed(
                        self.handler.keychain(),
                        self.handler@,
                        message_hash((#[trigger] self.scheduler@[i]).task),
                    ) by {
                        let t = self.scheduler@[i];
                        assert(old(self).scheduler@.contains(t));
                        let j = choose|j: int|
                            0 <= j < old(self).scheduler@.len() && old(self).scheduler@[j] == t;
                        assert(!completed(
                            old(self).handler.keychain(),
                            old(self).handler@,
                            message_hash(old(self).scheduler@[j].task),
                        ));
                        assert(!has_task(self.scheduler@, hash));
                        assert(message_hash(t.task) != hash);
                    }
                }
            },
            _ => {},
        }
        result
    }

    /// Takes what is handed to the reliable multicast at the time `now`.
    pub fn handle_message(&mut self, message: RmcIncomingMessage, now: u64) -> (result: Result<
        Option<Multisigned>,
        Error,
    >)
        requires
            old(self).wf(),
        ensures
            final(self).wf(),
            final(self).keychain() == old(self).keychain(),
            final(self).delay() == old(self).delay(),
            match message {
                RmcIncomingMessage::RmcHash(m) => message_outcome(
                    old(self).keychain(),
                    old(self).gathered(),
                    old(self).tasks(),
                    m.deep_view(),
                    final(self).gathered(),
                    final(self).tasks(),
                    result_view(result),
                ),
                RmcIncomingMessage::StartRmc(hash) => exists|signed: SignedHashView|
                    start_outcome(
                        old(self).keychain(),
                        old(self).gathered(),
                        old(self).tasks(),
                        hash,
                        now,
                        signed,
                        final(self).gathered(),
                        final(self).tasks(),
                        new_of(result),
                    ),
            },
            result is Err ==> message is RmcHash,
    {
        match message {
            RmcIncomingMessage::RmcHash(message) => self.on_message(message),
            RmcIncomingMessage::StartRmc(hash) => {
                let new = self.start_rmc(hash, now);
                proof {
                    let signed = choose|signed: SignedHashView|
                        start_outcome(
                            old(self).keychain(),
                            old(self).gathered(),
                            old(self).tasks(),
                            hash,
                            now,
                            signed,
                            self.gathered(),
                            self.tasks(),
                            new.deep_view(),
                        );
                    assert(start_outcome(
                        old(self).keychain(),
                        old(self).gathered(),
                        old(self).tasks(),
                        hash,
                        now,
                        signed,
                        self.gathered(),
                        self.tasks(),
                        new_of(Ok(new)),
                    ));
                }
                Ok(new)
            },
        }
    }

    /// The time at which the next message is due, if any is to be sent.
    pub fn next_instant(&self) -> (instant: Option<u64>)
        requires
            self.wf(),
        ensures
            match instant {
                Some(time) => exists|i: int|
                    is_next(self.tasks(), self.delay(), i) && time == due(
                        self.tasks()[i],
                        self.delay(),
                    ),
                None => self.tasks().len() == 0,
            },
    {
        let instant = self.scheduler.next_instant();
        proof {
            if let Some(time) = instant {
                let i = choose|i: int|
                    is_next(self.scheduler@, self.scheduler.delay(), i) && time == due(
                        self.scheduler@[i],
                        self.scheduler.delay(),
                    );
                assert(is_next(self.tasks(), self.delay(), i) && time == due(
                    self.tasks()[i],
                    self.delay(),
                ));
            }
        }
        instant
    }

    /// The message that is to be sent next, if it is due by `now`. It is about a hash that has no
    /// multisignature yet.
    pub fn next_message(&mut self, now: u64) -> (message: Option<RmcMessage>)
        requires
            old(self).wf(),
        ensures
            final(self).wf(),
            final(self).keychain() == old(self).keychain(),
            final(self).delay() == old(self).delay(),
            final(self).gathered() == old(self).gathered(),
            match message {
                Some(m) => {
                    &&& !completed(
                        old(self).keychain(),
                        old(self).gathered(),
                        message_hash(m.deep_view()),
                    )
                    &&& exists|i: int|
                        {
                            &&& is_next(old(self).tasks(), old(self).delay(), i)
                            &&& due(old(self).tasks()[i], old(self).delay()) <= now
                            &&& m.deep_view() == old(self).tasks()[i].task
                            &&& final(self).tasks() == old(self).tasks().update(
                                i,
                                fired_once_more(old(self).tasks()[i]),
                            )
                        }
                },
                None => {
                    &&& final(self).tasks() == old(self).tasks()
                    &&& forall|i: int|
                        is_next(old(self).tasks(), old(self).delay(), i) ==> due(
                            old(self).tasks()[i],
                            old(self).delay(),
                        ) > now
                },
            },
    {
        let message = self.scheduler.next_task(now);
        proof {
            if let Some(m) = &message {
                let before = old(self).scheduler@;
                let delay = old(self).scheduler.delay();
                let i = choose|i: int|
                    {
                        &&& is_next(before, delay, i)
                        &&& due(before[i], delay) <= now
                        &&& m.deep_view() == before[i].task
                        &&& self.scheduler@ == before.update(i, fired_once_more(before[i]))
                    };
                assert(!completed(
                    old(self).handler.keychain(),
                    old(self).handler@,
                    message_hash(before[i].task),
                ));
                assert forall|j: int| 0 <= j < self.scheduler@.len() implies !completed(
                    self.handler.keychain(),
                    self.handler@,
                    message_hash((#[trigger] self.scheduler@[j]).task),
                ) by {
                    assert(message_hash(self.scheduler@[j].task) == message_hash(before[j].task));
                }
                assert({
                    &&& is_next(old(self).tasks(), old(self).delay(), i)
                    &&& due(old(self).tasks()[i], old(self).delay()) <= now
                    &&& m.deep_view() == old(self).tasks()[i].task
                    &&& self.tasks() == old(self).tasks().update(
                        i,
                        fired_once_more(old(self).tasks()[i]),
                    )
                });
            }
        }
        message
    }
}

} // verus!

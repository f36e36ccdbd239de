//! When the messages of the reliable multicast are sent again: each first at once, then after
//! the base delay, and from then on with the time since the start doubling.
//!
//! Time is a number of milliseconds that the surrounding program reads from its clock.

use crate::nodes::Hash64;
use crate::rmc::{message_hash, RmcMessage, RmcMessageView};
use crate::value::Value;
use vstd::prelude::*;

verus! {

/// `delay`, doubled `k` times.
pub open spec fn doubled(delay: int, k: nat) -> int
    decreases k,
{
    if k == 0 {
        delay
    } else {
        2 * doubled(delay, (k - 1) as nat)
    }
}

/// The time at which a task that started at `start` is sent for the `k`-th time, counting
/// from zero.
pub open spec fn firing_time(start: int, delay: int, k: nat) -> int {
    if k == 0 {
        start
    } else {
        start + doubled(delay, (k - 1) as nat)
    }
}

/// A task is sent at its start, one delay later, and then whenever the time since its start has
/// doubled.
pub proof fn lemma_firing_times(start: int, delay: int, k: nat)
    ensures
        firing_time(start, delay, 0) == start,
        firing_time(start, delay, 1) == start + delay,
        firing_time(start, delay, 2) == start + 2 * delay,
        firing_time(start, delay, 3) == start + 4 * delay,
        firing_time(start, delay, 4) == start + 8 * delay,
        k >= 1 ==> firing_time(start, delay, k + 1) - start == 2 * (firing_time(start, delay, k)
            - start),
{
    reveal_with_fuel(doubled, 5);
}

/// A time, or the last one that the clock can show.
pub open spec fn clip(time: int) -> int {
    if time > u64::MAX {
        u64::MAX as int
    } else {
        time
    }
}

/// A message that is sent again and again, as a mathematical value.
pub struct TaskView {
    pub task: RmcMessageView,
    /// When the task was added.
    pub start: u64,
    /// How often it has been sent.
    pub fired: nat,
}

/// When the task is sent next.
pub open spec fn due(task: TaskView, delay: u64) -> int {
    clip(firing_time(task.start as int, delay as int, task.fired))
}

/// The task at `i` is the one to send next: none is due before it, and none of those before it
/// is due as early.
pub open spec fn is_next(tasks: Seq<TaskView>, delay: u64, i: int) -> bool {
    &&& 0 <= i < tasks.len()
    &&& forall|j: int| 0 <= j < tasks.len() ==> due(tasks[i], delay) <= due(#[trigger] tasks[j], delay)
    &&& forall|j: int| 0 <= j < i ==> due(tasks[i], delay) < due(#[trigger] tasks[j], delay)
}

/// The task after it was sent once more.
pub open spec fn fired_once_more(task: TaskView) -> TaskView {
    TaskView { fired: task.fired + 1, ..task }
}

/// The tasks that are not about `hash`, in their order.
pub open spec fn without_hash(tasks: Seq<TaskView>, hash: Hash64) -> Seq<TaskView> {
    tasks.filter(|t: TaskView| message_hash(t.task) != hash)
}

struct ScheduledTask {
    task: RmcMessage,
    start: u64,
    /// The span from the start to the sending after the next one.
    gap: u64,
    due: u64,
    fired: Ghost<nat>,
}

impl ScheduledTask {
    spec fn view(&self) -> TaskView {
        TaskView { task: self.task.deep_view(), start: self.start, fired: self.fired@ }
    }

    spec fn wf(&self, delay: u64) -> bool {
        &&& self.due == due(self.view(), delay)
        &&& self.gap == clip(doubled(delay as int, self.fired@))
    }
}

/// Sends each of its tasks again and again, after delays that double.
pub struct DoublingDelayScheduler {
    initial_delay: u64,
    tasks: Vec<ScheduledTask>,
}

impl View for DoublingDelayScheduler {
    type V = Seq<TaskView>;

    closed spec fn view(&self) -> Seq<TaskView> {
        self.tasks@.map_values(|t: ScheduledTask| t.view())
    }
}

proof fn lemma_doubled_grows(delay: int, k: nat)
    requires
        delay >= 0,
    ensures
        doubled(delay, k) >= delay,
    decreases k,
{
    if k > 0 {
        lemma_doubled_grows(delay, (k - 1) as nat);
    }
}

impl DoublingDelayScheduler {
    /// The delay between the first and the second sending of a task.
    pub closed spec fn delay(&self) -> u64 {
        self.initial_delay
    }

    /// The scheduler has kept its books.
    pub closed spec fn wf(&self) -> bool {
        forall|i: int| 0 <= i < self.tasks@.len() ==> (#[trigger] self.tasks@[i]).wf(self.initial_delay)
    }

    /// A scheduler without tasks.
    pub fn new(initial_delay: u64) -> (scheduler: Self)
        ensures
            scheduler.wf(),
            scheduler.delay() == initial_delay,
            scheduler@ == Seq::<TaskView>::empty(),
    {
        let scheduler = DoublingDelayScheduler { initial_delay, tasks: Vec::new() };
        proof {
            assert(scheduler@ =~= Seq::<TaskView>::empty());
        }
        scheduler
    }

    /// Adds a task that is to be sent from `now` on.
    pub fn add_task(&mut self, task: RmcMessage, now: u64)
        requires
            old(self).wf(),
        ensures
            final(self).wf(),
            final(self).delay() == old(self).delay(),
            final(self)@ == old(self)@.push(
                TaskView { task: task.deep_view(), start: now, fired: 0 },
            ),
    {
        let scheduled = ScheduledTask {
            task,
            start: now,
            gap: self.initial_delay,
            due: now,
            fired: Ghost(0),
        };
        self.tasks.push(scheduled);
        proof {
            assert(self@ =~= old(self)@.push(
                TaskView { task: task.deep_view(), start: now, fired: 0 },
            ));
        }
    }

    /// The number of tasks.
    pub fn len(&self) -> (n: usize)
        ensures
            n == self@.len(),
    {
        self.tasks.len()
    }

    /// Whether some task is about `hash`.
    pub fn contains(&self, hash: Hash64) -> (found: bool)
        ensures
            found == exists|i: int|
                0 <= i < self@.len() && message_hash((#[trigger] self@[i]).task) == hash,
    {
        let mut i: usize = 0;
        while i < self.tasks.len()
            invariant
                i <= self.tasks.len(),
                forall|j: int| 0 <= j < i ==> message_hash((#[trigger] self@[j]).task) != hash,
            decreases self.tasks.len() - i,
        {
            if self.tasks[i].task.hash() == hash {
                proof {
                    assert(message_hash(self@[i as int].task) == hash);
                }
                return true;
            }
            i += 1;
        }
        false
    }

    /// Ends the sending of every task that is about `hash`.
    pub fn cancel(&mut self, hash: Hash64)
        requires
            old(self).wf(),
        ensures
            final(self).wf(),
            final(self).delay() == old(self).delay(),
            final(self)@ == without_hash(old(self)@, hash),
    {
        let mut kept: Vec<ScheduledTask> = Vec::new();
        let ghost all = self@;
        let ghost delay = self.initial_delay;
        let mut i: usize = 0;
        while i < self.tasks.len()
            invariant
                i <= self.tasks.len(),
                self.wf(),
                *self == *old(self),
                all == self@,
                delay == self.initial_delay,
                forall|j: int| 0 <= j < kept@.len() ==> (#[trigger] kept@[j]).wf(delay),
                kept@.map_values(|t: ScheduledTask| t.view()) == without_hash(
                    all.take(i as int),
                    hash,
                ),
            decreases self.tasks.len() - i,
        {
            let copy = ScheduledTask {
                task: self.tasks[i].task.duplicate(),
                start: self.tasks[i].start,
                gap: self.tasks[i].gap,
                due: self.tasks[i].due,
                fired: Ghost(self.tasks@[i as int].fired@),
            };
            proof {
                assert(copy.view() == all[i as int]);
                assert(copy.wf(delay)) by {
                    assert(self.tasks@[i as int].wf(delay));
                }
                assert(all.take(i + 1) =~= all.take(i as int).push(all[i as int]));
                lemma_filter_push(all.take(i as int), all[i as int], hash);
            }
            if copy.task.hash() != hash {
                let ghost before = kept@.map_values(|t: ScheduledTask| t.view());
                kept.push(copy);
                proof {
                    assert(kept@.map_values(|t: ScheduledTask| t.view()) =~= before.push(
                        all[i as int],
                    ));
                }
            }
            i += 1;
        }
        proof {
            assert(all.take(self.tasks.len() as int) =~= all);
        }
        self.tasks = kept;
    }

    /// The time at which the next task is due, if there is a task.
    pub fn next_instant(&self) -> (instant: Option<u64>)
        requires
            self.wf(),
        ensures
            match instant {
                Some(time) => exists|i: int| is_next(self@, self.delay(), i) && time == due(
                    self@[i],
                    self.delay(),
                ),
                None => self@.len() == 0,
            },
    {
        match self.next_index() {
            Some(i) => Some(self.tasks[i].due),
            None => None,
        }
    }

    fn next_index(&self) -> (index: Option<usize>)
        requires
            self.wf(),
        ensures
            match index {
                Some(i) => is_next(self@, self.delay(), i as int) && self.tasks@[i as int].due
                    == due(self@[i as int], self.delay()),
                None => self@.len() == 0,
            },
    {
        if self.tasks.len() == 0 {
            return None;
        }
        let mut best: usize = 0;
        let mut i: usize = 1;
        while i < self.tasks.len()
            invariant
                self.wf(),
                1 <= i <= self.tasks.len(),
                best < i,
                forall|j: int|
                    0 <= j < i ==> self.tasks@[best as int].due <= (#[trigger] self.tasks@[j]).due,
                forall|j: int|
                    0 <= j < best ==> self.tasks@[best as int].due < (#[trigger] self.tasks@[j]).due,
            decreases self.tasks.len() - i,
        {
            if self.tasks[i].due < self.tasks[best].due {
                best = i;
            }
            i += 1;
        }
        proof {
            assert forall|j: int| 0 <= j < self@.len() implies due(self@[best as int], self.delay())
                <= due(#[trigger] self@[j], self.delay()) by {
                assert(self.tasks@[j].wf(self.initial_delay));
                assert(self.tasks@[best as int].wf(self.initial_delay));
            }
            assert forall|j: int| 0 <= j < best implies due(self@[best as int], self.delay())
                < due(#[trigger] self@[j], self.delay()) by {
                assert(self.tasks@[j].wf(self.initial_delay));
                assert(self.tasks@[best as int].wf(self.initial_delay));
            }
            assert(self.tasks@[best as int].wf(self.initial_delay));
        }
        Some(best)
    }

    /// The task that is to be sent next, if it is due by `now`; it is then put off to the
    /// time of its next sending.
    pub fn next_task(&mut self, now: u64) -> (task: Option<RmcMessage>)
        requires
            old(self).wf(),
        ensures
            final(self).wf(),
            final(self).delay() == old(self).delay(),
            match task {
                Some(message) => exists|i: int|
                    {
                        &&& is_next(old(self)@, old(self).delay(), i)
                        &&& due(old(self)@[i], old(self).delay()) <= now
                        &&& message.deep_view() == old(self)@[i].task
                        &&& final(self)@ == old(self)@.update(i, fired_once_more(old(self)@[i]))
                    },
                None => {
                    &&& final(self)@ == old(self)@
                    &&& forall|i: int|
                        is_next(old(self)@, old(self).delay(), i) ==> due(
                            old(self)@[i],
                            old(self).delay(),
                        ) > now
                },
            },
    {
        let i = match self.next_index() {
            Some(i) => i,
            None => {
                return None;
            },
        };
        if self.tasks[i].due > now {
            proof {
                assert forall|k: int| is_next(self@, self.delay(), k) implies due(
                    self@[k],
                    self.delay(),
                ) > now by {
                    assert(due(self@[i as int], self.delay()) <= due(self@[k], self.delay()));
                }
            }
            return None;
        }
        let message = self.tasks[i].task.duplicate();
        let start = self.tasks[i].start;
        let gap = self.tasks[i].gap;
        let ghost fired = self.tasks@[i as int].fired@;
        let due_next = if gap > u64::MAX - start {
            u64::MAX
        } else {
            start + gap
        };
        let gap_next = if gap > u64::MAX / 2 {
            u64::MAX
        } else {
            2 * gap
        };
        let ghost before = self@;
        let ghost delay = self.initial_delay;
        proof {
            assert(self.tasks@[i as int].wf(delay));
            lemma_doubled_grows(delay as int, fired);
        }
        let rescheduled = ScheduledTask {
            task: self.tasks[i].task.duplicate(),
            start,
            gap: gap_next,
            due: due_next,
            fired: Ghost(fired + 1),
        };
        proof {
            assert(rescheduled.view() == fired_once_more(before[i as int]));
            assert(rescheduled.wf(delay));
        }
        self.tasks.set(i, rescheduled);
        proof {
            assert(self@ =~= before.update(i as int, fired_once_more(before[i as int])));
            assert forall|j: int| 0 <= j < self.tasks@.len() implies (
            #[trigger] self.tasks@[j]).wf(self.initial_delay) by {
                if j != i {
                    assert(self.tasks@[j] == old(self).tasks@[j]);
                }
            }
        }
        Some(message)
    }
}

proof fn lemma_filter_push(tasks: Seq<TaskView>, task: TaskView, hash: Hash64)
    ensures
        without_hash(tasks.push(task), hash) == if message_hash(task.task) != hash {
            without_hash(tasks, hash).push(task)
        } else {
            without_hash(tasks, hash)
        },
{
    reveal(Seq::filter);
    assert(tasks.push(task).drop_last() =~= tasks);
}

} // verus!

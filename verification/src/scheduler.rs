//! The scheduler: the tasks that wait, the tasks that run, the clock, and
//! the promises whose continuations it runs.
//!
//! The scheduler decides; it runs nothing itself. A driver takes one task at
//! a time with `start`, does what the task says, and reports with `finish`.

use vstd::prelude::*;
use std::collections::VecDeque;
use crate::result::{Outcome, Result};
use crate::value::{Datum, List, Value};

verus! {

/// How many tasks may run at the same time.
#[derive(Clone, Copy, Debug, PartialEq, Eq, Structural)]
pub struct Threads {
    pub count: u32,
}

/// A handle to a promise of a scheduler.
#[derive(Clone, Copy, Debug, PartialEq, Eq, Structural)]
pub struct Promise {
    pub id: usize,
}

/// A handle for sending operations to the actor at an address.
#[derive(Clone, Copy, Debug, PartialEq, Eq, Structural)]
pub struct Mailbox {
    pub address: u64,
}

/// Someone waiting for a promise to be resolved.
#[derive(Clone, Copy, Debug, PartialEq, Eq, Structural)]
pub enum Observer {
    /// On a value, callback `ticket` maps it to the outcome of `target`; an
    /// error goes to `target` as it is.
    ThenResult { ticket: u64, target: Promise },
    /// On a value, callback `ticket` names the promise that `target` will
    /// follow; an error goes to `target` as it is.
    ThenPromise { ticket: u64, target: Promise },
    /// On an error, callback `ticket` is told the message.
    Fail { ticket: u64 },
    /// Whatever the outcome, `target` gets it too.
    Forward { target: Promise },
}

/// One unit of work for the driver.
#[derive(Debug)]
pub enum Task {
    /// Run the caller's job known by `ticket`.
    Job { ticket: u64 },
    /// Run operation `name` of the actor behind `mailbox` on `arguments`,
    /// and resolve `promise` with what it gives.
    Call { mailbox: Mailbox, name: std::string::String, arguments: List, promise: Promise },
    /// Call callback `ticket` on `value` and resolve `promise` with what it
    /// gives.
    ThenResult { ticket: u64, value: Value, promise: Promise },
    /// Call callback `ticket` on `value`; let `promise` follow the promise
    /// that it gives, or resolve `promise` with the error that it gives.
    ThenPromise { ticket: u64, value: Value, promise: Promise },
    /// Call callback `ticket` on the message `error`.
    Fail { ticket: u64, error: std::string::String },
    /// Resolve `promise` with `result`.
    Settle { promise: Promise, result: Result },
}

/// What a task is, as mathematics.
pub enum Work {
    Job { ticket: u64 },
    Call { mailbox: Mailbox, name: Seq<char>, arguments: Seq<Datum>, promise: Promise },
    ThenResult { ticket: u64, value: Datum, promise: Promise },
    ThenPromise { ticket: u64, value: Datum, promise: Promise },
    Fail { ticket: u64, error: Seq<char> },
    Settle { promise: Promise, outcome: Outcome },
}

impl View for Task {
    type V = Work;

    open spec fn view(&self) -> Work {
        match self {
            Task::Job { ticket } => Work::Job { ticket: *ticket },
            Task::Call { mailbox, name, arguments, promise } => Work::Call {
                mailbox: *mailbox,
                name: name@,
                arguments: arguments@,
                promise: *promise,
            },
            Task::ThenResult { ticket, value, promise } => Work::ThenResult {
                ticket: *ticket,
                value: value@,
                promise: *promise,
            },
            Task::ThenPromise { ticket, value, promise } => Work::ThenPromise {
                ticket: *ticket,
                value: value@,
                promise: *promise,
            },
            Task::Fail { ticket, error } => Work::Fail { ticket: *ticket, error: error@ },
            Task::Settle { promise, result } => Work::Settle {
                promise: *promise,
                outcome: result@,
            },
        }
    }
}

impl Work {
    /// The address whose operations the task must not overlap with: that
    /// of its mailbox, for a call; none otherwise.
    pub open spec fn lane(self) -> Option<u64> {
        match self {
            Work::Call { mailbox, .. } => Some(mailbox.address),
            _ => None,
        }
    }
}

impl Task {
    /// The address whose operations the task must not overlap with: that
    /// of its mailbox, for a call; none otherwise.
    pub fn lane(&self) -> (lane: Option<u64>)
        ensures
            lane == self@.lane(),
    {
        match self {
            Task::Call { mailbox, .. } => Some(mailbox.address),
            _ => None,
        }
    }
}

/// A promise as the scheduler keeps it: what it was resolved with, and who
/// still waits for that.
pub struct Pledge {
    pub outcome: Outcome,
    pub observers: Seq<Observer>,
}

/// The state of a scheduler, as mathematics.
pub struct Agenda {
    /// How many tasks may run at the same time.
    pub threads: u32,
    /// The time on the scheduler's clock.
    pub now: u64,
    /// The tasks that can run, in the order in which they will be offered.
    pub ready: Seq<Work>,
    /// The tasks that wait for their time, each with the time from which it
    /// can run.
    pub delayed: Seq<(u64, Work)>,
    /// For each task that runs, its lane.
    pub running: Seq<Option<u64>>,
    /// The promises, each at the place that its handle names.
    pub promises: Seq<Pledge>,
}

impl Agenda {
    /// How many tasks have been scheduled and have not finished.
    pub open spec fn outstanding(self) -> nat {
        self.ready.len() + self.delayed.len() + self.running.len()
    }
}

/// The task that tells one observer of an outcome, if it is to be told.
pub open spec fn notice(observer: Observer, outcome: Outcome) -> Option<Work> {
    match (observer, outcome) {
        (_, Outcome::Undefined) => None,
        (Observer::ThenResult { ticket, target }, Outcome::Value(value)) => Some(
            Work::ThenResult { ticket, value, promise: target },
        ),
        (Observer::ThenResult { ticket, target }, Outcome::Error(_)) => Some(
            Work::Settle { promise: target, outcome },
        ),
        (Observer::ThenPromise { ticket, target }, Outcome::Value(value)) => Some(
            Work::ThenPromise { ticket, value, promise: target },
        ),
        (Observer::ThenPromise { ticket, target }, Outcome::Error(_)) => Some(
            Work::Settle { promise: target, outcome },
        ),
        (Observer::Fail { ticket }, Outcome::Value(_)) => None,
        (Observer::Fail { ticket }, Outcome::Error(error)) => Some(Work::Fail { ticket, error }),
        (Observer::Forward { target }, _) => Some(Work::Settle { promise: target, outcome }),
    }
}

/// The tasks that tell a run of observers of an outcome, in their order.
pub open spec fn notices(observers: Seq<Observer>, outcome: Outcome) -> Seq<Work>
    decreases observers.len(),
{
    if observers.len() == 0 {
        Seq::empty()
    } else {
        let earlier = notices(observers.drop_last(), outcome);
        match notice(observers.last(), outcome) {
            Some(work) => earlier.push(work),
            None => earlier,
        }
    }
}

/// The tasks whose time has come, in the order in which they were delayed.
pub open spec fn due(delayed: Seq<(u64, Work)>, now: u64) -> Seq<Work>
    decreases delayed.len(),
{
    if delayed.len() == 0 {
        Seq::empty()
    } else if delayed.last().0 <= now {
        due(delayed.drop_last(), now).push(delayed.last().1)
    } else {
        due(delayed.drop_last(), now)
    }
}

/// The tasks whose time has not come, in the order in which they were
/// delayed.
pub open spec fn not_due(delayed: Seq<(u64, Work)>, now: u64) -> Seq<(u64, Work)>
    decreases delayed.len(),
{
    if delayed.len() == 0 {
        Seq::empty()
    } else if delayed.last().0 <= now {
        not_due(delayed.drop_last(), now)
    } else {
        not_due(delayed.drop_last(), now).push(delayed.last())
    }
}

/// Whether a task may start beside the tasks that run: a call only when no
/// call to the same address runs.
pub open spec fn eligible(work: Work, running: Seq<Option<u64>>) -> bool {
    work.lane().is_none() || !running.contains(work.lane())
}

/// The place of the first task that may start, or the number of tasks when
/// none may.
pub open spec fn pick(ready: Seq<Work>, running: Seq<Option<u64>>) -> int
    decreases ready.len(),
{
    if ready.len() == 0 {
        0
    } else if eligible(ready[0], running) {
        0
    } else {
        1 + pick(ready.skip(1), running)
    }
}

/// The place of the first of the running tasks on a lane, or their number
/// when none is on it.
pub open spec fn first_on(running: Seq<Option<u64>>, lane: Option<u64>) -> int
    decreases running.len(),
{
    if running.len() == 0 {
        0
    } else if running[0] == lane {
        0
    } else {
        1 + first_on(running.skip(1), lane)
    }
}

/// The sum of two clock readings, held at the largest reading.
pub open spec fn clock_sum(now: u64, delay: u64) -> u64 {
    if now + delay > u64::MAX {
        u64::MAX
    } else {
        (now + delay) as u64
    }
}

impl Agenda {
    /// The state after `start` has handed out a task, where it hands one
    /// out; the same state where it does not.
    pub open spec fn started(self) -> Agenda {
        let at = pick(self.ready, self.running);
        if self.running.len() < self.threads && at < self.ready.len() {
            Agenda {
                ready: self.ready.remove(at),
                running: self.running.push(self.ready[at].lane()),
                ..self
            }
        } else {
            self
        }
    }

    /// The state after `finish` has been told of a lane.
    pub open spec fn finished(self, lane: Option<u64>) -> Agenda {
        if self.running.contains(lane) {
            Agenda { running: self.running.remove(first_on(self.running, lane)), ..self }
        } else {
            self
        }
    }

    /// The state after the clock has moved on by `elapsed`.
    pub open spec fn advanced(self, elapsed: u64) -> Agenda {
        Agenda {
            now: clock_sum(self.now, elapsed),
            ready: self.ready + due(self.delayed, clock_sum(self.now, elapsed)),
            delayed: not_due(self.delayed, clock_sum(self.now, elapsed)),
            ..self
        }
    }
}

/// A task that waits for its time.
struct Delayed {
    due: u64,
    task: Task,
}

/// A promise as the scheduler keeps it.
struct Slot {
    result: Result,
    observers: Vec<Observer>,
}

/// A task runner with a fixed number of workers, a clock for delayed tasks,
/// and the promises that are bound to it.
pub struct Scheduler {
    threads: u32,
    now: u64,
    ready: VecDeque<Task>,
    delayed: VecDeque<Delayed>,
    running: Vec<Option<u64>>,
    promises: Vec<Slot>,
}

/// The meaning of a run of tasks, task by task.
closed spec fn works(tasks: Seq<Task>) -> Seq<Work> {
    Seq::new(tasks.len(), |i: int| tasks[i]@)
}

/// The meaning of a run of delayed tasks, task by task.
closed spec fn waits(delayed: Seq<Delayed>) -> Seq<(u64, Work)> {
    Seq::new(delayed.len(), |i: int| (delayed[i].due, delayed[i].task@))
}

/// The meaning of a run of promises, promise by promise.
closed spec fn pledges(slots: Seq<Slot>) -> Seq<Pledge> {
    Seq::new(
        slots.len(),
        |i: int| Pledge { outcome: slots[i].result@, observers: slots[i].observers@ },
    )
}

impl View for Scheduler {
    type V = Agenda;

    closed spec fn view(&self) -> Agenda {
        Agenda {
            threads: self.threads,
            now: self.now,
            ready: works(self.ready@),
            delayed: waits(self.delayed@),
            running: self.running@,
            promises: pledges(self.promises@),
        }
    }
}

/// `pick` stays within bounds, points at a task that may start, and passes
/// over none that may.
pub proof fn lemma_pick(ready: Seq<Work>, running: Seq<Option<u64>>)
    ensures
        0 <= pick(ready, running) <= ready.len(),
        pick(ready, running) < ready.len() ==> eligible(ready[pick(ready, running)], running),
        forall|i: int| 0 <= i < pick(ready, running) ==> !eligible(ready[i], running),
    decreases ready.len(),
{
    if ready.len() > 0 && !eligible(ready[0], running) {
        let rest = ready.skip(1);
        lemma_pick(rest, running);
        assert forall|i: int| 0 <= i < pick(ready, running) implies !eligible(
            ready[i],
            running,
        ) by {
            if i > 0 {
                assert(rest[i - 1] == ready[i]);
            }
        }
    }
}

/// Any place that holds a task that may start, with none before it that
/// may, is the place that `pick` gives.
pub proof fn lemma_pick_is(ready: Seq<Work>, running: Seq<Option<u64>>, at: int)
    requires
        0 <= at <= ready.len(),
        at < ready.len() ==> eligible(ready[at], running),
        forall|i: int| 0 <= i < at ==> !eligible(ready[i], running),
    ensures
        pick(ready, running) == at,
{
    lemma_pick(ready, running);
    let p = pick(ready, running);
    if p < at {
        assert(eligible(ready[p], running));
    } else if p > at {
        assert(eligible(ready[at], running));
    }
}

/// `first_on` stays within bounds, points at a task on the lane, and passes
/// over none on it.
pub proof fn lemma_first_on(running: Seq<Option<u64>>, lane: Option<u64>)
    ensures
        0 <= first_on(running, lane) <= running.len(),
        first_on(running, lane) < running.len() ==> running[first_on(running, lane)] == lane,
        forall|i: int| 0 <= i < first_on(running, lane) ==> running[i] != lane,
        first_on(running, lane) < running.len() <==> running.contains(lane),
    decreases running.len(),
{
    if running.len() > 0 && running[0] != lane {
        let rest = running.skip(1);
        lemma_first_on(rest, lane);
        assert forall|i: int| 0 <= i < first_on(running, lane) implies running[i] != lane by {
            if i > 0 {
                assert(rest[i - 1] == running[i]);
            }
        }
        if rest.contains(lane) {
            let k = choose|k: int| 0 <= k < rest.len() && rest[k] == lane;
            assert(running[k + 1] == lane);
        }
        if running.contains(lane) {
            let k = choose|k: int| 0 <= k < running.len() && running[k] == lane;
            assert(rest[k - 1] == lane);
        }
    } else if running.len() > 0 {
        assert(running[0] == lane);
    }
}

impl Scheduler {
    /// A scheduler with the given number of workers, nothing to do and no
    /// promise, its clock at zero.
    pub fn new(threads: Threads) -> (scheduler: Scheduler)
        ensures
            scheduler@ == (Agenda {
                threads: threads.count,
                now: 0,
                ready: Seq::empty(),
                delayed: Seq::empty(),
                running: Seq::empty(),
                promises: Seq::empty(),
            }),
    {
        let scheduler = Scheduler {
            threads: threads.count,
            now: 0,
            ready: VecDeque::new(),
            delayed: VecDeque::new(),
            running: Vec::new(),
            promises: Vec::new(),
        };
        proof {
            assert(scheduler@.ready =~= Seq::<Work>::empty());
            assert(scheduler@.delayed =~= Seq::<(u64, Work)>::empty());
            assert(scheduler@.running =~= Seq::<Option<u64>>::empty());
            assert(scheduler@.promises =~= Seq::<Pledge>::empty());
        }
        scheduler
    }

    /// How many tasks have been scheduled and have not finished: those
    /// that can run, those that wait for their time and those that run.
    /// The count stops at the largest number that fits.
    pub fn count(&self) -> (n: usize)
        ensures
            n == if self@.outstanding() > usize::MAX {
                usize::MAX as nat
            } else {
                self@.outstanding()
            },
    {
        self.ready.len().saturating_add(self.delayed.len()).saturating_add(self.running.len())
    }

    /// The time on the clock.
    pub fn now(&self) -> (now: u64)
        ensures
            now == self@.now,
    {
        self.now
    }

    /// Lets a task run as soon as a worker is free: it goes behind the
    /// tasks that can already run.
    pub fn schedule(&mut self, task: Task)
        ensures
            final(self)@ == (Agenda { ready: old(self)@.ready.push(task@), ..old(self)@ }),
    {
        self.ready.push_back(task);
        proof {
            assert(self@.ready =~= old(self)@.ready.push(task@));
        }
    }

    /// Lets a task run once `delay` has passed on the clock, and not
    /// before.
    pub fn schedule_delayed(&mut self, delay: u64, task: Task)
        ensures
            final(self)@ == (Agenda {
                delayed: old(self)@.delayed.push((clock_sum(old(self)@.now, delay), task@)),
                ..old(self)@
            }),
    {
        let due = self.now.saturating_add(delay);
        self.delayed.push_back(Delayed { due, task });
        proof {
            assert(self@.delayed =~= old(self)@.delayed.push((due, task@)));
        }
    }

    /// Moves the clock on by `elapsed`. Every delayed task whose time has
    /// then come goes behind the tasks that can run, in the order in which
    /// they were delayed; the others go on waiting.
    pub fn advance(&mut self, elapsed: u64)
        ensures
            final(self)@ == old(self)@.advanced(elapsed),
    {
        let now = self.now.saturating_add(elapsed);
        self.now = now;
        let mut later: VecDeque<Delayed> = VecDeque::new();
        let ghost all = old(self)@.delayed;
        let ghost mut seen: int = 0;
        proof {
            assert(all.take(0) =~= Seq::<(u64, Work)>::empty());
            assert(self@.ready =~= old(self)@.ready + due(all.take(0), now));
            assert(waits(later@) =~= not_due(all.take(0), now));
            assert(waits(self.delayed@) =~= all.skip(0));
        }
        loop
            invariant
                0 <= seen <= all.len(),
                all == old(self)@.delayed,
                self.now == now,
                self.threads == old(self).threads,
                self.running == old(self).running,
                self.promises == old(self).promises,
                works(self.ready@) == old(self)@.ready + due(all.take(seen), now),
                waits(later@) == not_due(all.take(seen), now),
                waits(self.delayed@) == all.skip(seen),
            ensures
                seen == all.len(),
            decreases all.len() - seen,
        {
            let ghost ready_before = works(self.ready@);
            let ghost later_before = waits(later@);
            let ghost left = waits(self.delayed@);
            let ghost raw = self.delayed@;
            match self.delayed.pop_front() {
                Some(entry) => {
                    proof {
                        assert(left.len() == raw.len());
                        assert(left[0] == (raw[0].due, raw[0].task@));
                        assert(left[0] == all.skip(seen)[0]);
                        assert(left[0] == all[seen]);
                        assert(all.take(seen + 1).drop_last() =~= all.take(seen));
                        assert(all.take(seen + 1).last() == all[seen]);
                        assert(self.delayed@ =~= raw.skip(1));
                        assert(waits(self.delayed@) =~= left.skip(1));
                        assert(left.skip(1) =~= all.skip(seen + 1));
                    }
                    if entry.due <= now {
                        self.ready.push_back(entry.task);
                        proof {
                            assert(works(self.ready@) =~= ready_before.push(all[seen].1));
                            assert(works(self.ready@) =~= old(self)@.ready + due(
                                all.take(seen + 1),
                                now,
                            ));
                        }
                    } else {
                        later.push_back(entry);
                        proof {
                            assert(waits(later@) =~= later_before.push(all[seen]));
                        }
                    }
                    proof {
                        seen = seen + 1;
                    }
                },
                None => {
                    proof {
                        assert(left.len() == raw.len());
                    }
                    break ;
                },
            }
        }
        proof {
            assert(all.take(seen) =~= all);
        }
        self.delayed = later;
    }

    /// Hands out the first task that may start, if a worker is free and
    /// there is such a task. The task then counts as running until
    /// `finish` is told of its lane.
    pub fn start(&mut self) -> (task: Option<Task>)
        ensures
            task.is_some() <==> old(self)@.running.len() < old(self)@.threads && pick(
                old(self)@.ready,
                old(self)@.running,
            ) < old(self)@.ready.len(),
            task.is_some() ==> task.unwrap()@ == old(self)@.ready[pick(
                old(self)@.ready,
                old(self)@.running,
            )] && eligible(task.unwrap()@, old(self)@.running),
            final(self)@ == old(self)@.started(),
    {
        proof {
            lemma_pick(self@.ready, self@.running);
        }
        if self.running.len() >= self.threads as usize {
            return None;
        }
        let mut at: usize = 0;
        loop
            invariant
                at <= self.ready.len(),
                *self == *old(self),
                forall|i: int| 0 <= i < at ==> !eligible(self@.ready[i], self@.running),
            ensures
                at < self.ready.len() ==> eligible(self@.ready[at as int], self@.running),
            decreases self.ready.len() - at,
        {
            if at >= self.ready.len() {
                break ;
            }
            let lane = self.ready[at].lane();
            let free = match lane {
                Some(_) => !self.is_busy(lane),
                None => true,
            };
            if free {
                break ;
            }
            at += 1;
        }
        proof {
            lemma_pick_is(self@.ready, self@.running, at as int);
        }
        if at >= self.ready.len() {
            return None;
        }
        let ghost before = self@;
        let taken = self.ready.remove(at);
        let task = taken.unwrap();
        self.running.push(task.lane());
        proof {
            assert(self@.ready =~= before.ready.remove(at as int));
        }
        Some(task)
    }

    /// Whether a task on the lane runs.
    fn is_busy(&self, lane: Option<u64>) -> (busy: bool)
        ensures
            busy == self@.running.contains(lane),
    {
        let mut i: usize = 0;
        while i < self.running.len()
            invariant
                i <= self.running.len(),
                forall|k: int| 0 <= k < i ==> self.running@[k] != lane,
            decreases self.running.len() - i,
        {
            if self.running[i] == lane {
                return true;
            }
            i += 1;
        }
        false
    }

    /// Takes note that a running task on the given lane has finished, and
    /// says whether one was running there.
    pub fn finish(&mut self, lane: Option<u64>) -> (done: bool)
        ensures
            done == old(self)@.running.contains(lane),
            final(self)@ == old(self)@.finished(lane),
    {
        proof {
            lemma_first_on(self@.running, lane);
        }
        let mut i: usize = 0;
        while i < self.running.len()
            invariant
                i <= self.running.len(),
                *self == *old(self),
                forall|k: int| 0 <= k < i ==> self.running@[k] != lane,
            decreases self.running.len() - i,
        {
            if self.running[i] == lane {
                proof {
                    lemma_first_on(self@.running, lane);
                    let first = first_on(self@.running, lane);
                    if first < i {
                        assert(self.running@[first] == lane);
                    }
                    assert(first == i);
                }
                self.running.remove(i);
                return true;
            }
            i += 1;
        }
        false
    }
}

impl Agenda {
    /// Whether a handle names one of the promises.
    pub open spec fn knows(self, promise: Promise) -> bool {
        promise.id < self.promises.len()
    }

    /// What a promise was resolved with; undefined for one that was not,
    /// and for a handle that names none.
    pub open spec fn outcome(self, promise: Promise) -> Outcome {
        if self.knows(promise) {
            self.promises[promise.id as int].outcome
        } else {
            Outcome::Undefined
        }
    }

    /// Whether resolving a promise with an outcome would take effect: the
    /// promise is there and unresolved, and the outcome is a value or an
    /// error.
    pub open spec fn can_resolve(self, promise: Promise, outcome: Outcome) -> bool {
        self.knows(promise) && self.outcome(promise) is Undefined && !(outcome is Undefined)
    }

    /// The state after a promise has been resolved with an outcome: the
    /// promise holds the outcome, and everyone who waited for it has a
    /// task among those that can run, in the order in which they came to
    /// wait. Nothing changes where the resolution cannot take effect.
    pub open spec fn resolved(self, promise: Promise, outcome: Outcome) -> Agenda {
        if self.can_resolve(promise, outcome) {
            Agenda {
                ready: self.ready + notices(self.promises[promise.id as int].observers, outcome),
                promises: self.promises.update(
                    promise.id as int,
                    Pledge { outcome, observers: Seq::empty() },
                ),
                ..self
            }
        } else {
            self
        }
    }

    /// The state after an observer has come to a promise: it waits where
    /// the promise is unresolved, and has its task at once, if it is owed
    /// one, where the promise is resolved. A handle that names no promise
    /// changes nothing.
    pub open spec fn observed(self, promise: Promise, observer: Observer) -> Agenda {
        if !self.knows(promise) {
            self
        } else if self.outcome(promise) is Undefined {
            Agenda {
                promises: self.promises.update(
                    promise.id as int,
                    Pledge {
                        outcome: Outcome::Undefined,
                        observers: self.promises[promise.id as int].observers.push(observer),
                    },
                ),
                ..self
            }
        } else {
            match notice(observer, self.outcome(promise)) {
                Some(work) => Agenda { ready: self.ready.push(work), ..self },
                None => self,
            }
        }
    }

    /// The state after one more promise, unresolved and unobserved, has
    /// been made.
    pub open spec fn extended(self) -> Agenda {
        Agenda {
            promises: self.promises.push(
                Pledge { outcome: Outcome::Undefined, observers: Seq::empty() },
            ),
            ..self
        }
    }
}

/// The task that tells one observer of what a promise was resolved with.
fn notify(observer: Observer, result: &Result) -> (task: Option<Task>)
    ensures
        task.is_some() == notice(observer, result@).is_some(),
        task.is_some() ==> task.unwrap()@ == notice(observer, result@).unwrap(),
{
    match result.get() {
        None => None,
        Some(Ok(variant)) => match observer {
            Observer::ThenResult { ticket, target } => Some(
                Task::ThenResult { ticket, value: Value::from_variant(variant), promise: target },
            ),
            Observer::ThenPromise { ticket, target } => Some(
                Task::ThenPromise { ticket, value: Value::from_variant(variant), promise: target },
            ),
            Observer::Fail { ticket } => None,
            Observer::Forward { target } => Some(
                Task::Settle { promise: target, result: result.clone() },
            ),
        },
        Some(Err(error)) => match observer {
            Observer::ThenResult { ticket, target } => Some(
                Task::Settle { promise: target, result: result.clone() },
            ),
            Observer::ThenPromise { ticket, target } => Some(
                Task::Settle { promise: target, result: result.clone() },
            ),
            Observer::Fail { ticket } => Some(Task::Fail { ticket, error }),
            Observer::Forward { target } => Some(
                Task::Settle { promise: target, result: result.clone() },
            ),
        },
    }
}

impl Scheduler {
    /// Makes a promise, unresolved and unobserved, and gives its handle.
    pub fn create(&mut self) -> (promise: Promise)
        ensures
            promise.id == old(self)@.promises.len(),
            final(self)@ == old(self)@.extended(),
    {
        let id = self.promises.len();
        self.promises.push(Slot { result: Result::new(), observers: Vec::new() });
        proof {
            assert(self@.promises =~= old(self)@.extended().promises);
        }
        Promise { id }
    }

    /// Whether a handle names one of the promises of this scheduler.
    pub fn owns(&self, promise: &Promise) -> (known: bool)
        ensures
            known == self@.knows(*promise),
    {
        promise.id < self.promises.len()
    }

    /// What a promise was resolved with; undefined for one that was not,
    /// and for a handle that names none.
    pub fn result_of(&self, promise: &Promise) -> (result: Result)
        ensures
            result@ == self@.outcome(*promise),
    {
        if promise.id < self.promises.len() {
            self.promises[promise.id].result.clone()
        } else {
            Result::new()
        }
    }

    /// Resolves a promise, once: it then holds the outcome, and everyone
    /// who waited for it has a task. Says whether this call did so; a
    /// promise that is already resolved stays as it is, as does everything
    /// when the handle names no promise or the result holds nothing.
    pub fn resolve(&mut self, promise: &Promise, result: &Result) -> (done: bool)
        ensures
            done == old(self)@.can_resolve(*promise, result@),
            final(self)@ == old(self)@.resolved(*promise, result@),
    {
        if promise.id >= self.promises.len() {
            return false;
        }
        if !result.is_defined() || self.promises[promise.id].result.is_defined() {
            return false;
        }
        let mut slot = Slot { result: result.clone(), observers: Vec::new() };
        let ghost before = self@;
        let ghost watchers = before.promises[promise.id as int].observers;
        core::mem::swap(&mut self.promises[promise.id], &mut slot);
        proof {
            assert(self@.promises =~= before.resolved(*promise, result@).promises);
            assert(slot.observers@ == watchers);
            assert(watchers.take(0) =~= Seq::<Observer>::empty());
            assert(self@.ready =~= before.ready + notices(watchers.take(0), result@));
        }
        let mut i: usize = 0;
        while i < slot.observers.len()
            invariant
                i <= slot.observers.len(),
                slot.observers@ == watchers,
                self@.ready == before.ready + notices(watchers.take(i as int), result@),
                self@.promises == before.resolved(*promise, result@).promises,
                self@.threads == before.threads,
                self@.now == before.now,
                self@.delayed == before.delayed,
                self@.running == before.running,
            decreases slot.observers.len() - i,
        {
            let ghost so_far = self@.ready;
            proof {
                assert(watchers.take(i + 1).drop_last() =~= watchers.take(i as int));
                assert(watchers.take(i + 1).last() == watchers[i as int]);
            }
            match notify(slot.observers[i], result) {
                Some(task) => {
                    self.ready.push_back(task);
                    proof {
                        assert(self@.ready =~= so_far.push(task@));
                    }
                },
                None => {},
            }
            i += 1;
        }
        proof {
            assert(watchers.take(watchers.len() as int) =~= watchers);
        }
        true
    }

    /// Lets an observer wait for a promise, or gives it its task at once
    /// where the promise is already resolved.
    pub fn observe(&mut self, promise: &Promise, observer: Observer)
        ensures
            final(self)@ == old(self)@.observed(*promise, observer),
    {
        if promise.id >= self.promises.len() {
            return ;
        }
        let ghost before = self@;
        if self.promises[promise.id].result.is_defined() {
            match notify(observer, &self.promises[promise.id].result) {
                Some(task) => {
                    self.ready.push_back(task);
                    proof {
                        assert(self@.ready =~= before.ready.push(task@));
                    }
                },
                None => {},
            }
        } else {
            self.promises[promise.id].observers.push(observer);
            proof {
                assert(self@.promises =~= before.observed(*promise, observer).promises);
            }
        }
    }
}


/// Whether no two of the running tasks are calls to one address.
pub open spec fn one_at_a_time(running: Seq<Option<u64>>) -> bool {
    forall|i: int, j: int|
        0 <= i < j < running.len() && running[i].is_some() ==> running[i] != running[j]
}

/// Operations of one actor never overlap: if no two running tasks are
/// calls to one address, that is still so after a task has been started,
/// and after a task has finished.
pub proof fn law_calls_never_overlap(agenda: Agenda, lane: Option<u64>)
    requires
        one_at_a_time(agenda.running),
    ensures
        one_at_a_time(agenda.started().running),
        one_at_a_time(agenda.finished(lane).running),
{
    lemma_pick(agenda.ready, agenda.running);
    lemma_first_on(agenda.running, lane);
    let at = pick(agenda.ready, agenda.running);
    if agenda.running.len() < agenda.threads && at < agenda.ready.len() {
        let next = agenda.started().running;
        assert forall|i: int, j: int|
            0 <= i < j < next.len() && next[i].is_some() implies next[i] != next[j] by {
            if j == agenda.running.len() {
                assert(agenda.running[i] == next[i]);
                if next[i] == next[j] {
                    assert(agenda.running.contains(agenda.ready[at].lane()));
                }
            }
        }
    }
    if agenda.running.contains(lane) {
        let gone = first_on(agenda.running, lane);
        let next = agenda.finished(lane).running;
        assert forall|i: int, j: int|
            0 <= i < j < next.len() && next[i].is_some() implies next[i] != next[j] by {
            let a = if i < gone { i } else { i + 1 };
            let b = if j < gone { j } else { j + 1 };
            assert(next[i] == agenda.running[a]);
            assert(next[j] == agenda.running[b]);
        }
    }
}

/// Operations of one actor start in the order in which they were sent: of
/// two calls to one address that wait, the later is never started before
/// the earlier.
pub proof fn law_calls_start_in_order(
    ready: Seq<Work>,
    running: Seq<Option<u64>>,
    earlier: int,
    later: int,
)
    requires
        0 <= earlier < later < ready.len(),
        ready[earlier].lane().is_some(),
        ready[earlier].lane() == ready[later].lane(),
    ensures
        pick(ready, running) != later,
{
    lemma_pick(ready, running);
    if pick(ready, running) == later {
        assert(!eligible(ready[earlier], running));
    }
}

/// The clock neither loses nor invents a task: every delayed task is, after
/// the clock has moved, either among those that can run or still waiting,
/// and the number of tasks that have not finished is the same.
pub proof fn law_clock_keeps_tasks(agenda: Agenda, elapsed: u64)
    ensures
        agenda.advanced(elapsed).outstanding() == agenda.outstanding(),
        due(agenda.delayed, clock_sum(agenda.now, elapsed)).to_multiset().add(
            not_due(agenda.delayed, clock_sum(agenda.now, elapsed)).map_values(
                |entry: (u64, Work)| entry.1,
            ).to_multiset(),
        ) == agenda.delayed.map_values(|entry: (u64, Work)| entry.1).to_multiset(),
{
    lemma_split(agenda.delayed, clock_sum(agenda.now, elapsed));
}

/// The tasks whose time has come and those whose time has not are, taken
/// together, the delayed tasks.
proof fn lemma_split(delayed: Seq<(u64, Work)>, now: u64)
    ensures
        due(delayed, now).len() + not_due(delayed, now).len() == delayed.len(),
        due(delayed, now).to_multiset().add(
            not_due(delayed, now).map_values(|entry: (u64, Work)| entry.1).to_multiset(),
        ) == delayed.map_values(|entry: (u64, Work)| entry.1).to_multiset(),
    decreases delayed.len(),
{
    broadcast use vstd::seq_lib::group_to_multiset_ensures;

    let task = |entry: (u64, Work)| entry.1;
    if delayed.len() == 0 {
        assert(delayed.map_values(task) =~= Seq::<Work>::empty());
        assert(not_due(delayed, now).map_values(task) =~= Seq::<Work>::empty());
        assert(due(delayed, now).to_multiset().add(
            not_due(delayed, now).map_values(task).to_multiset(),
        ) =~= delayed.map_values(task).to_multiset());
    } else {
        let front = delayed.drop_last();
        lemma_split(front, now);
        assert(delayed.map_values(task) =~= front.map_values(task).push(delayed.last().1));
        if delayed.last().0 <= now {
            assert(due(delayed, now).to_multiset().add(
                not_due(delayed, now).map_values(task).to_multiset(),
            ) =~= delayed.map_values(task).to_multiset());
        } else {
            assert(not_due(delayed, now).map_values(task) =~= not_due(front, now).map_values(
                task,
            ).push(delayed.last().1));
            assert(due(delayed, now).to_multiset().add(
                not_due(delayed, now).map_values(task).to_multiset(),
            ) =~= delayed.map_values(task).to_multiset());
        }
    }
}

/// Starting a task and finishing it leave one task fewer that has not
/// finished; a task that is scheduled and neither started nor finished is
/// still counted.
pub proof fn law_count_follows_tasks(agenda: Agenda, lane: Option<u64>)
    ensures
        agenda.started().outstanding() == agenda.outstanding(),
        agenda.running.contains(lane) ==> agenda.finished(lane).outstanding() + 1
            == agenda.outstanding(),
        !agenda.running.contains(lane) ==> agenda.finished(lane) == agenda,
{
    lemma_pick(agenda.ready, agenda.running);
    lemma_first_on(agenda.running, lane);
}


/// What a state has become once a single driver has started, carried out
/// and finished task after task until none can start, where carrying out a
/// task takes the state through `step`.
pub open spec fn served<S>(agenda: Agenda, state: S, step: spec_fn(S, Work) -> S) -> S
    decreases agenda.ready.len(),
{
    let at = pick(agenda.ready, agenda.running);
    if agenda.running.len() < agenda.threads && at < agenda.ready.len() {
        let next = agenda.started().finished(agenda.ready[at].lane());
        if next.ready.len() < agenda.ready.len() {
            served(next, step(state, agenda.ready[at]), step)
        } else {
            state
        }
    } else {
        state
    }
}

/// Operations take effect one after the other in the order in which they
/// were sent: a driver that starts with no task running, on a scheduler
/// with at least one worker, carries the waiting tasks out in their order,
/// so that the state at the end is the state at the beginning taken through
/// every task in turn.
pub proof fn law_tasks_are_served_in_order<S>(
    agenda: Agenda,
    state: S,
    step: spec_fn(S, Work) -> S,
)
    requires
        agenda.running.len() == 0,
        agenda.threads > 0,
    ensures
        served(agenda, state, step) == agenda.ready.fold_left(state, step),
    decreases agenda.ready.len(),
{
    lemma_pick(agenda.ready, agenda.running);
    if agenda.ready.len() > 0 {
        assert(!agenda.running.contains(agenda.ready[0].lane()));
        assert(eligible(agenda.ready[0], agenda.running));
        lemma_pick_is(agenda.ready, agenda.running, 0);
        let first = agenda.ready[0];
        let lane = first.lane();
        let begun = agenda.started();
        assert(begun.running =~= seq![lane]);
        lemma_first_on(begun.running, lane);
        let next = begun.finished(lane);
        assert(next.running =~= Seq::<Option<u64>>::empty());
        assert(next.ready =~= agenda.ready.skip(1));
        law_tasks_are_served_in_order(next, step(state, first), step);
        reveal_with_fuel(Seq::fold_left, 2);
        agenda.ready.lemma_fold_left_split(state, step, 1);
        assert(agenda.ready.subrange(0, 1).drop_last() =~= Seq::<Work>::empty());
        assert(agenda.ready.subrange(1, agenda.ready.len() as int) =~= agenda.ready.skip(1));
    }
}

} // verus!

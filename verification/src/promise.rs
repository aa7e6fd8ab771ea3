//! Promises: single-assignment outcomes with continuations that the
//! scheduler turns into tasks.

use vstd::prelude::*;
use crate::result::{outcome_of, Outcome, Result};
use crate::scheduler::{notice, notices, Agenda, Observer, Promise, Scheduler, Work};
use crate::value::{Value, Variant};

verus! {

impl Promise {
    /// A new promise, bound to the scheduler that will run its
    /// continuations. It is unresolved and nobody waits for it.
    pub fn new(scheduler: &mut Scheduler) -> (promise: Promise)
        ensures
            promise.id == old(scheduler)@.promises.len(),
            final(scheduler)@ == old(scheduler)@.extended(),
    {
        scheduler.create()
    }

    /// Resolves the promise with a result, once. Says whether this call
    /// did so: a second resolution is refused and changes nothing, as does
    /// a result that holds nothing yet.
    pub fn set_result(&self, scheduler: &mut Scheduler, result: &Result) -> (done: bool)
        ensures
            done == old(scheduler)@.can_resolve(*self, result@),
            final(scheduler)@ == old(scheduler)@.resolved(*self, result@),
    {
        scheduler.resolve(self, result)
    }

    /// What the promise was resolved with; a result that holds nothing
    /// while it is unresolved.
    pub fn get_result(&self, scheduler: &Scheduler) -> (result: Result)
        ensures
            result@ == scheduler@.outcome(*self),
    {
        scheduler.result_of(self)
    }

    /// Resolves the promise with a value or an error message, once. Says
    /// whether this call did so.
    pub fn set(
        &self,
        scheduler: &mut Scheduler,
        result: core::result::Result<Variant, std::string::String>,
    ) -> (done: bool)
        ensures
            done == old(scheduler)@.can_resolve(*self, outcome_of(result)),
            final(scheduler)@ == old(scheduler)@.resolved(*self, outcome_of(result)),
    {
        let result = Result::from_outcome(result);
        scheduler.resolve(self, &result)
    }

    /// Lets this promise follow another: whatever the other is or will be
    /// resolved with, a task will resolve this one with the same.
    pub fn set_from_promise(&self, scheduler: &mut Scheduler, promise: &Promise)
        ensures
            final(scheduler)@ == old(scheduler)@.observed(
                *promise,
                Observer::Forward { target: *self },
            ),
    {
        scheduler.observe(promise, Observer::Forward { target: *self });
    }

    /// Registers callback `then` for the value of this promise and gives
    /// the promise of what the callback will return. On a value, a task
    /// will ask for the callback; on an error, the callback is passed over
    /// and a task will resolve the new promise with the same error.
    pub fn then_result(&self, scheduler: &mut Scheduler, then: u64) -> (next: Promise)
        ensures
            next.id == old(scheduler)@.promises.len(),
            final(scheduler)@ == old(scheduler)@.extended().observed(
                *self,
                Observer::ThenResult { ticket: then, target: next },
            ),
    {
        let next = scheduler.create();
        scheduler.observe(self, Observer::ThenResult { ticket: then, target: next });
        next
    }

    /// Registers callback `then`, which answers a value with another
    /// promise, and gives the promise that will follow that one. On an
    /// error, the callback is passed over and a task will resolve the new
    /// promise with the same error.
    pub fn then_promise(&self, scheduler: &mut Scheduler, then: u64) -> (next: Promise)
        ensures
            next.id == old(scheduler)@.promises.len(),
            final(scheduler)@ == old(scheduler)@.extended().observed(
                *self,
                Observer::ThenPromise { ticket: then, target: next },
            ),
    {
        let next = scheduler.create();
        scheduler.observe(self, Observer::ThenPromise { ticket: then, target: next });
        next
    }

    /// Registers callback `fail` for the error of this promise. On an
    /// error, a task will ask for the callback with the message; on a
    /// value, nothing happens. The promise itself is not affected.
    pub fn fail(&self, scheduler: &mut Scheduler, fail: u64)
        ensures
            final(scheduler)@ == old(scheduler)@.observed(*self, Observer::Fail { ticket: fail }),
    {
        scheduler.observe(self, Observer::Fail { ticket: fail });
    }

    /// Takes what a `then_promise` callback returned: this promise follows
    /// the promise that it gave, or is resolved with the error that it
    /// gave.
    pub fn follow(
        &self,
        scheduler: &mut Scheduler,
        given: core::result::Result<Promise, std::string::String>,
    )
        ensures
            final(scheduler)@ == match given {
                Ok(promise) => old(scheduler)@.observed(
                    promise,
                    Observer::Forward { target: *self },
                ),
                Err(message) => old(scheduler)@.resolved(*self, Outcome::Error(message@)),
            },
    {
        match given {
            Ok(promise) => {
                self.set_from_promise(scheduler, &promise);
            },
            Err(message) => {
                self.set(scheduler, Err(message));
            },
        }
    }
}

/// Carries out a `ThenResult` task: calls the callback on the value and
/// resolves the promise with what it returned. Says whether the promise was
/// resolved by this.
pub fn result_callback<F>(scheduler: &mut Scheduler, then: &F, value: Value, promise: &Promise) -> (done:
    bool) where F: Fn(Value) -> core::result::Result<Variant, std::string::String>
    requires
        call_requires(*then, (value,)),
    ensures
        exists|given: core::result::Result<Variant, std::string::String>|
            call_ensures(*then, (value,), given) && final(scheduler)@ == old(scheduler)@.resolved(
                *promise,
                outcome_of(given),
            ) && done == old(scheduler)@.can_resolve(*promise, outcome_of(given)),
{
    let given = then(value);
    let ghost returned = given;
    let done = promise.set(scheduler, given);
    proof {
        assert(call_ensures(*then, (value,), returned) && scheduler@ == old(scheduler)@.resolved(
            *promise,
            outcome_of(returned),
        ) && done == old(scheduler)@.can_resolve(*promise, outcome_of(returned)));
    }
    done
}

/// Carries out a `ThenPromise` task: calls the callback on the value; the
/// promise then follows the promise that it returned, or is resolved with
/// the error that it returned.
pub fn promise_callback<F>(scheduler: &mut Scheduler, then: &F, value: Value, promise: &Promise) where
    F: Fn(Value) -> core::result::Result<Promise, std::string::String>,

    requires
        call_requires(*then, (value,)),
    ensures
        exists|given: core::result::Result<Promise, std::string::String>|
            call_ensures(*then, (value,), given) && final(scheduler)@ == match given {
                Ok(source) => old(scheduler)@.observed(
                    source,
                    Observer::Forward { target: *promise },
                ),
                Err(message) => old(scheduler)@.resolved(*promise, Outcome::Error(message@)),
            },
{
    let given = then(value);
    let ghost returned = given;
    promise.follow(scheduler, given);
    proof {
        assert(call_ensures(*then, (value,), returned) && scheduler@ == match returned {
            Ok(source) => old(scheduler)@.observed(source, Observer::Forward { target: *promise }),
            Err(message) => old(scheduler)@.resolved(*promise, Outcome::Error(message@)),
        });
    }
}

/// Carries out a `Fail` task: calls the callback on the error's message.
pub fn error_callback<F>(fail: &F, error: std::string::String) where F: Fn(std::string::String)
    requires
        call_requires(*fail, (error,)),
    ensures
        call_ensures(*fail, (error,), ()),
{
    fail(error);
}

/// The tickets of the `fail` callbacks among a run of observers, in order.
pub open spec fn fail_tickets(observers: Seq<Observer>) -> Seq<u64>
    decreases observers.len(),
{
    if observers.len() == 0 {
        Seq::empty()
    } else {
        match observers.last() {
            Observer::Fail { ticket } => fail_tickets(observers.drop_last()).push(ticket),
            _ => fail_tickets(observers.drop_last()),
        }
    }
}

/// The tickets of the `fail` callbacks that a run of tasks asks for, in
/// order, where each is asked for with the given message.
pub open spec fn failures_told(works: Seq<Work>, message: Seq<char>) -> Seq<u64>
    decreases works.len(),
{
    if works.len() == 0 {
        Seq::empty()
    } else {
        match works.last() {
            Work::Fail { ticket, error } if error == message => failures_told(
                works.drop_last(),
                message,
            ).push(ticket),
            _ => failures_told(works.drop_last(), message),
        }
    }
}

/// When a promise is resolved with an error, no task asks for a
/// `then_result` or `then_promise` callback, and the tasks ask for each
/// `fail` callback exactly once, with that error's message and in the order
/// of registration.
pub proof fn law_error_passes_over_callbacks(observers: Seq<Observer>, message: Seq<char>)
    ensures
        forall|i: int|
            0 <= i < notices(observers, Outcome::Error(message)).len() ==> {
                let work = #[trigger] notices(observers, Outcome::Error(message))[i];
                !(work is ThenResult) && !(work is ThenPromise) && (work is Fail ==> work->Fail_error
                    == message)
            },
        failures_told(notices(observers, Outcome::Error(message)), message) == fail_tickets(
            observers,
        ),
    decreases observers.len(),
{
    if observers.len() > 0 {
        let outcome = Outcome::Error(message);
        let earlier = notices(observers.drop_last(), outcome);
        law_error_passes_over_callbacks(observers.drop_last(), message);
        match notice(observers.last(), outcome) {
            Some(work) => {
                assert(earlier.push(work).drop_last() =~= earlier);
            },
            None => {},
        }
    }
}

/// When a promise is resolved with a value, no task asks for a `fail`
/// callback.
pub proof fn law_value_passes_over_fail(observers: Seq<Observer>, value: crate::value::Datum)
    ensures
        forall|i: int|
            0 <= i < notices(observers, Outcome::Value(value)).len() ==> !(
            #[trigger] notices(observers, Outcome::Value(value))[i] is Fail),
    decreases observers.len(),
{
    if observers.len() > 0 {
        law_value_passes_over_fail(observers.drop_last(), value);
    }
}

/// A promise is resolved at most once: after a resolution that took effect,
/// a second one changes nothing, whatever it brings.
pub proof fn law_single_resolution(
    agenda: Agenda,
    promise: Promise,
    first: Outcome,
    second: Outcome,
)
    requires
        agenda.can_resolve(promise, first),
    ensures
        !agenda.resolved(promise, first).can_resolve(promise, second),
        agenda.resolved(promise, first).resolved(promise, second) == agenda.resolved(
            promise,
            first,
        ),
        agenda.resolved(promise, first).outcome(promise) == first,
{
}

} // verus!

//! Actors: a state with named operations that read or write it, reached
//! through a mailbox and run one at a time.

use vstd::prelude::*;
use crate::result::{outcome_of, Outcome, Result};
use crate::scheduler::{Agenda, Mailbox, Promise, Scheduler, Task, Work};
use crate::value::{List, Variant};

verus! {

/// The message of the error that answers an operation that the actor does
/// not have.
pub open spec fn unknown_operation() -> Seq<char> {
    "unknown operation"@
}

/// A unit of work from a list of arguments to a value or an error.
pub struct Function<F> {
    function: F,
}

impl<F: Fn(List) -> core::result::Result<Variant, std::string::String>> Function<F> {
    /// The closure that does the work.
    pub closed spec fn body(&self) -> F {
        self.function
    }

    /// Whether a result can come from calling the function on arguments
    /// with the given meaning.
    pub open spec fn gives(&self, arguments: Seq<crate::value::Datum>, outcome: Outcome) -> bool {
        exists|list: List, given: core::result::Result<Variant, std::string::String>|
            list@ == arguments && call_ensures(self.body(), (list,), given) && outcome
                == outcome_of(given)
    }

    /// Wraps a closure that can be called on every list.
    pub fn new(function: F) -> (wrapped: Function<F>)
        requires
            forall|list: List| call_requires(function, (list,)),
        ensures
            wrapped.body() == function,
    {
        Function { function }
    }

    /// Calls the function on a copy of the arguments, so that the caller's
    /// list stays as it is, and gives what it returned as a result.
    pub fn call(&self, arguments: &List) -> (result: Result)
        requires
            forall|list: List| call_requires(self.body(), (list,)),
        ensures
            self.gives(arguments@, result@),
    {
        let list = arguments.clone();
        let ghost passed = list;
        let given = (self.function)(list);
        let ghost returned = given;
        let result = Result::from_outcome(given);
        proof {
            assert(passed@ == arguments@ && call_ensures(self.body(), (passed,), returned)
                && result@ == outcome_of(returned));
        }
        result
    }
}

/// Lets a writer work on a state and gives what it returned.
fn write<T, W>(writer: &W, state: &mut T, arguments: List) -> (given: core::result::Result<
    Variant,
    std::string::String,
>) where W: Fn(&mut T, List) -> core::result::Result<Variant, std::string::String>
    requires
        forall|state: &mut T, list: List| call_requires(*writer, (state, list)),
    ensures
        exists|before: &mut T|
            *before == *old(state) && *final(before) == *final(state) && call_ensures(
                *writer,
                (before, arguments),
                given,
            ),
{
    writer(state, arguments)
}

/// What an operation does with the state of its actor.
pub enum Handler<R, W> {
    /// It only looks at the state.
    Reader(R),
    /// It may change the state.
    Writer(W),
}

/// A named operation of an actor.
pub struct Operation<R, W> {
    pub name: std::string::String,
    pub handler: Handler<R, W>,
}

/// The place of the last operation with a name, or -1 when none has it: a
/// later definition of a name takes the place of an earlier one.
pub open spec fn last_named<R, W>(operations: Seq<Operation<R, W>>, name: Seq<char>) -> int
    decreases operations.len(),
{
    if operations.len() == 0 {
        -1
    } else if operations.last().name@ == name {
        operations.len() - 1
    } else {
        last_named(operations.drop_last(), name)
    }
}

/// An owner of private state and of the named operations on it.
pub struct Actor<T, R, W> {
    state: T,
    address: u64,
    operations: Vec<Operation<R, W>>,
}

impl<T, R, W> Actor<T, R, W> where
    R: Fn(&T, List) -> core::result::Result<Variant, std::string::String>,
    W: Fn(&mut T, List) -> core::result::Result<Variant, std::string::String>,
 {
    /// The state that the operations work on.
    pub closed spec fn state(&self) -> T {
        self.state
    }

    /// The address of the actor, which its mailboxes carry.
    pub closed spec fn address(&self) -> u64 {
        self.address
    }

    /// The operations in the order of their definition.
    pub closed spec fn operations(&self) -> Seq<Operation<R, W>> {
        self.operations@
    }

    /// Whether every operation can be called on every state and every
    /// list of arguments.
    pub open spec fn well_formed(&self) -> bool {
        forall|i: int|
            0 <= i < self.operations().len() ==> match (#[trigger] self.operations()[i]).handler {
                Handler::Reader(reader) => forall|state: &T, list: List|
                    call_requires(reader, (state, list)),
                Handler::Writer(writer) => forall|state: &mut T, list: List|
                    call_requires(writer, (state, list)),
            }
    }

    /// Whether a call by name is answered without the state changing, with
    /// the given outcome: a name that the actor does not have gives the
    /// error "unknown operation", a reader gives what it can return on the
    /// state and on arguments of the given meaning.
    pub open spec fn reads(
        &self,
        name: Seq<char>,
        arguments: Seq<crate::value::Datum>,
        outcome: Outcome,
    ) -> bool {
        let at = last_named(self.operations(), name);
        if at < 0 {
            outcome == Outcome::Error(unknown_operation())
        } else {
            match self.operations()[at].handler {
                Handler::Reader(reader) => exists|
                    list: List,
                    given: core::result::Result<Variant, std::string::String>,
                |
                    list@ == arguments && call_ensures(reader, (&self.state(), list), given)
                        && outcome == outcome_of(given),
                Handler::Writer(writer) => false,
            }
        }
    }

    /// The writer that a name stands for, if it stands for one.
    pub open spec fn writer_named(&self, name: Seq<char>) -> Option<W> {
        let at = last_named(self.operations(), name);
        if at < 0 {
            None
        } else {
            match self.operations()[at].handler {
                Handler::Reader(reader) => None,
                Handler::Writer(writer) => Some(writer),
            }
        }
    }

    /// An actor around a state, with no operation yet, at address 0.
    pub fn new(state: T) -> (actor: Self)
        ensures
            actor.state() == state,
            actor.address() == 0,
            actor.operations() == Seq::<Operation<R, W>>::empty(),
            actor.well_formed(),
    {
        Actor { state, address: 0, operations: Vec::new() }
    }

    /// The same actor at another address.
    pub fn with_address(self, address: u64) -> (actor: Self)
        ensures
            actor.state() == self.state(),
            actor.address() == address,
            actor.operations() == self.operations(),
    {
        Actor { state: self.state, address, operations: self.operations }
    }

    /// A mailbox for sending operations to this actor.
    pub fn mailbox(&self) -> (mailbox: Mailbox)
        ensures
            mailbox.address == self.address(),
    {
        Mailbox { address: self.address }
    }

    /// Defines an operation that only looks at the state.
    pub fn define_reader(self, name: &str, method: R) -> (actor: Self)
        requires
            self.well_formed(),
            forall|state: &T, list: List| call_requires(method, (state, list)),
        ensures
            actor.state() == self.state(),
            actor.address() == self.address(),
            actor.operations().len() == self.operations().len() + 1,
            actor.operations().drop_last() == self.operations(),
            actor.operations().last().name@ == name@,
            actor.operations().last().handler == Handler::<R, W>::Reader(method),
            actor.well_formed(),
    {
        let mut operations = self.operations;
        let ghost before = operations@;
        operations.push(Operation { name: name.to_owned(), handler: Handler::Reader(method) });
        proof {
            assert(operations@.drop_last() =~= before);
        }
        Actor { state: self.state, address: self.address, operations }
    }

    /// Defines an operation that may change the state.
    pub fn define_writer(self, name: &str, method: W) -> (actor: Self)
        requires
            self.well_formed(),
            forall|state: &mut T, list: List| call_requires(method, (state, list)),
        ensures
            actor.state() == self.state(),
            actor.address() == self.address(),
            actor.operations().len() == self.operations().len() + 1,
            actor.operations().drop_last() == self.operations(),
            actor.operations().last().name@ == name@,
            actor.operations().last().handler == Handler::<R, W>::Writer(method),
            actor.well_formed(),
    {
        let mut operations = self.operations;
        let ghost before = operations@;
        operations.push(Operation { name: name.to_owned(), handler: Handler::Writer(method) });
        proof {
            assert(operations@.drop_last() =~= before);
        }
        Actor { state: self.state, address: self.address, operations }
    }

    /// Where the last operation with the name stands, if there is one.
    fn find(&self, name: &str) -> (at: Option<usize>)
        ensures
            at.is_none() <==> last_named(self.operations(), name@) < 0,
            at.is_some() ==> at.unwrap() == last_named(self.operations(), name@),
            at.is_some() ==> at.unwrap() < self.operations().len(),
    {
        let wanted = name.to_owned();
        let mut i: usize = self.operations.len();
        proof {
            assert(self.operations@.take(i as int) =~= self.operations@);
        }
        while i > 0
            invariant
                i <= self.operations.len(),
                wanted@ == name@,
                last_named(self.operations@, name@) == last_named(
                    self.operations@.take(i as int),
                    name@,
                ),
            decreases i,
        {
            proof {
                assert(self.operations@.take(i as int).drop_last() =~= self.operations@.take(
                    i - 1,
                ));
                assert(self.operations@.take(i as int).last() == self.operations@[i - 1]);
            }
            if self.operations[i - 1].name == wanted {
                return Some(i - 1);
            }
            i -= 1;
        }
        None
    }

    /// Runs the operation with the given name on a list of arguments and
    /// gives its result. Errors that the operation returns, and the error
    /// for a name that the actor does not have, are results like any
    /// other.
    pub fn call(&mut self, name: &str, arguments: List) -> (result: Result)
        requires
            old(self).well_formed(),
        ensures
            final(self).address() == old(self).address(),
            final(self).operations() == old(self).operations(),
            final(self).well_formed(),
            old(self).writer_named(name@).is_none() ==> final(self).state() == old(self).state()
                && old(self).reads(name@, arguments@, result@),
            old(self).writer_named(name@).is_some() ==> exists|
                state: &mut T,
                list: List,
                given: core::result::Result<Variant, std::string::String>,
            |
                *state == old(self).state() && *final(state) == final(self).state() && list@
                    == arguments@ && call_ensures(
                    old(self).writer_named(name@).unwrap(),
                    (state, list),
                    given,
                ) && result@ == outcome_of(given),
    {
        match self.find(name) {
            None => Result::from_outcome(Err("unknown operation".to_owned())),
            Some(at) => {
                match &self.operations[at].handler {
                    Handler::Reader(reader) => {
                        let ghost passed = arguments;
                        let given = reader(&self.state, arguments);
                        let ghost returned = given;
                        let result = Result::from_outcome(given);
                        proof {
                            assert(passed@ == arguments@ && call_ensures(
                                *reader,
                                (&self.state(), passed),
                                returned,
                            ) && result@ == outcome_of(returned));
                        }
                        result
                    },
                    Handler::Writer(writer) => {
                        let ghost passed = arguments;
                        let given = write(writer, &mut self.state, arguments);
                        let ghost returned = given;
                        let result = Result::from_outcome(given);
                        proof {
                            let before = choose|before: &mut T|
                                *before == old(self).state() && *final(before) == self.state()
                                    && call_ensures(*writer, (before, passed), returned);
                            assert(*before == old(self).state() && *final(before) == self.state()
                                && passed@ == arguments@ && call_ensures(
                                old(self).writer_named(name@).unwrap(),
                                (before, passed),
                                returned,
                            ) && result@ == outcome_of(returned));
                        }
                        result
                    },
                }
            },
        }
    }

    /// Does what a call task asks: runs the operation and resolves the
    /// promise with its result. Says whether the promise was resolved by
    /// this.
    pub fn perform(
        &mut self,
        scheduler: &mut Scheduler,
        name: &str,
        arguments: List,
        promise: &Promise,
    ) -> (done: bool)
        requires
            old(self).well_formed(),
        ensures
            final(self).address() == old(self).address(),
            final(self).operations() == old(self).operations(),
            final(self).well_formed(),
            old(self).writer_named(name@).is_none() ==> final(self).state() == old(self).state()
                && exists|outcome: Outcome|
                old(self).reads(name@, arguments@, outcome) && final(scheduler)@ == old(scheduler)@.resolved(*promise, outcome) && done == old(scheduler)@.can_resolve(
                    *promise,
                    outcome,
                ),
            old(self).writer_named(name@).is_some() ==> exists|
                state: &mut T,
                list: List,
                given: core::result::Result<Variant, std::string::String>,
            |
                *state == old(self).state() && *final(state) == final(self).state() && list@
                    == arguments@ && call_ensures(
                    old(self).writer_named(name@).unwrap(),
                    (state, list),
                    given,
                ) && final(scheduler)@ == old(scheduler)@.resolved(*promise, outcome_of(given))
                    && done == old(scheduler)@.can_resolve(*promise, outcome_of(given)),
    {
        let result = self.call(name, arguments);
        promise.set_result(scheduler, &result)
    }
}

impl Mailbox {
    /// The task that a send leaves with the scheduler.
    pub open spec fn call_for(
        self,
        name: Seq<char>,
        arguments: Seq<crate::value::Datum>,
        promise: Promise,
    ) -> Work {
        Work::Call { mailbox: self, name, arguments, promise }
    }

    /// Sends an operation to the actor: makes the promise of its result and
    /// leaves a task that will run the operation on a copy of the
    /// arguments. Operations sent to one address run one at a time, in the
    /// order in which they were sent.
    pub fn send(&self, scheduler: &mut Scheduler, name: &str, arguments: &List) -> (promise:
        Promise)
        ensures
            promise.id == old(scheduler)@.promises.len(),
            final(scheduler)@ == (Agenda {
                ready: old(scheduler)@.ready.push(self.call_for(name@, arguments@, promise)),
                ..old(scheduler)@.extended()
            }),
    {
        let promise = scheduler.create();
        scheduler.schedule(
            Task::Call {
                mailbox: *self,
                name: name.to_owned(),
                arguments: arguments.clone(),
                promise,
            },
        );
        promise
    }
}

} // verus!

//! A closable first-in, first-out queue of values.

use vstd::prelude::*;
use std::collections::VecDeque;
use crate::value::{Datum, IntoVariant, List, Value, Variant};

verus! {

/// A queue of values with a closed flag. Values leave in the order in which
/// they came; once the queue is closed nothing more comes in, and what is
/// left can still be taken out.
pub struct Queue {
    items: VecDeque<Value>,
    shut: bool,
}

impl View for Queue {
    type V = Seq<Datum>;

    /// The values that wait in the queue, the oldest first.
    closed spec fn view(&self) -> Seq<Datum> {
        Seq::new(self.items@.len(), |i: int| self.items@[i]@)
    }
}

impl Queue {
    /// Whether the queue has been closed.
    pub closed spec fn is_closed(&self) -> bool {
        self.shut
    }

    /// An open queue with nothing in it.
    pub fn new() -> (queue: Queue)
        ensures
            queue@ == Seq::<Datum>::empty(),
            !queue.is_closed(),
    {
        let queue = Queue { items: VecDeque::new(), shut: false };
        proof {
            assert(queue@ =~= Seq::<Datum>::empty());
        }
        queue
    }

    /// Whether the queue has been closed.
    pub fn closed(&self) -> (shut: bool)
        ensures
            shut == self.is_closed(),
    {
        self.shut
    }

    /// How many values wait in the queue.
    pub fn count(&self) -> (n: usize)
        ensures
            n == self@.len(),
    {
        self.items.len()
    }

    /// Closes the queue. What waits in it stays; closing again changes
    /// nothing.
    pub fn close(&mut self)
        ensures
            final(self).is_closed(),
            final(self)@ == old(self)@,
    {
        self.shut = true;
    }

    /// Adds a value at the back of an open queue and says `true`; a closed
    /// queue stays as it is and the call says `false`.
    pub fn push_variant(&mut self, variant: Variant) -> (done: bool)
        ensures
            done == !old(self).is_closed(),
            final(self).is_closed() == old(self).is_closed(),
            done ==> final(self)@ == old(self)@.push(variant@),
            !done ==> final(self)@ == old(self)@,
    {
        if self.shut {
            return false;
        }
        self.items.push_back(Value::from_variant(variant));
        proof {
            assert(self@ =~= old(self)@.push(variant@));
        }
        true
    }

    /// Takes the oldest value out, in a container of its own. Absent when
    /// nothing waits, whether the queue is closed or not.
    pub fn pop_value(&mut self) -> (taken: Option<Value>)
        ensures
            final(self).is_closed() == old(self).is_closed(),
            old(self)@.len() == 0 ==> taken.is_none() && final(self)@ == old(self)@,
            old(self)@.len() > 0 ==> taken.is_some() && taken.unwrap()@ == old(self)@[0]
                && final(self)@ == old(self)@.skip(1),
    {
        let taken = self.items.pop_front();
        proof {
            if old(self)@.len() > 0 {
                assert(self@ =~= old(self)@.skip(1));
            } else {
                assert(self@ =~= old(self)@);
            }
        }
        taken
    }

    /// Takes the oldest value out. Absent when nothing waits, whether the
    /// queue is closed or not.
    pub fn pop(&mut self) -> (taken: Option<Variant>)
        ensures
            final(self).is_closed() == old(self).is_closed(),
            old(self)@.len() == 0 ==> taken.is_none() && final(self)@ == old(self)@,
            old(self)@.len() > 0 ==> taken.is_some() && taken.unwrap()@ == old(self)@[0]
                && final(self)@ == old(self)@.skip(1),
    {
        match self.pop_value() {
            Some(value) => Some(value.into_variant()),
            None => None,
        }
    }

    /// Moves every waiting value to the end of a list, the oldest first,
    /// and says whether there was any.
    pub fn pop_into_list(&mut self, list: &mut List) -> (any: bool)
        ensures
            any == (old(self)@.len() > 0),
            final(self).is_closed() == old(self).is_closed(),
            final(self)@ == Seq::<Datum>::empty(),
            final(list)@ == old(list)@ + old(self)@,
    {
        let mut any = false;
        let ghost mut moved: Seq<Datum> = Seq::empty();
        loop
            invariant
                self.is_closed() == old(self).is_closed(),
                moved + self@ == old(self)@,
                list@ == old(list)@ + moved,
                any == (moved.len() > 0),
            ensures
                self@.len() == 0,
            decreases self@.len(),
        {
            let ghost before = self@;
            match self.pop_value() {
                Some(value) => {
                    list.push(value.into_variant());
                    any = true;
                    proof {
                        let next = moved.push(before[0]);
                        assert(next + self@ =~= moved + before);
                        assert(list@ =~= old(list)@ + next);
                        moved = next;
                    }
                },
                None => {
                    break ;
                },
            }
        }
        proof {
            assert(self@ =~= Seq::<Datum>::empty());
            assert(moved =~= old(self)@);
        }
        any
    }
}

/// Adding a value of type `V` at the back of a queue. An open queue takes
/// the value and the call says `true`; a closed one stays as it is and the
/// call says `false`.
pub trait Push<V: IntoVariant>: View<V = Seq<Datum>> {
    /// Whether the queue has been closed.
    spec fn shut(&self) -> bool;

    fn push(&mut self, value: V) -> (done: bool)
        ensures
            done == !old(self).shut(),
            final(self).shut() == old(self).shut(),
            done ==> final(self)@ == old(self)@.push(value.meaning()),
            !done ==> final(self)@ == old(self)@,
    ;
}

impl<V: IntoVariant> Push<V> for Queue {
    open spec fn shut(&self) -> bool {
        self.is_closed()
    }

    fn push(&mut self, value: V) -> (done: bool) {
        if self.shut {
            return false;
        }
        self.push_variant(value.into_variant())
    }
}

} // verus!

//! The outcome of one operation: nothing yet, a value, or an error.

use vstd::prelude::*;
use vstd::utf8::encode_utf8;
use crate::text::String;
use crate::value::{Datum, Value, Variant};

verus! {

/// What a `Result` holds, as mathematics.
pub enum Outcome {
    /// Nothing has been set.
    Undefined,
    /// The operation gave a value.
    Value(Datum),
    /// The operation failed, with this message.
    Error(Seq<char>),
}

/// What setting `given` on a result that holds `held` leaves in it: the
/// first value or error stays for good.
pub open spec fn settled(held: Outcome, given: Outcome) -> Outcome {
    if held is Undefined {
        given
    } else {
        held
    }
}

/// What a value or an error message given from outside stands for.
pub open spec fn outcome_of(given: core::result::Result<Variant, std::string::String>) -> Outcome {
    match given {
        Ok(variant) => Outcome::Value(variant@),
        Err(message) => Outcome::Error(message@),
    }
}

#[derive(Debug)]
enum State {
    Undefined,
    Value(Value),
    Error(std::string::String),
}

/// A single-assignment cell for the outcome of an operation.
#[derive(Debug)]
pub struct Result {
    state: State,
}

impl View for Result {
    type V = Outcome;

    closed spec fn view(&self) -> Outcome {
        match self.state {
            State::Undefined => Outcome::Undefined,
            State::Value(value) => Outcome::Value(value@),
            State::Error(message) => Outcome::Error(message@),
        }
    }
}

impl Result {
    /// A result with nothing set.
    pub fn new() -> (result: Result)
        ensures
            result@ is Undefined,
    {
        Result { state: State::Undefined }
    }

    /// A result that already holds the given outcome.
    pub fn from_outcome(given: core::result::Result<Variant, std::string::String>) -> (result:
        Result)
        ensures
            result@ == outcome_of(given),
    {
        match given {
            Ok(variant) => Result { state: State::Value(Value::from_variant(variant)) },
            Err(message) => Result { state: State::Error(message) },
        }
    }

    /// Whether a value or an error has been set.
    pub fn is_defined(&self) -> (defined: bool)
        ensures
            defined == !(self@ is Undefined),
    {
        match &self.state {
            State::Undefined => false,
            _ => true,
        }
    }

    /// Sets the value or the error, once. A result that already holds one
    /// keeps it, and the call says `false`.
    pub fn set(&mut self, given: core::result::Result<Variant, std::string::String>) -> (done:
        bool)
        ensures
            done == (old(self)@ is Undefined),
            final(self)@ == settled(old(self)@, outcome_of(given)),
    {
        if self.is_defined() {
            return false;
        }
        match given {
            Ok(variant) => {
                self.state = State::Value(Value::from_variant(variant));
            },
            Err(message) => {
                self.state = State::Error(message);
            },
        }
        true
    }

    /// What has been set, if anything: the value, or the error message.
    pub fn get(&self) -> (held: Option<core::result::Result<Variant, std::string::String>>)
        ensures
            held.is_none() <==> self@ is Undefined,
            held.is_some() ==> outcome_of(held.unwrap()) == self@,
    {
        match &self.state {
            State::Undefined => None,
            State::Value(value) => Some(Ok(value.to_variant())),
            State::Error(message) => Some(Err(message.clone())),
        }
    }

    /// What has been set, if anything: the value in a container of its own,
    /// or the bytes of the error message.
    pub fn get_value(&self) -> (held: Option<core::result::Result<Value, String>>)
        ensures
            match self@ {
                Outcome::Undefined => held.is_none(),
                Outcome::Value(datum) => held matches Some(Ok(value)) && value@ == datum,
                Outcome::Error(message) => held matches Some(Err(bytes)) && bytes@
                    == encode_utf8(message),
            },
    {
        match &self.state {
            State::Undefined => None,
            State::Value(value) => Some(Ok(value.clone())),
            State::Error(message) => Some(Err(String::from(message.as_str()))),
        }
    }
}

impl Clone for Result {
    /// A copy that shares nothing with the value it was made from.
    fn clone(&self) -> (copy: Self)
        ensures
            copy@ == self@,
    {
        match &self.state {
            State::Undefined => Result { state: State::Undefined },
            State::Value(value) => Result { state: State::Value(value.clone()) },
            State::Error(message) => Result { state: State::Error(message.clone()) },
        }
    }
}

} // verus!

//! Request and reply, publish and subscribe: what goes over the wire and
//! what is done with what comes in. Sending and receiving bytes is left to
//! the caller.
//!
//! A request is a list of the operation's name and the list of its
//! arguments. A reply is a list of `true` and the value, or of `false` and
//! the error's message. A publication is a list of the topic and the value.
//! Each is written and read with a format.

use vstd::prelude::*;
use vstd::string::StringSliceAdditionalSpecFns;
use vstd::utf8::{decode_utf8, encode_utf8, valid_utf8};
use crate::format::{decoded, encoded, fits, Format, MAX_DEPTH};
use crate::result::{Outcome, Result};
use crate::scheduler::{Agenda, Mailbox, Promise, Scheduler};
use crate::unpack::{decimal_text, invalid_conversion, invalid_item, unpack_item};
use crate::value::{Datum, List, Variant};

verus! {

/// A request as a value.
pub open spec fn request_datum(name: Seq<char>, arguments: Seq<Datum>) -> Datum {
    Datum::List(seq![Datum::String(encode_utf8(name)), Datum::List(arguments)])
}

/// The name and the arguments that a value asks for, where it is a request.
pub open spec fn request_of(datum: Datum) -> Option<(Seq<char>, Seq<Datum>)> {
    match datum {
        Datum::List(items) => if items.len() == 2 {
            match (items[0], items[1]) {
                (Datum::String(name), Datum::List(arguments)) => if valid_utf8(name) {
                    Some((decode_utf8(name), arguments))
                } else {
                    None
                },
                _ => None,
            }
        } else {
            None
        },
        _ => None,
    }
}

/// A reply as a value; an outcome that is not there has none.
pub open spec fn reply_datum(outcome: Outcome) -> Option<Datum> {
    match outcome {
        Outcome::Undefined => None,
        Outcome::Value(value) => Some(Datum::List(seq![Datum::Bool(true), value])),
        Outcome::Error(message) => Some(
            Datum::List(seq![Datum::Bool(false), Datum::String(encode_utf8(message))]),
        ),
    }
}

/// The outcome that a value reports, where it is a reply.
pub open spec fn reply_of(datum: Datum) -> Option<Outcome> {
    match datum {
        Datum::List(items) => if items.len() == 2 {
            match (items[0], items[1]) {
                (Datum::Bool(true), value) => Some(Outcome::Value(value)),
                (Datum::Bool(false), Datum::String(message)) => if valid_utf8(message) {
                    Some(Outcome::Error(decode_utf8(message)))
                } else {
                    None
                },
                _ => None,
            }
        } else {
            None
        },
        _ => None,
    }
}

/// A publication as a value.
pub open spec fn publication_datum(topic: Seq<char>, value: Datum) -> Datum {
    Datum::List(seq![Datum::String(encode_utf8(topic)), value])
}

/// The topic, as bytes, and the value that a value publishes, where it is a
/// publication.
pub open spec fn publication_of(datum: Datum) -> Option<(Seq<u8>, Datum)> {
    match datum {
        Datum::List(items) => if items.len() == 2 {
            match items[0] {
                Datum::String(topic) => Some((topic, items[1])),
                _ => None,
            }
        } else {
            None
        },
        _ => None,
    }
}

/// What a request says is what was put into it.
pub proof fn law_request_round_trip(name: Seq<char>, arguments: Seq<Datum>)
    ensures
        request_of(request_datum(name, arguments)) == Some((name, arguments)),
{
    broadcast use vstd::utf8::encode_utf8_valid_utf8, vstd::utf8::encode_utf8_decode_utf8;

}

/// What a reply reports is the outcome that was put into it.
pub proof fn law_reply_round_trip(outcome: Outcome)
    requires
        !(outcome is Undefined),
    ensures
        reply_of(reply_datum(outcome).unwrap()) == Some(outcome),
{
    broadcast use vstd::utf8::encode_utf8_valid_utf8, vstd::utf8::encode_utf8_decode_utf8;

}

/// A request that was written is read as the same request: the name and
/// the arguments that the replier reads are those that the requester wrote.
pub proof fn law_request_survives_the_wire(name: Seq<char>, arguments: Seq<Datum>)
    requires
        Datum::List(arguments).well_formed(),
        fits(request_datum(name, arguments), MAX_DEPTH as nat),
    ensures
        decoded(encoded(request_datum(name, arguments))).is_some(),
        request_of(decoded(encoded(request_datum(name, arguments))).unwrap()) == Some(
            (name, arguments),
        ),
{
    let written = request_datum(name, arguments);
    assert(written.well_formed()) by {
        assert forall|i: int| 0 <= i < written->List_0.len() implies (
        #[trigger] written->List_0[i]).well_formed() by {}
    }
    crate::format::law_round_trip(written);
    law_request_round_trip(name, arguments);
}

/// A reply that was written is read as the same reply: the outcome that the
/// requester reads is the one that the replier wrote.
pub proof fn law_reply_survives_the_wire(outcome: Outcome)
    requires
        !(outcome is Undefined),
        outcome is Value ==> outcome->Value_0.well_formed(),
        fits(reply_datum(outcome).unwrap(), MAX_DEPTH as nat),
    ensures
        decoded(encoded(reply_datum(outcome).unwrap())).is_some(),
        reply_of(decoded(encoded(reply_datum(outcome).unwrap())).unwrap()) == Some(outcome),
{
    let written = reply_datum(outcome).unwrap();
    assert(written.well_formed()) by {
        assert forall|i: int| 0 <= i < written->List_0.len() implies (
        #[trigger] written->List_0[i]).well_formed() by {}
    }
    crate::format::law_round_trip(written);
    law_reply_round_trip(outcome);
}

/// A publication that was written is read as the same publication: the
/// topic and the value that a subscriber reads are those that the publisher
/// wrote.
pub proof fn law_publication_survives_the_wire(topic: Seq<char>, value: Datum)
    requires
        value.well_formed(),
        fits(publication_datum(topic, value), MAX_DEPTH as nat),
    ensures
        decoded(encoded(publication_datum(topic, value))).is_some(),
        publication_of(decoded(encoded(publication_datum(topic, value))).unwrap()) == Some(
            (encode_utf8(topic), value),
        ),
{
    let written = publication_datum(topic, value);
    assert(written.well_formed()) by {
        assert forall|i: int| 0 <= i < written->List_0.len() implies (
        #[trigger] written->List_0[i]).well_formed() by {}
    }
    crate::format::law_round_trip(written);
}

/// The message of the error for bytes that are not a request.
pub open spec fn invalid_request() -> Seq<char> {
    "invalid request"@
}

/// The message of the error for bytes that are not a reply.
pub open spec fn invalid_reply() -> Seq<char> {
    "invalid reply"@
}

/// The message of the error for a result that holds nothing to reply with.
pub open spec fn no_result() -> Seq<char> {
    "no result"@
}

/// Takes a value apart as a request.
fn read_request(variant: &Variant) -> (request: Option<(std::string::String, List)>)
    ensures
        request.is_some() == request_of(variant@).is_some(),
        request matches Some((name, arguments)) ==> request_of(variant@) == Some(
            (name@, arguments@),
        ),
{
    broadcast use vstd::utf8::encode_utf8_decode_utf8;

    match variant {
        Variant::List(list) => {
            if list.len() != 2 {
                return None;
            }
            match (list.item(0), list.item(1)) {
                (Variant::String(name), Variant::List(arguments)) => match name.as_str() {
                    Some(text) => Some((text.to_owned(), arguments.clone())),
                    None => None,
                },
                _ => None,
            }
        },
        _ => None,
    }
}

/// Takes a value apart as a reply.
fn read_reply(variant: &Variant) -> (reply: Option<Result>)
    ensures
        reply.is_some() == reply_of(variant@).is_some(),
        reply matches Some(result) ==> reply_of(variant@) == Some(result@),
{
    broadcast use vstd::utf8::encode_utf8_decode_utf8;

    match variant {
        Variant::List(list) => {
            if list.len() != 2 {
                return None;
            }
            match list.item(0) {
                Variant::Bool(true) => Some(Result::from_outcome(Ok(list.item(1).clone()))),
                Variant::Bool(false) => match list.item(1) {
                    Variant::String(message) => match message.as_str() {
                        Some(text) => Some(Result::from_outcome(Err(text.to_owned()))),
                        None => None,
                    },
                    _ => None,
                },
                _ => None,
            }
        },
        _ => None,
    }
}

/// The replying end of a request and reply connection, bound to an address.
#[derive(Debug)]
pub struct Replier {
    address: std::string::String,
}

impl Replier {
    /// The address that the replier is bound to.
    pub closed spec fn address(&self) -> Seq<char> {
        self.address@
    }

    /// Takes one request in: reads its bytes with the format and sends the
    /// operation that it asks for through the mailbox, on a copy of the
    /// arguments. The promise that comes back is that of the operation's
    /// result; for bytes that are not a request it is a promise already
    /// resolved with the error "invalid request".
    pub fn reply(
        &self,
        scheduler: &mut Scheduler,
        mailbox: Mailbox,
        format: &Format,
        request: &[u8],
    ) -> (promise: Promise)
        ensures
            promise.id == old(scheduler)@.promises.len(),
            final(scheduler)@ == match decoded(request@) {
                Some(datum) => match request_of(datum) {
                    Some((name, arguments)) => Agenda {
                        ready: old(scheduler)@.ready.push(
                            mailbox.call_for(name, arguments, promise),
                        ),
                        ..old(scheduler)@.extended()
                    },
                    None => old(scheduler)@.extended().resolved(
                        promise,
                        Outcome::Error(invalid_request()),
                    ),
                },
                None => old(scheduler)@.extended().resolved(
                    promise,
                    Outcome::Error(invalid_request()),
                ),
            },
    {
        let asked = match format.decode(request) {
            Ok(variant) => read_request(&variant),
            Err(_) => None,
        };
        match asked {
            Some((name, arguments)) => mailbox.send(scheduler, name.as_str(), &arguments),
            None => {
                let promise = Promise::new(scheduler);
                promise.set(scheduler, Err("invalid request".to_owned()));
                promise
            },
        }
    }

    /// Writes the reply that reports a result, with the format. Fails with
    /// "no result" for a result that holds nothing, and with "value too
    /// deep" for a value that the format cannot write.
    pub fn respond(&self, format: &Format, result: &Result) -> (reply: core::result::Result<
        Vec<u8>,
        std::string::String,
    >)
        ensures
            match reply_datum(result@) {
                None => reply matches Err(message) && message@ == no_result(),
                Some(datum) => {
                    &&& reply.is_ok() == fits(datum, MAX_DEPTH as nat)
                    &&& reply matches Ok(bytes) ==> bytes@ == encoded(datum) && datum.well_formed()
                    &&& reply matches Err(message) ==> message@ == crate::format::too_deep()
                },
            },
    {
        let mut list = List::new();
        match result.get() {
            None => {
                return Err("no result".to_owned());
            },
            Some(Ok(variant)) => {
                list.push(Variant::Bool(true));
                list.push(variant);
            },
            Some(Err(message)) => {
                list.push(Variant::Bool(false));
                list.push(Variant::String(crate::text::String::from(message.as_str())));
            },
        }
        proof {
            assert(list@ =~= reply_datum(result@).unwrap()->List_0);
        }
        format.encode(Variant::List(list))
    }
}

/// The requesting end of a request and reply connection: a mailbox whose
/// operations are run by whoever answers at the address.
#[derive(Debug)]
pub struct Requester {
    address: std::string::String,
    format: Format,
    mailbox: Mailbox,
}

impl Requester {
    /// The address that the requester connects to.
    pub closed spec fn address(&self) -> Seq<char> {
        self.address@
    }

    /// The mailbox that stands for the actor at the far end.
    pub closed spec fn far_end(&self) -> Mailbox {
        self.mailbox
    }

    /// The mailbox that stands for the actor at the far end. A call task
    /// for it is carried out by sending `request` over the wire and giving
    /// the reply to `resolve`.
    pub fn mailbox(&self) -> (mailbox: Mailbox)
        ensures
            mailbox == self.far_end(),
    {
        self.mailbox
    }

    /// Writes the request for an operation. Fails with "value too deep"
    /// for arguments that the format cannot write.
    pub fn request(&self, name: &str, arguments: &List) -> (request: core::result::Result<
        Vec<u8>,
        std::string::String,
    >)
        ensures
            request.is_ok() == fits(request_datum(name@, arguments@), MAX_DEPTH as nat),
            request matches Ok(bytes) ==> bytes@ == encoded(request_datum(name@, arguments@))
                && request_datum(name@, arguments@).well_formed(),
            request matches Err(message) ==> message@ == crate::format::too_deep(),
    {
        let mut list = List::new();
        list.push(Variant::String(crate::text::String::from(name)));
        list.push(Variant::List(arguments.clone()));
        proof {
            assert(list@ =~= request_datum(name@, arguments@)->List_0);
        }
        self.format.encode(Variant::List(list))
    }

    /// Takes the reply to a request in: resolves the promise with the
    /// outcome that the bytes report, or with the error "invalid reply"
    /// where they are not a reply. Says whether the promise was resolved by
    /// this.
    pub fn resolve(&self, scheduler: &mut Scheduler, promise: &Promise, reply: &[u8]) -> (done:
        bool)
        ensures
            ({
                let outcome = match decoded(reply@) {
                    Some(datum) => match reply_of(datum) {
                        Some(outcome) => outcome,
                        None => Outcome::Error(invalid_reply()),
                    },
                    None => Outcome::Error(invalid_reply()),
                };
                &&& done == old(scheduler)@.can_resolve(*promise, outcome)
                &&& final(scheduler)@ == old(scheduler)@.resolved(*promise, outcome)
            }),
    {
        let reported = match self.format.decode(reply) {
            Ok(variant) => read_reply(&variant),
            Err(_) => None,
        };
        match reported {
            Some(result) => promise.set_result(scheduler, &result),
            None => promise.set(scheduler, Err("invalid reply".to_owned())),
        }
    }
}


/// The publishing end of a publish and subscribe connection, bound to an
/// address.
#[derive(Debug)]
pub struct Publisher {
    address: std::string::String,
    format: Format,
}

impl Publisher {
    /// The address that the publisher is bound to.
    pub closed spec fn address(&self) -> Seq<char> {
        self.address@
    }

    /// Writes the publication of a value under a topic and makes the
    /// promise of its being sent: the caller sends the bytes and resolves
    /// the promise. Where the format cannot write the value there are no
    /// bytes, and the promise is already resolved with the error "value too
    /// deep".
    pub fn publish(&self, scheduler: &mut Scheduler, topic: &str, variant: Variant) -> (sent: (
        Promise,
        Option<Vec<u8>>,
    ))
        ensures
            sent.0.id == old(scheduler)@.promises.len(),
            sent.1.is_some() == fits(publication_datum(topic@, variant@), MAX_DEPTH as nat),
            sent.1 matches Some(bytes) ==> bytes@ == encoded(publication_datum(topic@, variant@))
                && final(scheduler)@ == old(scheduler)@.extended(),
            sent.1.is_none() ==> final(scheduler)@ == old(scheduler)@.extended().resolved(
                sent.0,
                Outcome::Error(crate::format::too_deep()),
            ),
    {
        let promise = Promise::new(scheduler);
        let mut list = List::new();
        list.push(Variant::String(crate::text::String::from(topic)));
        list.push(variant);
        proof {
            assert(list@ =~= publication_datum(topic@, variant@)->List_0);
        }
        match self.format.encode(Variant::List(list)) {
            Ok(bytes) => (promise, Some(bytes)),
            Err(message) => {
                promise.set(scheduler, Err(message));
                (promise, None)
            },
        }
    }
}

/// Whether a topic begins with one of the topics subscribed to.
pub open spec fn subscribed(topics: Seq<Seq<u8>>, topic: Seq<u8>) -> bool {
    exists|i: int| 0 <= i < topics.len() && (#[trigger] topics[i]).is_prefix_of(topic)
}

/// The subscribing end of a publish and subscribe connection, with the
/// topics that it asks for.
#[derive(Debug)]
pub struct Subscriber {
    address: std::string::String,
    topics: Vec<crate::text::String>,
}

impl Subscriber {
    /// The address that the subscriber connects to.
    pub closed spec fn address(&self) -> Seq<char> {
        self.address@
    }

    /// The topics subscribed to, as bytes.
    pub closed spec fn topics(&self) -> Seq<Seq<u8>> {
        Seq::new(self.topics@.len(), |i: int| self.topics@[i]@)
    }

    /// Whether a topic begins with one of the topics subscribed to.
    pub fn accepts(&self, topic: &[u8]) -> (wanted: bool)
        ensures
            wanted == subscribed(self.topics(), topic@),
    {
        let mut i: usize = 0;
        while i < self.topics.len()
            invariant
                i <= self.topics.len(),
                forall|k: int| 0 <= k < i ==> !(#[trigger] self.topics()[k]).is_prefix_of(topic@),
            decreases self.topics.len() - i,
        {
            let prefix = self.topics[i].as_slice();
            if prefix.len() <= topic.len() {
                let head = vstd::slice::slice_subrange(topic, 0, prefix.len());
                if crate::text::same_bytes(prefix, head) {
                    proof {
                        assert(self.topics()[i as int] == prefix@);
                    }
                    return true;
                }
            }
            proof {
                assert(self.topics()[i as int] == prefix@);
            }
            i += 1;
        }
        false
    }

    /// Takes one publication in: reads its bytes with the format and gives
    /// the list of its topic and its value, for `listen`, where the bytes
    /// are a publication under a topic that is subscribed to. Other bytes
    /// give nothing.
    pub fn receive(&self, format: &Format, publication: &[u8]) -> (arguments: Option<List>)
        ensures
            arguments.is_some() == match decoded(publication@) {
                Some(datum) => match publication_of(datum) {
                    Some((topic, value)) => subscribed(self.topics(), topic),
                    None => false,
                },
                None => false,
            },
            arguments matches Some(list) ==> decoded(publication@) == Some(Datum::List(list@)),
    {
        match format.decode(publication) {
            Ok(Variant::List(list)) => {
                if list.len() != 2 {
                    return None;
                }
                match list.item(0) {
                    Variant::String(topic) => {
                        if self.accepts(topic.as_slice()) {
                            Some(list)
                        } else {
                            None
                        }
                    },
                    _ => None,
                }
            },
            _ => None,
        }
    }

    /// Hands one publication to a listener: calls it with the topic and
    /// the value that the arguments hold, and gives null. Fails, without
    /// calling the listener, where the arguments have no first item, where
    /// the first item is not text, or where there is no second item.
    pub fn listen<F: Fn(&str, Variant)>(&self, listen: &F, arguments: List) -> (heard:
        core::result::Result<Variant, std::string::String>)
        requires
            forall|topic: &str, variant: Variant| call_requires(*listen, (topic, variant)),
        ensures
            heard matches Ok(variant) ==> variant@ == Datum::Null,
            heard.is_ok() ==> exists|topic: &str, variant: Variant|
                encode_utf8(topic@) == arguments@[0]->String_0 && variant@ == arguments@[1]
                    && call_ensures(*listen, (topic, variant), ()),
            heard.is_ok() <==> arguments@.len() >= 2 && arguments@[0] is String && valid_utf8(
                arguments@[0]->String_0,
            ),
            heard matches Err(message) ==> message@ == (if arguments@.len() == 0 {
                invalid_item(decimal_text(0))
            } else if !(arguments@[0] is String && valid_utf8(arguments@[0]->String_0)) {
                invalid_conversion(decimal_text(0), "String"@)
            } else {
                invalid_item(decimal_text(1))
            }),
    {
        let topic: std::string::String = match unpack_item(&arguments, 0) {
            Ok(topic) => topic,
            Err(message) => {
                return Err(message);
            },
        };
        let variant: Variant = match unpack_item(&arguments, 1) {
            Ok(variant) => variant,
            Err(message) => {
                return Err(message);
            },
        };
        let ghost passed = variant;
        let name = topic.as_str();
        listen(name, variant);
        proof {
            assert(encode_utf8(name@) == arguments@[0]->String_0 && passed@ == arguments@[1]
                && call_ensures(*listen, (name, passed), ()));
        }
        Ok(Variant::Null)
    }
}

/// The message of the error for an address that cannot be used.
pub open spec fn invalid_address() -> Seq<char> {
    "invalid address"@
}

/// The message of the error for an address that is already bound.
pub open spec fn address_in_use() -> Seq<char> {
    "address in use"@
}

/// The message of the error that refuses to bind an address, if it is
/// refused: the empty address cannot be used, and an address is bound at
/// most once.
pub open spec fn bind_error(bound: Seq<Seq<char>>, address: Seq<char>) -> Option<Seq<char>> {
    if address.len() == 0 {
        Some(invalid_address())
    } else if bound.contains(address) {
        Some(address_in_use())
    } else {
        None
    }
}

/// The place where connections are made: it knows the addresses that are
/// bound.
#[derive(Debug)]
pub struct Context {
    bound: Vec<std::string::String>,
    issued: u64,
}

impl Context {
    /// The addresses that are bound, in the order of their binding.
    pub closed spec fn bound(&self) -> Seq<Seq<char>> {
        Seq::new(self.bound@.len(), |i: int| self.bound@[i]@)
    }

    /// How many requesters have been made.
    pub closed spec fn issued(&self) -> u64 {
        self.issued
    }

    /// A context in which no address is bound.
    pub fn new() -> (context: Context)
        ensures
            context.bound() == Seq::<Seq<char>>::empty(),
            context.issued() == 0,
    {
        let context = Context { bound: Vec::new(), issued: 0 };
        proof {
            assert(context.bound() =~= Seq::<Seq<char>>::empty());
        }
        context
    }

    /// Whether an address is bound.
    fn is_bound(&self, address: &std::string::String) -> (found: bool)
        ensures
            found == self.bound().contains(address@),
    {
        let mut i: usize = 0;
        while i < self.bound.len()
            invariant
                i <= self.bound.len(),
                forall|k: int| 0 <= k < i ==> self.bound()[k] != address@,
            decreases self.bound.len() - i,
        {
            if self.bound[i] == *address {
                proof {
                    assert(self.bound()[i as int] == address@);
                }
                return true;
            }
            i += 1;
        }
        false
    }

    /// Binds an address, for a replier or a publisher.
    fn bind(&mut self, address: &str) -> (bound: core::result::Result<
        std::string::String,
        std::string::String,
    >)
        ensures
            final(self).issued() == old(self).issued(),
            match bound {
                Ok(owned) => bind_error(old(self).bound(), address@).is_none() && owned@
                    == address@ && final(self).bound() == old(self).bound().push(address@),
                Err(message) => bind_error(old(self).bound(), address@) == Some(message@)
                    && final(self).bound() == old(self).bound(),
            },
    {
        if address.is_empty() {
            return Err("invalid address".to_owned());
        }
        let owned = address.to_owned();
        if self.is_bound(&owned) {
            return Err("address in use".to_owned());
        }
        self.bound.push(owned.clone());
        proof {
            assert(self.bound() =~= old(self).bound().push(address@));
        }
        Ok(owned)
    }

    /// Binds a replier to an address. Fails with "invalid address" for the
    /// empty address, and with "address in use" for one that is bound.
    pub fn replier(&mut self, address: &str) -> (made: core::result::Result<
        Replier,
        std::string::String,
    >)
        ensures
            final(self).issued() == old(self).issued(),
            match made {
                Ok(replier) => bind_error(old(self).bound(), address@).is_none()
                    && replier.address() == address@ && final(self).bound() == old(self).bound().push(address@),
                Err(message) => bind_error(old(self).bound(), address@) == Some(message@)
                    && final(self).bound() == old(self).bound(),
            },
    {
        match self.bind(address) {
            Ok(address) => Ok(Replier { address }),
            Err(message) => Err(message),
        }
    }

    /// Connects a requester, which writes and reads with the format, to an
    /// address. Its mailbox gets an address of its own, counted down from
    /// the largest. Fails with "invalid address" for the empty address.
    pub fn requester(&mut self, address: &str, format: &Format) -> (made: core::result::Result<
        Requester,
        std::string::String,
    >)
        ensures
            final(self).bound() == old(self).bound(),
            match made {
                Ok(requester) => address@.len() > 0 && requester.address() == address@
                    && requester.far_end().address == u64::MAX - old(self).issued() && final(self).issued() == (if old(self).issued() < u64::MAX {
                    (old(self).issued() + 1) as u64
                } else {
                    old(self).issued()
                }),
                Err(message) => address@.len() == 0 && message@ == invalid_address() && final(self).issued() == old(self).issued(),
            },
    {
        if address.is_empty() {
            return Err("invalid address".to_owned());
        }
        let mailbox = Mailbox { address: u64::MAX - self.issued };
        if self.issued < u64::MAX {
            self.issued = self.issued + 1;
        }
        Ok(Requester { address: address.to_owned(), format: *format, mailbox })
    }

    /// Binds a publisher, which writes with the format, to an address.
    /// Fails with "invalid address" for the empty address, and with
    /// "address in use" for one that is bound.
    pub fn publisher(&mut self, address: &str, format: &Format) -> (made: core::result::Result<
        Publisher,
        std::string::String,
    >)
        ensures
            final(self).issued() == old(self).issued(),
            match made {
                Ok(publisher) => bind_error(old(self).bound(), address@).is_none()
                    && publisher.address() == address@ && final(self).bound() == old(self).bound().push(address@),
                Err(message) => bind_error(old(self).bound(), address@) == Some(message@)
                    && final(self).bound() == old(self).bound(),
            },
    {
        match self.bind(address) {
            Ok(address) => Ok(Publisher { address, format: *format }),
            Err(message) => Err(message),
        }
    }

    /// Connects a subscriber to an address, for publications whose topic
    /// begins with one of the given topics. Fails with "invalid address"
    /// for the empty address.
    pub fn subscriber(&self, address: &str, topics: &[&str]) -> (made: core::result::Result<
        Subscriber,
        std::string::String,
    >)
        ensures
            match made {
                Ok(subscriber) => address@.len() > 0 && subscriber.address() == address@
                    && subscriber.topics() == Seq::new(
                    topics@.len(),
                    |i: int| topics@[i].spec_bytes(),
                ),
                Err(message) => address@.len() == 0 && message@ == invalid_address(),
            },
    {
        if address.is_empty() {
            return Err("invalid address".to_owned());
        }
        let mut list: Vec<crate::text::String> = Vec::new();
        let mut i: usize = 0;
        while i < topics.len()
            invariant
                i <= topics.len(),
                list@.len() == i,
                forall|k: int| 0 <= k < i ==> list@[k]@ == topics@[k].spec_bytes(),
            decreases topics.len() - i,
        {
            list.push(crate::text::String::from(topics[i]));
            i += 1;
        }
        let subscriber = Subscriber { address: address.to_owned(), topics: list };
        proof {
            assert(subscriber.topics() =~= Seq::new(
                topics@.len(),
                |i: int| topics@[i].spec_bytes(),
            ));
        }
        Ok(subscriber)
    }
}

} // verus!

//! An actor runtime core: dynamically typed values, closable queues,
//! single-assignment results and promises, a task scheduler, mailboxes, a
//! binary format and the messages of request/reply and publish/subscribe.

pub mod actor;
pub mod format;
pub mod module;
pub mod promise;
pub mod queue;
pub mod render;
pub mod result;
pub mod scheduler;
pub mod socket;
pub mod text;
pub mod unpack;
pub mod value;

pub use actor::{Actor, Function, Handler, Operation};
pub use format::Format;
pub use module::{module_init, Module};
pub use promise::{error_callback, promise_callback, result_callback};
pub use queue::{Push, Queue};
pub use result::{Outcome, Result};
pub use scheduler::{Agenda, Mailbox, Observer, Pledge, Promise, Scheduler, Task, Threads, Work};
pub use socket::{Context, Publisher, Replier, Requester, Subscriber};
pub use text::String;
pub use unpack::{unpack_item, unpack_key, Kind};
pub use value::{
    Append, Assign, Bool, Datum, Dict, Float, Get, Int, IntoVariant, List, ListIterator,
    MapIterator, Null, SetIndex, SetKey, UInt, Value, Variant, NULL,
};

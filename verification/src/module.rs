//! Modules: actors that are built elsewhere, from a configuration, and are
//! reached through the mailbox that they hand out.

use vstd::prelude::*;
use crate::actor::Actor;
use crate::scheduler::Mailbox;
use crate::value::{Dict, List, Variant};

verus! {

/// Builds the actor of a module: calls the module's function on a copy of
/// the configuration and gives the actor that it built, with the mailbox
/// that reaches it, or the error that it gave.
pub fn module_init<T, R, W, F>(function: F, configuration: &Dict) -> (built: core::result::Result<
    (Actor<T, R, W>, Mailbox),
    std::string::String,
>) where
    R: Fn(&T, List) -> core::result::Result<Variant, std::string::String>,
    W: Fn(&mut T, List) -> core::result::Result<Variant, std::string::String>,
    F: FnOnce(Dict) -> core::result::Result<Actor<T, R, W>, std::string::String>,

    requires
        forall|copy: Dict| call_requires(function, (copy,)),
    ensures
        exists|copy: Dict, given: core::result::Result<Actor<T, R, W>, std::string::String>|
            copy@ == configuration@ && call_ensures(function, (copy,), given) && match given {
                Ok(actor) => built == Ok::<(Actor<T, R, W>, Mailbox), std::string::String>(
                    (actor, Mailbox { address: actor.address() }),
                ),
                Err(message) => built == Err::<(Actor<T, R, W>, Mailbox), std::string::String>(
                    message,
                ),
            },
{
    let copy = configuration.clone();
    let ghost passed = copy;
    let given = function(copy);
    let ghost returned = given;
    match given {
        Ok(actor) => {
            let mailbox = actor.mailbox();
            let built = Ok((actor, mailbox));
            proof {
                assert(passed@ == configuration@ && call_ensures(function, (passed,), returned)
                    && built == Ok::<(Actor<T, R, W>, Mailbox), std::string::String>(
                    (actor, Mailbox { address: actor.address() }),
                ));
            }
            built
        },
        Err(message) => {
            let built = Err(message);
            proof {
                assert(passed@ == configuration@ && call_ensures(function, (passed,), returned)
                    && built == Err::<(Actor<T, R, W>, Mailbox), std::string::String>(message));
            }
            built
        },
    }
}

/// An actor that was built from a configuration by the entry point found
/// at a path.
#[derive(Debug)]
pub struct Module {
    path: std::string::String,
    mailbox: Mailbox,
}

impl Module {
    /// The path at which the entry point was found.
    pub closed spec fn path(&self) -> Seq<char> {
        self.path@
    }

    /// The mailbox that the entry point handed out.
    pub closed spec fn handed_out(&self) -> Mailbox {
        self.mailbox
    }

    /// Makes the module at a path: runs the entry point, which `entry`
    /// finds there, on a copy of the configuration, and keeps the mailbox
    /// that it hands out. Fails with the error that the entry point gave.
    pub fn from_path<F>(path: &str, configuration: &Dict, entry: F) -> (made: core::result::Result<
        Module,
        std::string::String,
    >) where F: FnOnce(&str, Dict) -> core::result::Result<Mailbox, std::string::String>
        requires
            forall|copy: Dict| call_requires(entry, (path, copy)),
        ensures
            exists|copy: Dict, given: core::result::Result<Mailbox, std::string::String>|
                copy@ == configuration@ && call_ensures(entry, (path, copy), given) && match given {
                    Ok(mailbox) => made.is_ok() && made.unwrap().path() == path@
                        && made.unwrap().handed_out() == mailbox,
                    Err(message) => made == Err::<Module, std::string::String>(message),
                },
    {
        let copy = configuration.clone();
        let ghost passed = copy;
        let given = entry(path, copy);
        let ghost returned = given;
        match given {
            Ok(mailbox) => {
                let made = Ok(Module { path: path.to_owned(), mailbox });
                proof {
                    assert(passed@ == configuration@ && call_ensures(
                        entry,
                        (path, passed),
                        returned,
                    ) && made.is_ok() && made.unwrap().path() == path@
                        && made.unwrap().handed_out() == mailbox);
                }
                made
            },
            Err(message) => {
                let made = Err(message);
                proof {
                    assert(passed@ == configuration@ && call_ensures(
                        entry,
                        (path, passed),
                        returned,
                    ) && made == Err::<Module, std::string::String>(message));
                }
                made
            },
        }
    }

    /// The mailbox of the module's actor.
    pub fn mailbox(&self) -> (mailbox: Mailbox)
        ensures
            mailbox == self.handed_out(),
    {
        self.mailbox
    }
}

} // verus!

use traeger::{
    module_init, Actor, Append, Context, Dict, Format, List, Mailbox, Module, Promise, Result,
    Scheduler, SetKey, Task, Threads, Variant,
};

type Outcome = std::result::Result<Variant, std::string::String>;
type Reader = Box<dyn Fn(&i64, List) -> Outcome>;
type Writer = Box<dyn Fn(&mut i64, List) -> Outcome>;

fn wire_format() -> Format {
    Format::by_name("binary").unwrap()
}

fn counter(start: i64) -> Actor<i64, Reader, Writer> {
    Actor::<i64, Reader, Writer>::new(start)
        .with_address(3)
        .define_writer(
            "add",
            Box::new(|count: &mut i64, arguments: List| match arguments.get(0) {
                Some(Variant::Int(step)) => {
                    *count += step;
                    Ok(Variant::Int(*count))
                }
                _ => Err("invalid step".to_string()),
            }),
        )
        .define_reader("get", Box::new(|count: &i64, _arguments: List| Ok(Variant::Int(*count))))
}

#[test]
fn addresses_are_bound_once() {
    let mut context = Context::new();
    assert!(context.replier("tcp://*:5555").is_ok());
    assert_eq!(context.replier("tcp://*:5555").unwrap_err(), "address in use");
    assert_eq!(context.publisher("tcp://*:5555", &wire_format()).unwrap_err(), "address in use");
    assert!(context.publisher("tcp://*:5556", &wire_format()).is_ok());
    assert_eq!(context.replier("").unwrap_err(), "invalid address");
    assert_eq!(context.publisher("", &wire_format()).unwrap_err(), "invalid address");
    assert_eq!(context.requester("", &wire_format()).unwrap_err(), "invalid address");
    assert_eq!(context.subscriber("", &[]).unwrap_err(), "invalid address");
    assert!(context.requester("tcp://localhost:5555", &wire_format()).is_ok());
    assert!(context.subscriber("tcp://localhost:5556", &["news"]).is_ok());
}

#[test]
fn requesters_get_mailboxes_of_their_own() {
    let mut context = Context::new();
    let first = context.requester("tcp://localhost:1", &wire_format()).unwrap();
    let second = context.requester("tcp://localhost:1", &wire_format()).unwrap();
    assert_eq!(first.mailbox(), Mailbox { address: u64::MAX });
    assert_eq!(second.mailbox(), Mailbox { address: u64::MAX - 1 });
}

#[test]
fn request_travels_to_the_actor_and_back() {
    let mut context = Context::new();
    let replier = context.replier("tcp://*:5555").unwrap();
    let requester = context.requester("tcp://localhost:5555", &wire_format()).unwrap();
    let mut near = Scheduler::new(Threads { count: 1 });
    let mut far = Scheduler::new(Threads { count: 1 });
    let mut actor = counter(40);

    let mut arguments = List::new();
    arguments.append(2i64);
    let local = requester.mailbox().send(&mut near, "add", &arguments);
    let wire = match near.start().unwrap() {
        Task::Call { mailbox, name, arguments, promise } => {
            assert_eq!(mailbox, requester.mailbox());
            assert_eq!(promise, local);
            requester.request(&name, &arguments).unwrap()
        }
        other => panic!("unexpected task {:?}", other),
    };

    let remote = replier.reply(&mut far, actor.mailbox(), &wire_format(), &wire);
    match far.start().unwrap() {
        Task::Call { mailbox, name, arguments, promise } => {
            assert_eq!(mailbox, actor.mailbox());
            assert_eq!(promise, remote);
            assert!(actor.perform(&mut far, &name, arguments, &promise));
        }
        other => panic!("unexpected task {:?}", other),
    }
    let answer = replier.respond(&wire_format(), &remote.get_result(&far)).unwrap();
    assert_eq!(answer, vec![6, 2, 0, 0, 0, 0, 0, 0, 0, 1, 1, 2, 42, 0, 0, 0, 0, 0, 0, 0]);

    assert!(requester.resolve(&mut near, &local, &answer));
    assert_eq!(local.get_result(&near).get(), Some(Ok(Variant::Int(42))));
}

#[test]
fn errors_travel_back_as_errors() {
    let mut context = Context::new();
    let replier = context.replier("inproc://a").unwrap();
    let requester = context.requester("inproc://a", &wire_format()).unwrap();
    let mut far = Scheduler::new(Threads { count: 1 });
    let mut near = Scheduler::new(Threads { count: 1 });
    let mut actor = counter(0);
    let wire = requester.request("missing", &List::new()).unwrap();
    let remote = replier.reply(&mut far, actor.mailbox(), &wire_format(), &wire);
    match far.start().unwrap() {
        Task::Call { name, arguments, promise, .. } => {
            actor.perform(&mut far, &name, arguments, &promise);
        }
        other => panic!("unexpected task {:?}", other),
    }
    let answer = replier.respond(&wire_format(), &remote.get_result(&far)).unwrap();
    let local = Promise::new(&mut near);
    assert!(requester.resolve(&mut near, &local, &answer));
    assert_eq!(local.get_result(&near).get(), Some(Err("unknown operation".to_string())));
}

#[test]
fn bytes_that_are_no_request_get_an_error() {
    let mut context = Context::new();
    let replier = context.replier("inproc://b").unwrap();
    let mut scheduler = Scheduler::new(Threads { count: 1 });
    let mailbox = Mailbox { address: 3 };
    let invalid = Some(Err("invalid request".to_string()));
    let garbage = replier.reply(&mut scheduler, mailbox, &wire_format(), &[9, 9]);
    assert_eq!(garbage.get_result(&scheduler).get(), invalid);
    let not_a_list = wire_format().encode(Variant::Int(1)).unwrap();
    let promise = replier.reply(&mut scheduler, mailbox, &wire_format(), &not_a_list);
    assert_eq!(promise.get_result(&scheduler).get(), invalid);
    let mut wrong = List::new();
    wrong.append("name");
    wrong.append("not a list");
    let wrong = wire_format().encode(Variant::List(wrong)).unwrap();
    let promise = replier.reply(&mut scheduler, mailbox, &wire_format(), &wrong);
    assert_eq!(promise.get_result(&scheduler).get(), invalid);
    assert_eq!(scheduler.count(), 0);
}

#[test]
fn bytes_that_are_no_reply_get_an_error() {
    let mut context = Context::new();
    let requester = context.requester("inproc://c", &wire_format()).unwrap();
    let replier = context.replier("inproc://c").unwrap();
    let mut scheduler = Scheduler::new(Threads { count: 1 });
    let promise = Promise::new(&mut scheduler);
    assert!(requester.resolve(&mut scheduler, &promise, &[1, 1]));
    assert_eq!(promise.get_result(&scheduler).get(), Some(Err("invalid reply".to_string())));
    assert!(!requester.resolve(&mut scheduler, &promise, &[1, 1]));
    assert_eq!(replier.respond(&wire_format(), &Result::new()), Err("no result".to_string()));
    let failed = Result::from_outcome(Err("bad".to_string()));
    let answer = replier.respond(&wire_format(), &failed).unwrap();
    let other = Promise::new(&mut scheduler);
    requester.resolve(&mut scheduler, &other, &answer);
    assert_eq!(other.get_result(&scheduler).get(), Some(Err("bad".to_string())));
}

#[test]
fn publication_reaches_subscribed_topics_only() {
    let mut context = Context::new();
    let publisher = context.publisher("tcp://*:5556", &wire_format()).unwrap();
    let subscriber = context.subscriber("tcp://localhost:5556", &["news/", "alerts"]).unwrap();
    let mut scheduler = Scheduler::new(Threads { count: 1 });
    let (sent, wire) = publisher.publish(&mut scheduler, "news/weather", Variant::Int(21));
    assert_eq!(sent.get_result(&scheduler).get(), None);
    let wire = wire.unwrap();
    let arguments = subscriber.receive(&wire_format(), &wire).unwrap();
    assert_eq!(arguments.get(0), Some(Variant::String(traeger::String::from("news/weather"))));
    assert_eq!(arguments.get(1), Some(Variant::Int(21)));
    let heard = std::cell::RefCell::new(Vec::new());
    let listener = |topic: &str, variant: Variant| heard.borrow_mut().push((topic.to_string(), variant));
    assert_eq!(subscriber.listen(&listener, arguments), Ok(Variant::Null));
    assert_eq!(*heard.borrow(), vec![("news/weather".to_string(), Variant::Int(21))]);

    let (_, other) = publisher.publish(&mut scheduler, "sports", Variant::Null);
    assert!(subscriber.receive(&wire_format(), &other.unwrap()).is_none());
    assert!(subscriber.receive(&wire_format(), &[0]).is_none());
    assert!(subscriber.accepts(b"alerts"));
    assert!(subscriber.accepts(b"alerts!"));
    assert!(!subscriber.accepts(b"alert"));
    assert!(!subscriber.accepts(b"news"));
    let everything = context.subscriber("tcp://localhost:5556", &[""]).unwrap();
    assert!(everything.accepts(b"sports"));
    let nothing = context.subscriber("tcp://localhost:5556", &[]).unwrap();
    assert!(!nothing.accepts(b"sports"));
}

#[test]
fn publication_that_cannot_be_written_fails_its_promise() {
    let mut context = Context::new();
    let publisher = context.publisher("inproc://p", &wire_format()).unwrap();
    let mut scheduler = Scheduler::new(Threads { count: 1 });
    let mut deep = Variant::Null;
    for _ in 0..64 {
        let mut list = List::new();
        list.append(deep);
        deep = Variant::List(list);
    }
    let (promise, wire) = publisher.publish(&mut scheduler, "t", deep);
    assert!(wire.is_none());
    assert_eq!(promise.get_result(&scheduler).get(), Some(Err("value too deep".to_string())));
}

#[test]
fn listener_is_not_called_on_bad_arguments() {
    let context = Context::new();
    let subscriber = context.subscriber("inproc://s", &[""]).unwrap();
    let calls = std::cell::Cell::new(0);
    let listener = |_topic: &str, _variant: Variant| calls.set(calls.get() + 1);
    assert_eq!(subscriber.listen(&listener, List::new()), Err("invalid item '0'".to_string()));
    let mut list = List::new();
    list.append(1i64);
    list.append(2i64);
    assert_eq!(
        subscriber.listen(&listener, list),
        Err("invalid conversion of item '0' to type String".to_string())
    );
    let mut list = List::new();
    list.append("topic");
    assert_eq!(subscriber.listen(&listener, list), Err("invalid item '1'".to_string()));
    assert_eq!(calls.get(), 0);
}

#[test]
fn module_hands_out_the_mailbox_of_its_actor() {
    let mut configuration = Dict::new();
    configuration.set("start", 5i64);
    let built = module_init(
        |configuration: Dict| match configuration.get("start") {
            Some(Variant::Int(start)) => Ok(counter(start)),
            _ => Err("invalid configuration".to_string()),
        },
        &configuration,
    );
    let (mut actor, mailbox) = built.unwrap();
    assert_eq!(mailbox, Mailbox { address: 3 });
    assert_eq!(actor.call("get", List::new()).get(), Some(Ok(Variant::Int(5))));
    let refused = module_init(
        |_configuration: Dict| -> std::result::Result<Actor<i64, Reader, Writer>, std::string::String> {
            Err("invalid configuration".to_string())
        },
        &Dict::new(),
    );
    assert_eq!(refused.err(), Some("invalid configuration".to_string()));
}

#[test]
fn module_is_made_by_its_entry_point() {
    let mut configuration = Dict::new();
    configuration.set("address", 9u64);
    let entry = |path: &str, configuration: Dict| {
        if path != "libcounter.so" {
            return Err("module not found".to_string());
        }
        match configuration.get("address") {
            Some(Variant::UInt(address)) => Ok(Mailbox { address }),
            _ => Err("invalid configuration".to_string()),
        }
    };
    let module = Module::from_path("libcounter.so", &configuration, entry).unwrap();
    assert_eq!(module.mailbox(), Mailbox { address: 9 });
    let missing = Module::from_path("other.so", &configuration, entry);
    assert_eq!(missing.err(), Some("module not found".to_string()));
    assert_eq!(configuration.len(), 1);
}

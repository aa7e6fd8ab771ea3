use traeger::promise::{error_callback, promise_callback, result_callback};
use traeger::{Promise, Result, Scheduler, Task, Threads, Value, Variant};

fn drain(scheduler: &mut Scheduler) -> Vec<Task> {
    let mut tasks = Vec::new();
    while let Some(task) = scheduler.start() {
        assert!(scheduler.finish(task.lane()));
        tasks.push(task);
    }
    tasks
}

#[test]
fn error_bypasses_then_result_and_reaches_fail_once() {
    let mut scheduler = Scheduler::new(Threads { count: 1 });
    let promise = Promise::new(&mut scheduler);
    let next = promise.then_result(&mut scheduler, 1);
    promise.fail(&mut scheduler, 2);
    assert!(promise.set(&mut scheduler, Err("boom".to_string())));
    let mut then_calls = 0;
    let mut fail_calls = Vec::new();
    loop {
        let tasks = drain(&mut scheduler);
        if tasks.is_empty() {
            break;
        }
        for task in tasks {
            match task {
                Task::ThenResult { .. } | Task::ThenPromise { .. } => then_calls += 1,
                Task::Fail { ticket, error } => fail_calls.push((ticket, error)),
                Task::Settle { promise, result } => {
                    promise.set_result(&mut scheduler, &result);
                }
                other => panic!("unexpected task {:?}", other),
            }
        }
    }
    assert_eq!(then_calls, 0);
    assert_eq!(fail_calls, vec![(2, "boom".to_string())]);
    assert_eq!(next.get_result(&scheduler).get(), Some(Err("boom".to_string())));
    assert_eq!(scheduler.count(), 0);
}

#[test]
fn value_reaches_then_result_and_not_fail() {
    let mut scheduler = Scheduler::new(Threads { count: 1 });
    let promise = Promise::new(&mut scheduler);
    let next = promise.then_result(&mut scheduler, 1);
    promise.fail(&mut scheduler, 2);
    assert!(promise.set(&mut scheduler, Ok(Variant::Int(20))));
    let tasks = drain(&mut scheduler);
    assert_eq!(tasks.len(), 1);
    let double = |value: Value| match value.to_variant() {
        Variant::Int(number) => Ok(Variant::Int(number * 2)),
        _ => Err("not a number".to_string()),
    };
    match tasks.into_iter().next().unwrap() {
        Task::ThenResult { ticket, value, promise } => {
            assert_eq!(ticket, 1);
            assert_eq!(promise, next);
            assert!(result_callback(&mut scheduler, &double, value, &promise));
        }
        other => panic!("unexpected task {:?}", other),
    }
    assert_eq!(next.get_result(&scheduler).get(), Some(Ok(Variant::Int(40))));
    assert!(drain(&mut scheduler).is_empty());
}

#[test]
fn promise_is_resolved_once() {
    let mut scheduler = Scheduler::new(Threads { count: 1 });
    let promise = Promise::new(&mut scheduler);
    assert_eq!(promise.get_result(&scheduler).get(), None);
    assert!(!promise.set_result(&mut scheduler, &Result::new()));
    assert_eq!(promise.get_result(&scheduler).get(), None);
    assert!(promise.set(&mut scheduler, Ok(Variant::Int(1))));
    assert!(!promise.set(&mut scheduler, Ok(Variant::Int(2))));
    assert!(!promise.set(&mut scheduler, Err("late".to_string())));
    let mut late = Result::new();
    late.set(Ok(Variant::Null));
    assert!(!promise.set_result(&mut scheduler, &late));
    assert_eq!(promise.get_result(&scheduler).get(), Some(Ok(Variant::Int(1))));
}

#[test]
fn continuations_are_told_in_registration_order() {
    let mut scheduler = Scheduler::new(Threads { count: 1 });
    let promise = Promise::new(&mut scheduler);
    let a = promise.then_result(&mut scheduler, 10);
    let b = promise.then_result(&mut scheduler, 11);
    let c = promise.then_promise(&mut scheduler, 12);
    promise.set(&mut scheduler, Ok(Variant::Bool(true)));
    let told: Vec<(u64, Promise)> = drain(&mut scheduler)
        .into_iter()
        .map(|task| match task {
            Task::ThenResult { ticket, promise, .. } => (ticket, promise),
            Task::ThenPromise { ticket, promise, .. } => (ticket, promise),
            other => panic!("unexpected task {:?}", other),
        })
        .collect();
    assert_eq!(told, vec![(10, a), (11, b), (12, c)]);
}

#[test]
fn continuation_registered_after_resolution_is_told_at_once() {
    let mut scheduler = Scheduler::new(Threads { count: 1 });
    let promise = Promise::new(&mut scheduler);
    promise.set(&mut scheduler, Ok(Variant::Int(3)));
    assert_eq!(scheduler.count(), 0);
    let next = promise.then_result(&mut scheduler, 4);
    promise.fail(&mut scheduler, 5);
    let tasks = drain(&mut scheduler);
    assert_eq!(tasks.len(), 1);
    match &tasks[0] {
        Task::ThenResult { ticket, value, promise } => {
            assert_eq!(*ticket, 4);
            assert_eq!(value.to_variant(), Variant::Int(3));
            assert_eq!(*promise, next);
        }
        other => panic!("unexpected task {:?}", other),
    }
    let failed = Promise::new(&mut scheduler);
    failed.set(&mut scheduler, Err("no".to_string()));
    failed.fail(&mut scheduler, 6);
    let tasks = drain(&mut scheduler);
    assert_eq!(tasks.len(), 1);
    match &tasks[0] {
        Task::Fail { ticket, error } => {
            assert_eq!(*ticket, 6);
            assert_eq!(error, "no");
        }
        other => panic!("unexpected task {:?}", other),
    }
}

#[test]
fn promise_follows_another_promise() {
    let mut scheduler = Scheduler::new(Threads { count: 1 });
    let source = Promise::new(&mut scheduler);
    let follower = Promise::new(&mut scheduler);
    follower.set_from_promise(&mut scheduler, &source);
    assert_eq!(scheduler.count(), 0);
    source.set(&mut scheduler, Ok(Variant::UInt(9)));
    let tasks = drain(&mut scheduler);
    assert_eq!(tasks.len(), 1);
    match tasks.into_iter().next().unwrap() {
        Task::Settle { promise, result } => {
            assert_eq!(promise, follower);
            assert!(promise.set_result(&mut scheduler, &result));
        }
        other => panic!("unexpected task {:?}", other),
    }
    assert_eq!(follower.get_result(&scheduler).get(), Some(Ok(Variant::UInt(9))));
}

#[test]
fn then_promise_flattens_the_promise_it_is_given() {
    let mut scheduler = Scheduler::new(Threads { count: 1 });
    let first = Promise::new(&mut scheduler);
    let inner = Promise::new(&mut scheduler);
    let last = first.then_promise(&mut scheduler, 1);
    first.set(&mut scheduler, Ok(Variant::Null));
    let tasks = drain(&mut scheduler);
    match tasks.into_iter().next().unwrap() {
        Task::ThenPromise { value, promise, .. } => {
            let pick = move |_value: Value| Ok(inner);
            promise_callback(&mut scheduler, &pick, value, &promise);
        }
        other => panic!("unexpected task {:?}", other),
    }
    assert_eq!(last.get_result(&scheduler).get(), None);
    inner.set(&mut scheduler, Ok(Variant::Int(5)));
    for task in drain(&mut scheduler) {
        match task {
            Task::Settle { promise, result } => {
                promise.set_result(&mut scheduler, &result);
            }
            other => panic!("unexpected task {:?}", other),
        }
    }
    assert_eq!(last.get_result(&scheduler).get(), Some(Ok(Variant::Int(5))));
}

#[test]
fn then_promise_takes_the_error_of_its_callback() {
    let mut scheduler = Scheduler::new(Threads { count: 1 });
    let first = Promise::new(&mut scheduler);
    let last = first.then_promise(&mut scheduler, 1);
    first.set(&mut scheduler, Ok(Variant::Null));
    match drain(&mut scheduler).into_iter().next().unwrap() {
        Task::ThenPromise { value, promise, .. } => {
            let refuse = |_value: Value| Err("refused".to_string());
            promise_callback(&mut scheduler, &refuse, value, &promise);
        }
        other => panic!("unexpected task {:?}", other),
    }
    assert_eq!(last.get_result(&scheduler).get(), Some(Err("refused".to_string())));
    let other = Promise::new(&mut scheduler);
    other.follow(&mut scheduler, Err("direct".to_string()));
    assert_eq!(other.get_result(&scheduler).get(), Some(Err("direct".to_string())));
}

#[test]
fn error_callback_hands_the_message_over() {
    let heard = std::cell::RefCell::new(Vec::new());
    let fail = |message: std::string::String| heard.borrow_mut().push(message);
    error_callback(&fail, "boom".to_string());
    assert_eq!(*heard.borrow(), vec!["boom".to_string()]);
}

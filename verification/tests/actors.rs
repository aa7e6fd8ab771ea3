use traeger::{
    Actor, Append, Float, Function, List, Mailbox, Promise, Scheduler, Task, Threads, Variant,
};

struct Account {
    funds: f64,
}

type Outcome = std::result::Result<Variant, std::string::String>;
type Reader = Box<dyn Fn(&Account, List) -> Outcome>;
type Writer = Box<dyn Fn(&mut Account, List) -> Outcome>;

fn float(number: f64) -> Variant {
    Variant::Float(Float::from_bits(number.to_bits()))
}

fn amount(arguments: &List) -> std::result::Result<f64, std::string::String> {
    match arguments.get(0) {
        Some(Variant::Float(bits)) => {
            let number = f64::from_bits(bits.to_bits());
            if number > 0.0 {
                Ok(number)
            } else {
                Err("invalid amount".to_string())
            }
        }
        _ => Err("invalid amount".to_string()),
    }
}

fn account(funds: f64) -> Actor<Account, Reader, Writer> {
    Actor::<Account, Reader, Writer>::new(Account { funds })
        .with_address(1)
        .define_writer(
            "deposit",
            Box::new(|account: &mut Account, arguments: List| {
                let number = amount(&arguments)?;
                account.funds += number;
                Ok(float(account.funds))
            }),
        )
        .define_writer(
            "debit",
            Box::new(|account: &mut Account, arguments: List| {
                let number = amount(&arguments)?;
                if account.funds < number {
                    return Err("not enough funds".to_string());
                }
                account.funds -= number;
                Ok(float(account.funds))
            }),
        )
        .define_reader(
            "balance",
            Box::new(|account: &Account, _arguments: List| Ok(float(account.funds))),
        )
}

fn arguments(number: f64) -> List {
    let mut list = List::new();
    list.append(float(number));
    list
}

fn run(scheduler: &mut Scheduler, actor: &mut Actor<Account, Reader, Writer>) -> Vec<String> {
    let mut order = Vec::new();
    while let Some(task) = scheduler.start() {
        let lane = task.lane();
        match task {
            Task::Call { mailbox, name, arguments, promise } => {
                assert_eq!(mailbox, actor.mailbox());
                order.push(name.clone());
                assert!(actor.perform(scheduler, &name, arguments, &promise));
            }
            other => panic!("unexpected task {:?}", other),
        }
        assert!(scheduler.finish(lane));
    }
    order
}

#[test]
fn account_scenario() {
    let mut scheduler = Scheduler::new(Threads { count: 4 });
    let mut actor = account(0.0);
    let mailbox = actor.mailbox();
    let deposit = mailbox.send(&mut scheduler, "deposit", &arguments(1000.0));
    run(&mut scheduler, &mut actor);
    assert_eq!(deposit.get_result(&scheduler).get(), Some(Ok(float(1000.0))));
    let refused = mailbox.send(&mut scheduler, "debit", &arguments(-2000.0));
    run(&mut scheduler, &mut actor);
    assert_eq!(refused.get_result(&scheduler).get(), Some(Err("invalid amount".to_string())));
    let debit = mailbox.send(&mut scheduler, "debit", &arguments(750.0));
    run(&mut scheduler, &mut actor);
    assert_eq!(debit.get_result(&scheduler).get(), Some(Ok(float(250.0))));
    let balance = mailbox.send(&mut scheduler, "balance", &List::new());
    run(&mut scheduler, &mut actor);
    assert_eq!(balance.get_result(&scheduler).get(), Some(Ok(float(250.0))));
    assert_eq!(scheduler.count(), 0);
}

#[test]
fn writers_run_in_send_order() {
    for debit_first in [true, false] {
        let mut scheduler = Scheduler::new(Threads { count: 4 });
        let mut actor = account(100.0);
        let mailbox = actor.mailbox();
        let (debit, deposit) = if debit_first {
            let debit = mailbox.send(&mut scheduler, "debit", &arguments(150.0));
            let deposit = mailbox.send(&mut scheduler, "deposit", &arguments(100.0));
            (debit, deposit)
        } else {
            let deposit = mailbox.send(&mut scheduler, "deposit", &arguments(100.0));
            let debit = mailbox.send(&mut scheduler, "debit", &arguments(150.0));
            (debit, deposit)
        };
        let first = scheduler.start().unwrap();
        assert!(scheduler.start().is_none());
        let lane = first.lane();
        match first {
            Task::Call { name, arguments, promise, .. } => {
                assert_eq!(name, if debit_first { "debit" } else { "deposit" });
                actor.perform(&mut scheduler, &name, arguments, &promise);
            }
            other => panic!("unexpected task {:?}", other),
        }
        scheduler.finish(lane);
        let order = run(&mut scheduler, &mut actor);
        assert_eq!(order.len(), 1);
        let balance = actor.call("balance", List::new()).get();
        if debit_first {
            assert_eq!(
                debit.get_result(&scheduler).get(),
                Some(Err("not enough funds".to_string()))
            );
            assert_eq!(deposit.get_result(&scheduler).get(), Some(Ok(float(200.0))));
            assert_eq!(balance, Some(Ok(float(200.0))));
        } else {
            assert_eq!(deposit.get_result(&scheduler).get(), Some(Ok(float(200.0))));
            assert_eq!(debit.get_result(&scheduler).get(), Some(Ok(float(50.0))));
            assert_eq!(balance, Some(Ok(float(50.0))));
        }
    }
}

#[test]
fn unknown_operation_is_an_error_result() {
    let mut scheduler = Scheduler::new(Threads { count: 1 });
    let mut actor = account(5.0);
    let promise = actor.mailbox().send(&mut scheduler, "withdraw", &List::new());
    run(&mut scheduler, &mut actor);
    assert_eq!(promise.get_result(&scheduler).get(), Some(Err("unknown operation".to_string())));
    assert_eq!(actor.call("balance", List::new()).get(), Some(Ok(float(5.0))));
}

#[test]
fn later_definition_replaces_an_earlier_one() {
    let mut actor = Actor::<Account, Reader, Writer>::new(Account { funds: 1.0 })
        .define_reader("peek", Box::new(|_account: &Account, _arguments: List| Ok(Variant::Int(1))))
        .define_reader("peek", Box::new(|_account: &Account, _arguments: List| Ok(Variant::Int(2))));
    assert_eq!(actor.call("peek", List::new()).get(), Some(Ok(Variant::Int(2))));
    assert_eq!(actor.mailbox(), Mailbox { address: 0 });
}

#[test]
fn send_passes_a_copy_of_the_arguments() {
    let mut scheduler = Scheduler::new(Threads { count: 1 });
    let mut list = arguments(10.0);
    let promise = Mailbox { address: 1 }.send(&mut scheduler, "deposit", &list);
    list.append(float(99.0));
    assert_eq!(promise, Promise { id: 0 });
    match scheduler.start().unwrap() {
        Task::Call { arguments, .. } => {
            assert_eq!(arguments.len(), 1);
            assert_eq!(arguments.get(0), Some(float(10.0)));
        }
        other => panic!("unexpected task {:?}", other),
    }
    assert_eq!(list.len(), 2);
}

#[test]
fn function_is_called_on_a_copy() {
    let function = Function::new(|mut arguments: List| {
        arguments.append(1i64);
        Ok(Variant::UInt(arguments.len() as u64))
    });
    let list = List::new();
    assert_eq!(function.call(&list).get(), Some(Ok(Variant::UInt(1))));
    assert_eq!(function.call(&list).get(), Some(Ok(Variant::UInt(1))));
    assert!(list.is_empty());
    let failing = Function::new(|_arguments: List| Err("no".to_string()));
    assert_eq!(failing.call(&list).get(), Some(Err("no".to_string())));
}

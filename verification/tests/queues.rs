use traeger::{Append, List, Push, Queue, Result, Value, Variant};

fn string(value: &str) -> Variant {
    Variant::String(traeger::String::from(value))
}

#[test]
fn queue_drains_after_close() {
    let mut queue = Queue::new();
    assert!(queue.push("a"));
    assert!(queue.push("b"));
    queue.close();
    assert_eq!(queue.pop(), Some(string("a")));
    assert_eq!(queue.pop(), Some(string("b")));
    assert_eq!(queue.pop(), None);
}

#[test]
fn closed_queue_rejects_pushes() {
    let mut queue = Queue::new();
    assert!(!queue.closed());
    assert!(queue.push(1i64));
    queue.close();
    assert!(queue.closed());
    assert!(!queue.push(2i64));
    assert!(!queue.push_variant(Variant::Null));
    assert_eq!(queue.count(), 1);
    queue.close();
    assert!(queue.closed());
    assert_eq!(queue.count(), 1);
    assert_eq!(queue.pop(), Some(Variant::Int(1)));
    assert_eq!(queue.count(), 0);
}

#[test]
fn queue_is_first_in_first_out() {
    let mut queue = Queue::new();
    queue.push(1i64);
    queue.push(2u64);
    queue.push(true);
    queue.push(&Value::from("v"));
    queue.push(&Variant::Null);
    assert_eq!(queue.count(), 5);
    assert_eq!(queue.pop_value().unwrap().to_variant(), Variant::Int(1));
    assert_eq!(queue.pop(), Some(Variant::UInt(2)));
    assert_eq!(queue.pop(), Some(Variant::Bool(true)));
    assert_eq!(queue.pop(), Some(string("v")));
    assert_eq!(queue.pop(), Some(Variant::Null));
    assert_eq!(queue.pop(), None);
    assert!(queue.pop_value().is_none());
}

#[test]
fn queue_holds_copies_of_lists() {
    let mut list = List::new();
    list.append(1i64);
    let mut queue = Queue::new();
    queue.push(&list);
    list.append(2i64);
    match queue.pop() {
        Some(Variant::List(stored)) => assert_eq!(stored.len(), 1),
        other => panic!("unexpected item {:?}", other),
    }
}

#[test]
fn pop_into_list_moves_everything() {
    let mut queue = Queue::new();
    queue.push(1i64);
    queue.push(2i64);
    let mut list = List::new();
    list.append(0i64);
    assert!(queue.pop_into_list(&mut list));
    assert_eq!(queue.count(), 0);
    assert_eq!(list.len(), 3);
    assert_eq!(list.get(0), Some(Variant::Int(0)));
    assert_eq!(list.get(1), Some(Variant::Int(1)));
    assert_eq!(list.get(2), Some(Variant::Int(2)));
    assert!(!queue.pop_into_list(&mut list));
    assert_eq!(list.len(), 3);
}

#[test]
fn result_is_set_once() {
    let mut result = Result::new();
    assert!(!result.is_defined());
    assert_eq!(result.get(), None);
    assert!(result.get_value().is_none());
    assert!(result.set(Ok(Variant::Int(1))));
    assert!(result.is_defined());
    assert!(!result.set(Ok(Variant::Int(2))));
    assert!(!result.set(Err("late".to_string())));
    assert_eq!(result.get(), Some(Ok(Variant::Int(1))));
    assert_eq!(result.clone().get(), Some(Ok(Variant::Int(1))));
    match result.get_value() {
        Some(Ok(value)) => assert_eq!(value.to_variant(), Variant::Int(1)),
        other => panic!("unexpected result {:?}", other),
    }
}

#[test]
fn result_keeps_its_error() {
    let mut result = Result::new();
    assert!(result.set(Err("boom".to_string())));
    assert!(!result.set(Ok(Variant::Null)));
    assert_eq!(result.get(), Some(Err("boom".to_string())));
    match result.get_value() {
        Some(Err(message)) => assert_eq!(message.as_str(), Some("boom")),
        other => panic!("unexpected result {:?}", other),
    }
    let made = Result::from_outcome(Err("made".to_string()));
    assert_eq!(made.get(), Some(Err("made".to_string())));
}

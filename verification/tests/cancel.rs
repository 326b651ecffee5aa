use std::sync::{Arc, Mutex};

use broski::cancel::{CancelLevel, CancellationToken};

#[test]
fn token_starts_uncancelled() {
    let t = CancellationToken::new();
    assert!(!t.is_cancelled());
}

#[test]
fn soft_cancel_flips_flag_without_signaling() {
    let mut t = CancellationToken::new();
    t.register_child(42);
    assert!(t.cancel(CancelLevel::Soft).is_empty());
    assert!(t.is_cancelled());
    assert_eq!(t.registered_children(), vec![42]);
}

#[test]
fn hard_cancel_flips_flag_and_attempts_signal() {
    let mut t = CancellationToken::new();
    t.register_child(0);
    t.cancel(CancelLevel::Hard);
    assert!(t.is_cancelled());
}

#[test]
fn cancel_is_idempotent() {
    let mut t = CancellationToken::new();
    t.cancel(CancelLevel::Soft);
    t.cancel(CancelLevel::Hard);
    t.cancel(CancelLevel::Soft);
    assert!(t.is_cancelled());
}

#[test]
fn child_registration_roundtrips() {
    let mut t = CancellationToken::new();
    t.register_child(101);
    t.register_child(202);
    assert_eq!(t.registered_children(), vec![101, 202]);
    t.unregister_child(101);
    assert_eq!(t.registered_children(), vec![202]);
    t.unregister_child(999); // unknown pid is a no-op
    assert_eq!(t.registered_children(), vec![202]);
}

#[test]
fn token_is_cheap_to_clone() {
    let a = Arc::new(Mutex::new(CancellationToken::new()));
    let b = a.clone();
    a.lock().unwrap().cancel(CancelLevel::Soft);
    assert!(b.lock().unwrap().is_cancelled());
}

#[test]
fn hard_cancel_names_the_children_to_signal() {
    let mut t = CancellationToken::new();
    t.register_child(0);
    t.register_child(7);
    t.register_child(9);
    t.register_child(7);
    assert_eq!(t.cancel(CancelLevel::Hard), vec![7, 9, 7]);
    t.unregister_child(7);
    assert_eq!(t.cancel(CancelLevel::Hard), vec![9]);
}

#[test]
fn forgetting_a_child_undoes_its_registration() {
    let mut t = CancellationToken::default();
    t.register_child(1);
    t.register_child(2);
    t.unregister_child(2);
    assert_eq!(t.registered_children(), vec![1]);
    assert!(!t.is_cancelled());
}

#[test]
fn a_cancelled_token_stays_cancelled() {
    let token = Arc::new(Mutex::new(CancellationToken::new()));
    let holders = [token.clone(), token.clone(), token.clone()];
    holders[0].lock().unwrap().register_child(7);
    assert!(!holders[1].lock().unwrap().is_cancelled());
    holders[1].lock().unwrap().cancel(CancelLevel::Soft);
    holders[2].lock().unwrap().unregister_child(7);
    holders[0].lock().unwrap().register_child(8);
    holders[2].lock().unwrap().cancel(CancelLevel::Hard);
    for holder in &holders {
        assert!(holder.lock().unwrap().is_cancelled());
    }
    assert_eq!(token.lock().unwrap().registered_children(), vec![8]);
}

use std::sync::{Arc, Mutex};

use mdoc_holder::lock::WalletLock;

#[test]
fn test_wallet_lock() {
    let callback_is_locked: Arc<Mutex<Option<bool>>> = Arc::new(Mutex::new(None));

    let mut lock = WalletLock::new(false);
    assert!(!lock.is_locked());

    lock.unlock();
    assert!(!lock.is_locked());

    lock.lock();
    assert!(lock.is_locked());

    lock.lock();
    assert!(lock.is_locked());

    let callback_is_locked_clone = Arc::clone(&callback_is_locked);
    lock.set_lock_callback(move |is_locked| *callback_is_locked_clone.lock().unwrap() = Some(is_locked));

    lock.lock();
    assert!(lock.is_locked());
    assert!(matches!(callback_is_locked.lock().unwrap().as_ref(), None));

    lock.unlock();
    assert!(!lock.is_locked());
    assert!(matches!(callback_is_locked.lock().unwrap().as_ref(), Some(false)));

    lock.lock();
    assert!(lock.is_locked());
    assert!(matches!(callback_is_locked.lock().unwrap().as_ref(), Some(true)));

    lock.clear_lock_callback();
    lock.unlock();
    assert!(!lock.is_locked());
    assert!(matches!(callback_is_locked.lock().unwrap().as_ref(), Some(true)));
}

#[test]
fn wallet_lock_starts_in_the_given_state() {
    assert!(WalletLock::new(true).is_locked());
    assert!(!WalletLock::new(false).is_locked());
}

#[test]
fn wallet_lock_tells_a_new_observer_only_of_changes() {
    let calls: Arc<Mutex<Vec<bool>>> = Arc::new(Mutex::new(Vec::new()));
    let mut lock = WalletLock::new(true);
    let seen = Arc::clone(&calls);
    lock.set_lock_callback(move |is_locked| seen.lock().unwrap().push(is_locked));
    lock.lock();
    lock.unlock();
    lock.unlock();
    lock.lock();
    assert_eq!(*calls.lock().unwrap(), vec![false, true]);
}

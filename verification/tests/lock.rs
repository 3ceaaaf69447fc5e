use mbl2::lock::LockResultExt;
use std::sync::{LockResult, Mutex, PoisonError};

#[test]
fn clean_lock_gives_guard() {
    let m = Mutex::new(5);
    let g = m.lock().ignore_poison();
    assert_eq!(*g, 5);
}

#[test]
fn poisoned_result_still_gives_guard() {
    let r: LockResult<i32> = Err(PoisonError::new(7));
    assert_eq!(r.ignore_poison(), 7);
}

use os_kernel::task::deadlock::DeadlockState;

fn enabled() -> DeadlockState {
    let mut d = DeadlockState::new();
    d.set_enabled(true);
    d
}

#[test]
fn free_mutex_is_granted() {
    let mut d = enabled();
    d.register_mutex(0);
    assert_eq!(d.before_mutex_lock(1, 0), Ok(()));
    d.after_mutex_lock(1, 0);
    // A mutex that was never registered has no owner either.
    assert_eq!(d.before_mutex_lock(1, 7), Ok(()));
}

#[test]
fn owner_may_not_wait_for_itself() {
    let mut d = enabled();
    d.register_mutex(0);
    d.after_mutex_lock(1, 0);
    assert_eq!(d.before_mutex_lock(1, 0), Err(()));
    d.set_enabled(false);
    assert_eq!(d.before_mutex_lock(1, 0), Ok(()));
}

#[test]
fn circle_of_three_is_refused() {
    let mut d = enabled();
    for id in 0..3 {
        d.register_mutex(id);
        assert_eq!(d.before_mutex_lock(id, id), Ok(()));
        d.after_mutex_lock(id, id);
    }
    assert_eq!(d.before_mutex_lock(0, 1), Ok(()));
    assert_eq!(d.before_mutex_lock(1, 2), Ok(()));
    assert_eq!(d.before_mutex_lock(2, 0), Err(()));
    // The refused thread does not wait, so it can be waited for.
    assert_eq!(d.before_mutex_lock(3, 2), Ok(()));
    d.mutex_unlock(2, 2);
    d.after_mutex_lock(1, 2);
    assert_eq!(d.before_mutex_lock(2, 0), Ok(()));
}

#[test]
fn circle_is_ignored_while_disabled() {
    let mut d = DeadlockState::default();
    for id in 0..2 {
        d.register_mutex(id);
        d.after_mutex_lock(id, id);
    }
    assert_eq!(d.before_mutex_lock(0, 1), Ok(()));
    assert_eq!(d.before_mutex_lock(1, 0), Ok(()));
    // A circle of others does not trouble a third thread.
    d.set_enabled(true);
    assert_eq!(d.before_mutex_lock(2, 0), Ok(()));
}

#[test]
fn unlock_undoes_lock() {
    let mut d = enabled();
    d.register_mutex(0);
    d.after_mutex_lock(1, 0);
    // Only the owner can give the mutex back.
    d.mutex_unlock(2, 0);
    assert_eq!(d.before_mutex_lock(1, 0), Err(()));
    d.mutex_unlock(1, 0);
    assert_eq!(d.before_mutex_lock(1, 0), Ok(()));
    d.mutex_unlock(1, 9);
}

#[test]
fn registering_forgets_owner_and_waits() {
    let mut d = enabled();
    d.register_mutex(0);
    d.register_mutex(1);
    d.after_mutex_lock(0, 0);
    d.after_mutex_lock(1, 1);
    assert_eq!(d.before_mutex_lock(0, 1), Ok(()));
    d.register_mutex(1);
    assert_eq!(d.before_mutex_lock(1, 0), Ok(()));
}

#[test]
fn exit_gives_mutexes_back() {
    let mut d = enabled();
    d.register_mutex(0);
    d.register_mutex(1);
    d.after_mutex_lock(0, 0);
    d.after_mutex_lock(0, 1);
    d.cleanup_thread(0);
    assert_eq!(d.before_mutex_lock(0, 0), Ok(()));
    assert_eq!(d.before_mutex_lock(0, 1), Ok(()));
}

#[test]
fn units_at_hand_are_granted() {
    let mut d = enabled();
    d.register_semaphore(0, 2);
    assert_eq!(d.before_semaphore_down(0, 0), Ok(true));
    d.after_semaphore_down(0, 0, true);
    assert_eq!(d.before_semaphore_down(1, 0), Ok(true));
    d.after_semaphore_down(1, 0, true);
    // Both units are held by others, who ask for nothing.
    assert_eq!(d.before_semaphore_down(2, 0), Ok(false));
}

#[test]
fn waiting_for_own_units_is_refused() {
    let mut d = enabled();
    d.register_semaphore(0, 1);
    d.after_semaphore_down(0, 0, true);
    assert_eq!(d.before_semaphore_down(0, 0), Err(()));
    d.set_enabled(false);
    assert_eq!(d.before_semaphore_down(0, 0), Ok(false));
}

#[test]
fn semaphore_without_units_is_refused() {
    let mut d = enabled();
    d.register_semaphore(0, 0);
    assert_eq!(d.before_semaphore_down(0, 0), Err(()));
    // One that was never registered has no units either.
    assert_eq!(d.before_semaphore_down(0, 5), Err(()));
    d.semaphore_up(1, 5);
    assert_eq!(d.before_semaphore_down(0, 5), Ok(true));
}

#[test]
fn circular_semaphore_wait_is_refused() {
    let mut d = enabled();
    d.register_semaphore(0, 1);
    d.register_semaphore(1, 1);
    assert_eq!(d.before_semaphore_down(0, 0), Ok(true));
    d.after_semaphore_down(0, 0, true);
    assert_eq!(d.before_semaphore_down(1, 1), Ok(true));
    d.after_semaphore_down(1, 1, true);
    assert_eq!(d.before_semaphore_down(0, 1), Ok(false));
    assert_eq!(d.before_semaphore_down(1, 0), Err(()));
    // The refused request is forgotten.
    d.semaphore_up(1, 1);
    d.after_semaphore_down(0, 1, false);
    assert_eq!(d.before_semaphore_down(1, 0), Ok(false));
}

#[test]
fn up_undoes_down() {
    let mut d = enabled();
    d.register_semaphore(0, 1);
    for _ in 0..3 {
        assert_eq!(d.before_semaphore_down(0, 0), Ok(true));
        d.after_semaphore_down(0, 0, true);
        assert_eq!(d.before_semaphore_down(0, 0), Err(()));
        d.semaphore_up(0, 0);
    }
}

#[test]
fn up_without_down_adds_a_unit() {
    let mut d = enabled();
    d.register_semaphore(0, 0);
    d.semaphore_up(3, 0);
    assert_eq!(d.before_semaphore_down(0, 0), Ok(true));
    d.after_semaphore_down(0, 0, true);
    assert_eq!(d.before_semaphore_down(1, 0), Ok(false));
}

#[test]
fn registering_forgets_units_and_waits() {
    let mut d = enabled();
    d.register_semaphore(0, 1);
    d.register_semaphore(1, 1);
    d.after_semaphore_down(0, 0, true);
    d.after_semaphore_down(1, 1, true);
    assert_eq!(d.before_semaphore_down(0, 1), Ok(false));
    d.register_semaphore(1, 0);
    assert_eq!(d.before_semaphore_down(1, 0), Ok(false));
    d.register_semaphore(0, 2);
    assert_eq!(d.before_semaphore_down(1, 0), Ok(true));
}

#[test]
fn exit_gives_units_back() {
    let mut d = enabled();
    d.register_semaphore(0, 2);
    d.register_semaphore(1, 1);
    d.after_semaphore_down(0, 0, true);
    d.after_semaphore_down(0, 0, true);
    d.after_semaphore_down(0, 1, true);
    assert_eq!(d.before_semaphore_down(1, 1), Ok(false));
    d.cleanup_thread(0);
    for _ in 0..2 {
        assert_eq!(d.before_semaphore_down(1, 0), Ok(true));
        d.after_semaphore_down(1, 0, true);
    }
    assert_eq!(d.before_semaphore_down(1, 1), Ok(true));
}

#[test]
fn two_holders_share_a_semaphore() {
    let mut d = enabled();
    d.register_semaphore(0, 2);
    d.register_semaphore(1, 1);
    d.after_semaphore_down(0, 0, true);
    d.after_semaphore_down(1, 0, true);
    d.after_semaphore_down(2, 1, true);
    // Thread 0 waits for thread 2, which waits for a unit that thread 1 will give back.
    assert_eq!(d.before_semaphore_down(0, 1), Ok(false));
    assert_eq!(d.before_semaphore_down(2, 0), Ok(false));
    // If thread 1 waited as well, nobody would be left to give anything back.
    assert_eq!(d.before_semaphore_down(1, 1), Err(()));
}

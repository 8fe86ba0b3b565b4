use os_kernel::sync::deadlock_controller::DeadlockController;
use os_kernel::sync::resource_manager::{DeadlockState, ResourceManager};
use os_kernel::sync::resource_tracker::{ResourceTracker, DEADLOCK, INVALID_ID};

/// A manager with the given totals and, for each process, what it holds and needs.
fn manager(totals: &[usize], held: &[&[usize]], needed: &[&[usize]]) -> ResourceManager {
    let mut m = ResourceManager::new();
    for total in totals {
        m.add_resource(*total);
    }
    for (pid, row) in held.iter().enumerate() {
        for (res_id, units) in row.iter().enumerate() {
            m.set_allocation(pid, res_id, *units);
        }
    }
    for (pid, row) in needed.iter().enumerate() {
        for (res_id, units) in row.iter().enumerate() {
            m.set_need(pid, res_id, *units);
        }
    }
    m
}

/// Whether the processes can finish one after the other in some order, tried one by one.
fn some_order_completes(work: &[usize], held: &[Vec<usize>], needed: &[Vec<usize>], done: &mut Vec<bool>) -> bool {
    if done.iter().all(|d| *d) {
        return true;
    }
    for p in 0..held.len() {
        if done[p] || (0..work.len()).any(|r| needed[p][r] > work[r]) {
            continue;
        }
        done[p] = true;
        let more: Vec<usize> = (0..work.len()).map(|r| work[r] + held[p][r]).collect();
        let completes = some_order_completes(&more, held, needed, done);
        done[p] = false;
        if completes {
            return true;
        }
    }
    false
}

#[test]
fn empty_manager_is_safe() {
    let m = ResourceManager::new();
    assert_eq!(m.resource_count(), 0);
    assert_eq!(m.process_count(), 0);
    assert_eq!(m.detect_deadlock(), DeadlockState::Safe);
    assert_eq!(ResourceManager::default().resource_count(), 0);
}

#[test]
fn rows_are_added_up_to_the_process() {
    let mut m = ResourceManager::new();
    m.ensure_process(3);
    assert_eq!(m.process_count(), 4);
    m.ensure_process(1);
    assert_eq!(m.process_count(), 4);
    assert_eq!(m.add_resource(7), 0);
    assert_eq!(m.add_resource(9), 1);
    assert_eq!(m.resource_count(), 2);
    m.set_allocation(5, 1, 2);
    assert_eq!(m.process_count(), 6);
    assert_eq!(m.available_units(0), 7);
    assert_eq!(m.available_units(1), 7);
}

#[test]
fn circular_wait_is_a_deadlock() {
    let m = manager(&[1, 1], &[&[1, 0], &[0, 1]], &[&[0, 1], &[1, 0]]);
    assert_eq!(m.detect_deadlock(), DeadlockState::Deadlocked(vec![0, 1]));
}

#[test]
fn bystanders_are_not_deadlocked() {
    let m = manager(
        &[1, 1, 1],
        &[&[0, 0, 1], &[1, 0, 0], &[0, 0, 0], &[0, 1, 0]],
        &[&[0, 0, 0], &[0, 1, 0], &[0, 0, 1], &[1, 0, 0]],
    );
    assert_eq!(m.detect_deadlock(), DeadlockState::Deadlocked(vec![1, 3]));
}

#[test]
fn chain_of_waits_is_safe() {
    let m = manager(&[1, 1], &[&[1, 0], &[0, 1], &[0, 0]], &[&[0, 1], &[0, 0], &[1, 0]]);
    assert_eq!(m.detect_deadlock(), DeadlockState::Safe);
}

#[test]
fn need_beyond_the_total_is_a_deadlock() {
    let m = manager(&[2], &[&[0]], &[&[3]]);
    assert_eq!(m.detect_deadlock(), DeadlockState::Deadlocked(vec![0]));
    let m = manager(&[2], &[&[0]], &[&[2]]);
    assert_eq!(m.detect_deadlock(), DeadlockState::Safe);
}

#[test]
fn deadlock_free_iff_some_order_completes() {
    let mut seed: u32 = 7;
    let mut deadlocks = 0;
    for _ in 0..400 {
        let mut next = |bound: usize| {
            seed = seed.wrapping_mul(1_664_525).wrapping_add(1_013_904_223);
            (seed >> 16) as usize % bound
        };
        let held: Vec<Vec<usize>> = (0..4).map(|_| (0..3).map(|_| next(2)).collect()).collect();
        let needed: Vec<Vec<usize>> = (0..4).map(|_| (0..3).map(|_| next(3)).collect()).collect();
        let free: Vec<usize> = (0..3).map(|_| next(2)).collect();
        let totals: Vec<usize> = (0..3).map(|r| free[r] + held.iter().map(|row| row[r]).sum::<usize>()).collect();
        let held_rows: Vec<&[usize]> = held.iter().map(|row| row.as_slice()).collect();
        let needed_rows: Vec<&[usize]> = needed.iter().map(|row| row.as_slice()).collect();
        let m = manager(&totals, &held_rows, &needed_rows);
        let completes = some_order_completes(&free, &held, &needed, &mut vec![false; 4]);
        assert_eq!(m.detect_deadlock() == DeadlockState::Safe, completes);
        if !completes {
            deadlocks += 1;
        }
    }
    assert!(deadlocks > 0 && deadlocks < 400);
}

#[test]
fn deadlocked_process_lacks_units() {
    let m = manager(&[2, 1], &[&[1, 1], &[1, 0]], &[&[0, 0], &[2, 0]]);
    // Process 0 leaves one unit. The one that process 1 holds does not count for it.
    assert_eq!(m.available_units(0), 0);
    assert_eq!(m.detect_deadlock(), DeadlockState::Deadlocked(vec![1]));
}

#[test]
fn more_units_end_the_deadlock() {
    let m = manager(&[2, 1], &[&[1, 0], &[0, 1]], &[&[0, 1], &[1, 0]]);
    assert_eq!(m.detect_deadlock(), DeadlockState::Safe);
}

#[test]
fn allocation_saturates() {
    let mut m = manager(&[5], &[&[0]], &[]);
    m.sub_allocation(0, 0, 1);
    assert_eq!(m.total_allocation(0), 0);
    m.add_allocation(0, 0, usize::MAX - 1);
    m.add_allocation(0, 0, 5);
    assert_eq!(m.total_allocation(0), usize::MAX);
    assert_eq!(m.available_units(0), 0);
    m.sub_allocation(0, 0, usize::MAX - 3);
    assert_eq!(m.total_allocation(0), 3);
    assert_eq!(m.available_units(0), 2);
}

#[test]
fn reset_forgets_one_resource() {
    let mut m = manager(&[1, 1], &[&[1, 0], &[0, 1]], &[&[0, 1], &[1, 0]]);
    m.reset_resource(0, 4);
    assert_eq!(m.available_units(0), 4);
    assert_eq!(m.available_units(1), 0);
    assert_eq!(m.detect_deadlock(), DeadlockState::Safe);
}

#[test]
fn cleared_needs_end_the_deadlock() {
    let mut m = manager(&[1, 1], &[&[1, 0], &[0, 1]], &[&[0, 1], &[1, 0]]);
    m.clear_all_needs();
    assert_eq!(m.detect_deadlock(), DeadlockState::Safe);
    assert_eq!(m.available_units(0), 0);
}

#[test]
fn tracker_maps_identifiers_in_order() {
    let mut t = ResourceTracker::new();
    assert_eq!(t.register(5, 2), 0);
    assert_eq!(t.register(1, 3), 1);
    assert_eq!(t.resource_id(5), Some(0));
    assert_eq!(t.resource_id(1), Some(1));
    assert_eq!(t.resource_id(3), None);
    assert_eq!(t.resource_id(6), None);
    t.add_allocation(0, 0, 2);
    assert_eq!(t.available_units(0), 0);
    assert_eq!(t.register(5, 4), 0);
    assert_eq!(t.available_units(0), 4);
    assert_eq!(t.available_units(1), 3);
}

#[test]
fn tracker_detects_deadlock() {
    let mut t = ResourceTracker::new();
    let a = t.register(10, 1);
    let b = t.register(20, 1);
    t.ensure_process(1);
    t.set_allocation(0, a, 1);
    t.set_allocation(1, b, 1);
    t.set_need(0, b, 1);
    assert_eq!(t.detect_deadlock(), DeadlockState::Safe);
    t.set_need(1, a, 1);
    assert_eq!(t.detect_deadlock(), DeadlockState::Deadlocked(vec![0, 1]));
    t.sub_allocation(1, b, 1);
    assert_eq!(t.detect_deadlock(), DeadlockState::Safe);
    t.set_allocation(1, b, 1);
    t.clear_all_needs();
    assert_eq!(t.detect_deadlock(), DeadlockState::Safe);
}

#[test]
fn error_codes() {
    assert_eq!(INVALID_ID, -1);
    assert_eq!(DEADLOCK, -0xDEAD);
}

#[test]
fn unknown_resources_are_refused() {
    for enabled in [false, true] {
        let mut c = DeadlockController::new();
        c.set_enabled(enabled);
        assert_eq!(c.before_mutex_lock(0, 0), Err(-1));
        assert_eq!(c.after_mutex_lock(0, 0), Err(-1));
        assert_eq!(c.after_mutex_unlock(0, 0), Err(-1));
        assert_eq!(c.before_semaphore_down(0, 0), Err(-1));
        assert_eq!(c.after_semaphore_down(0, 0), Err(-1));
        assert_eq!(c.after_semaphore_up(0, 0), Err(-1));
    }
}

#[test]
fn controller_starts_disabled() {
    let mut c = DeadlockController::default();
    assert!(!c.enabled());
    c.set_enabled(true);
    assert!(c.enabled());
    c.set_enabled(false);
    assert!(!c.enabled());
}

#[test]
fn relocking_is_refused() {
    let mut c = DeadlockController::new();
    c.set_enabled(true);
    assert_eq!(c.register_mutex(3), 0);
    c.ensure_thread(2);
    assert_eq!(c.before_mutex_lock(2, 3), Ok(()));
    assert_eq!(c.after_mutex_lock(2, 3), Ok(()));
    assert_eq!(c.before_mutex_lock(2, 3), Err(-0xDEAD));
    assert_eq!(c.after_mutex_unlock(2, 3), Ok(()));
    assert_eq!(c.before_mutex_lock(2, 3), Ok(()));
}

#[test]
fn disabled_controller_grants() {
    let mut c = DeadlockController::new();
    c.register_mutex(0);
    assert_eq!(c.before_mutex_lock(0, 0), Ok(()));
    assert_eq!(c.after_mutex_lock(0, 0), Ok(()));
    assert_eq!(c.before_mutex_lock(0, 0), Ok(()));
}

#[test]
fn circular_mutex_wait_is_refused() {
    let mut c = DeadlockController::new();
    c.set_enabled(true);
    c.register_mutex(0);
    c.register_mutex(1);
    assert_eq!(c.before_mutex_lock(0, 0), Ok(()));
    assert_eq!(c.after_mutex_lock(0, 0), Ok(()));
    assert_eq!(c.before_mutex_lock(1, 1), Ok(()));
    assert_eq!(c.after_mutex_lock(1, 1), Ok(()));
    assert_eq!(c.before_mutex_lock(0, 1), Ok(()));
    assert_eq!(c.before_mutex_lock(1, 0), Err(-0xDEAD));
    // The refused request is forgotten: thread 0 can be served once thread 1 is done.
    assert_eq!(c.after_mutex_unlock(1, 1), Ok(()));
    assert_eq!(c.after_mutex_lock(0, 1), Ok(()));
    assert_eq!(c.before_mutex_lock(1, 0), Ok(()));
}

#[test]
fn disabling_forgets_waits() {
    let mut c = DeadlockController::new();
    c.set_enabled(true);
    c.register_mutex(0);
    c.register_mutex(1);
    assert_eq!(c.after_mutex_lock(0, 0), Ok(()));
    assert_eq!(c.after_mutex_lock(1, 1), Ok(()));
    assert_eq!(c.before_mutex_lock(0, 1), Ok(()));
    c.set_enabled(false);
    c.set_enabled(true);
    assert_eq!(c.before_mutex_lock(1, 0), Ok(()));
}

#[test]
fn exit_gives_back_what_was_held() {
    let mut c = DeadlockController::new();
    c.set_enabled(true);
    c.register_mutex(0);
    c.register_semaphore(0, 1);
    assert_eq!(c.after_mutex_lock(4, 0), Ok(()));
    assert_eq!(c.after_semaphore_down(4, 0), Ok(()));
    c.cleanup_thread(4);
    c.cleanup_thread(9);
    assert_eq!(c.before_mutex_lock(4, 0), Ok(()));
    assert_eq!(c.before_semaphore_down(4, 0), Ok(()));
}

#[test]
fn semaphore_units_are_counted() {
    let mut c = DeadlockController::new();
    c.set_enabled(true);
    assert_eq!(c.register_semaphore(8, 2), 0);
    for _ in 0..2 {
        assert_eq!(c.before_semaphore_down(0, 8), Ok(()));
        assert_eq!(c.after_semaphore_down(0, 8), Ok(()));
    }
    assert_eq!(c.before_semaphore_down(0, 8), Err(-0xDEAD));
    assert_eq!(c.after_semaphore_up(0, 8), Ok(()));
    assert_eq!(c.before_semaphore_down(0, 8), Ok(()));
    assert_eq!(c.after_semaphore_down(0, 8), Ok(()));
    // Another thread may wait for the units of thread 0.
    assert_eq!(c.before_semaphore_down(1, 8), Ok(()));
    assert_eq!(c.before_semaphore_down(0, 8), Err(-0xDEAD));
}

#[test]
fn granted_requests_never_close_a_deadlock() {
    let mut seed: u32 = 11;
    let mut refused = 0;
    let mut c = DeadlockController::new();
    let mut shadow = ResourceManager::new();
    c.set_enabled(true);
    for id in 0..3 {
        c.register_mutex(id);
        shadow.add_resource(1);
    }
    let mut owner: [Option<usize>; 3] = [None; 3];
    let mut waits: [Option<usize>; 4] = [None; 4];
    shadow.ensure_process(3);
    for _ in 0..2000 {
        seed = seed.wrapping_mul(1_664_525).wrapping_add(1_013_904_223);
        let tid = (seed >> 16) as usize % 4;
        let id = (seed >> 20) as usize % 3;
        if (seed >> 28) % 2 == 0 && waits[tid].is_none() {
            match c.before_mutex_lock(tid, id) {
                Ok(()) if owner[id].is_none() => {
                    assert_eq!(c.after_mutex_lock(tid, id), Ok(()));
                    owner[id] = Some(tid);
                    shadow.set_allocation(tid, id, 1);
                }
                Ok(()) => {
                    waits[tid] = Some(id);
                    shadow.set_need(tid, id, 1);
                }
                Err(code) => {
                    assert_eq!(code, -0xDEAD);
                    refused += 1;
                }
            }
        } else if owner[id] == Some(tid) && waits[tid].is_none() {
            assert_eq!(c.after_mutex_unlock(tid, id), Ok(()));
            owner[id] = None;
            shadow.set_allocation(tid, id, 0);
            if let Some(waiter) = (0..4).find(|t| waits[*t] == Some(id)) {
                assert_eq!(c.after_mutex_lock(waiter, id), Ok(()));
                waits[waiter] = None;
                owner[id] = Some(waiter);
                shadow.set_need(waiter, id, 0);
                shadow.set_allocation(waiter, id, 1);
            }
        }
        assert_eq!(shadow.detect_deadlock(), DeadlockState::Safe);
    }
    assert!(refused > 0);
}

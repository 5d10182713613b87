use touchhle::libc::errno::{EAGAIN, EEXIST, EINVAL, ENOENT};
use touchhle::libc::semaphore::{State, O_CREAT, O_EXCL, SEM_FAILED};
use touchhle::mem::Mem;

#[test]
fn unnamed_semaphore_counts_units() {
    let mut state = State::new();
    let mut errno = 99;
    assert_eq!(state.sem_init(&mut errno, 0x5000, 0, 1), 0);
    assert_eq!(errno, 0);
    assert_eq!(state.sem_trywait(&mut errno, 0x5000), 0);
    assert_eq!(state.sem_trywait(&mut errno, 0x5000), -1);
    assert_eq!(errno, EAGAIN);
    assert_eq!(state.sem_post(&mut errno, 0x5000), (0, None));
    assert_eq!(state.sem_getvalue(0x5000), Some(1));
    assert_eq!(state.sem_destroy(0x5000), 0);
    assert_eq!(state.sem_destroy(0x5000), EINVAL);
    assert_eq!(state.sem_trywait(&mut errno, 0x5000), -1);
    assert_eq!(errno, EINVAL);
}

#[test]
fn waiters_are_woken_in_order() {
    let mut state = State::new();
    let mut errno = 0;
    state.sem_init(&mut errno, 0x5000, 0, 0);
    assert_eq!(state.sem_wait(&mut errno, 0x5000, 3), None);
    assert_eq!(state.sem_wait(&mut errno, 0x5000, 4), None);
    assert_eq!(state.sem_getvalue(0x5000), Some(-2));
    assert_eq!(state.sem_post(&mut errno, 0x5000), (0, Some(3)));
    assert_eq!(state.sem_post(&mut errno, 0x5000), (0, Some(4)));
    assert_eq!(state.sem_post(&mut errno, 0x5000), (0, None));
    assert_eq!(state.sem_wait(&mut errno, 0x5000, 5), Some(0));
    assert_eq!(state.sem_post(&mut errno, 0x6000), (-1, None));
    assert_eq!(errno, EINVAL);
    assert_eq!(state.sem_wait(&mut errno, 0x6000, 1), Some(-1));
}

#[test]
fn named_semaphores_are_shared_by_name() {
    let mut state = State::new();
    let mut mem = Mem::new();
    let mut errno = 0;
    assert_eq!(state.sem_open(&mut mem, &mut errno, b"/lock", 0, 1), Ok(SEM_FAILED));
    assert_eq!(errno, ENOENT);
    let a = state.sem_open(&mut mem, &mut errno, b"/lock", O_CREAT, 1).unwrap();
    assert_eq!(errno, 0);
    assert_ne!(a, SEM_FAILED);
    assert_eq!(state.sem_open(&mut mem, &mut errno, b"/lock", O_CREAT, 1), Ok(a));
    assert_eq!(state.sem_open(&mut mem, &mut errno, b"/lock", O_CREAT | O_EXCL, 1), Ok(SEM_FAILED));
    assert_eq!(errno, EEXIST);
    assert!(state.is_named_open(a));
    assert_eq!(state.sem_close(&mut mem, &mut errno, a), 0);
    assert_eq!(mem.allocation_size(a), None);
    let b = state.sem_open(&mut mem, &mut errno, b"/lock", 0, 0).unwrap();
    assert_ne!(b, SEM_FAILED);
    assert_eq!(state.sem_getvalue(b), Some(1));
    assert_eq!(state.sem_unlink(&mut errno, b"/lock"), 0);
    assert_eq!(state.sem_open(&mut mem, &mut errno, b"/lock", 0, 0), Ok(SEM_FAILED));
    // Still open at its address after the name is gone.
    assert_eq!(state.sem_getvalue(b), Some(1));
}

#[test]
fn close_refuses_unnamed_semaphores() {
    let mut state = State::new();
    let mut mem = Mem::new();
    let mut errno = 0;
    let sem = state.host_create_semaphore(&mut mem, 2).unwrap();
    assert_eq!(state.sem_close(&mut mem, &mut errno, sem), -1);
    assert_eq!(errno, EINVAL);
    assert_eq!(state.sem_getvalue(sem), Some(2));
    state.host_destroy_semaphore(&mut mem, sem);
    assert_eq!(state.sem_getvalue(sem), None);
    assert_eq!(mem.allocation_size(sem), None);
    assert_eq!(state.sem_close(&mut mem, &mut errno, 0x1234), -1);
}

//! `semaphore.h`: named and unnamed semaphores.
//!
//! A semaphore object may be reachable both by name (from `sem_open`) and
//! by its guest `sem_t` address; the objects live in an arena and the two
//! tables hold indices into it. Blocking a thread and waking it again is
//! the scheduler's part: [State::sem_wait] says when the caller must block,
//! and [State::sem_post] names the waiter to wake.
use crate::libc::errno::{EAGAIN, EEXIST, EINVAL, ENOENT};
use crate::mem::{after_alloc, alloc_place, Mem, MemView};
use crate::text::bytes_equal;
use std::collections::HashMap;
use vstd::prelude::*;

verus! {

/// `O_CREAT` of `fcntl.h`.
pub const O_CREAT: i32 = 0x200;
/// `O_EXCL` of `fcntl.h`.
pub const O_EXCL: i32 = 0x800;
/// `SEM_FAILED`: `(sem_t *)-1`.
pub const SEM_FAILED: u32 = 0xffff_ffff;
/// Size of `sem_t` in guest memory.
pub const SEM_T_SIZE: u32 = 4;

/// One semaphore.
#[derive(Clone, Debug)]
pub struct SemaphoreHostObject {
    /// Units available.
    pub value: i32,
    /// Threads blocked in `sem_wait`, longest waiting first.
    pub waiting: Vec<usize>,
    guest_sem: Option<u32>,
    named: bool,
}

/// A semaphore as a value.
pub ghost struct SemView {
    pub value: i32,
    pub waiting: Seq<usize>,
    pub guest_sem: Option<u32>,
    pub named: bool,
}

impl SemaphoreHostObject {
    /// The semaphore as a value.
    pub closed spec fn view_sem(&self) -> SemView {
        SemView {
            value: self.value,
            waiting: self.waiting@,
            guest_sem: self.guest_sem,
            named: self.named,
        }
    }
}

/// The semaphores of the process.
pub struct State {
    objects: Vec<SemaphoreHostObject>,
    named_semaphores: Vec<(Vec<u8>, usize)>,
    open_semaphores: HashMap<u32, usize>,
}

/// The object named `name` in a name table: the first entry for it.
pub open spec fn named_index(names: Seq<(Seq<u8>, usize)>, name: Seq<u8>) -> Option<usize>
    decreases names.len(),
{
    if names.len() == 0 {
        None
    } else if names[0].0 == name {
        Some(names[0].1)
    } else {
        named_index(names.drop_first(), name)
    }
}

/// The name table without the entries for `name`.
pub open spec fn without_name(names: Seq<(Seq<u8>, usize)>, name: Seq<u8>) -> Seq<(Seq<u8>, usize)> {
    names.filter(|e: (Seq<u8>, usize)| e.0 != name)
}

/// A name table entry as a value.
pub open spec fn name_entry(e: (Vec<u8>, usize)) -> (Seq<u8>, usize) {
    (e.0@, e.1)
}

impl State {
    /// The semaphore objects, by index.
    pub closed spec fn objects(&self) -> Seq<SemView> {
        self.objects@.map_values(|o: SemaphoreHostObject| o.view_sem())
    }

    /// The names given by `sem_open`, oldest first.
    pub closed spec fn names(&self) -> Seq<(Seq<u8>, usize)> {
        self.named_semaphores@.map_values(|e: (Vec<u8>, usize)| name_entry(e))
    }

    /// The semaphores open at guest addresses.
    pub closed spec fn open(&self) -> Map<u32, usize> {
        self.open_semaphores@
    }

    /// Every table entry names an object.
    pub closed spec fn wf(&self) -> bool {
        &&& forall|a: u32| #[trigger]
            self.open_semaphores@.contains_key(a) ==> self.open_semaphores@[a]
                < self.objects@.len()
        &&& forall|i: int|
            0 <= i < self.named_semaphores@.len() ==> (#[trigger] self.named_semaphores@[i]).1
                < self.objects@.len()
    }

    /// No semaphores.
    pub fn new() -> (r: Self)
        ensures
            r.wf(),
            r.objects() == Seq::<SemView>::empty(),
            r.names() == Seq::<(Seq<u8>, usize)>::empty(),
            r.open() == Map::<u32, usize>::empty(),
    {
        let r = State {
            objects: Vec::new(),
            named_semaphores: Vec::new(),
            open_semaphores: HashMap::new(),
        };
        assert(r.objects() =~= Seq::<SemView>::empty());
        assert(r.names() =~= Seq::<(Seq<u8>, usize)>::empty());
        r
    }

    /// The object open at `sem`, if any.
    fn open_index(&self, sem: u32) -> (r: Option<usize>)
        requires
            self.wf(),
        ensures
            r == (if self.open().contains_key(sem) {
                Some(self.open()[sem])
            } else {
                None::<usize>
            }),
            r matches Some(i) ==> i < self.objects().len(),
    {
        match self.open_semaphores.get(&sem) {
            Some(i) => Some(*i),
            None => None,
        }
    }

    /// The object named `name`, if any.
    fn find_name(&self, name: &[u8]) -> (r: Option<usize>)
        requires
            self.wf(),
        ensures
            r == named_index(self.names(), name@),
            r matches Some(i) ==> i < self.objects().len(),
    {
        let mut k: usize = 0;
        let ghost all = self.names();
        assert(all.subrange(0, all.len() as int) =~= all);
        while k < self.named_semaphores.len()
            invariant
                self.wf(),
                all == self.names(),
                0 <= k <= all.len(),
                all.len() == self.named_semaphores@.len(),
                named_index(all, name@) == named_index(all.subrange(k as int, all.len() as int), name@),
            decreases self.named_semaphores.len() - k,
        {
            let ghost rest = all.subrange(k as int, all.len() as int);
            assert(rest.drop_first() =~= all.subrange(k + 1, all.len() as int));
            assert(all[k as int] == name_entry(self.named_semaphores@[k as int]));
            if bytes_equal(self.named_semaphores[k].0.as_slice(), name) {
                return Some(self.named_semaphores[k].1);
            }
            k = k + 1;
        }
        None
    }

    /// Whether the semaphore at `sem` is open and was made by `sem_open`:
    /// `sem_destroy` may not be used on it.
    pub fn is_named_open(&self, sem: u32) -> (r: bool)
        requires
            self.wf(),
        ensures
            r == (self.open().contains_key(sem) && self.objects()[self.open()[sem] as int].named),
    {
        match self.open_index(sem) {
            Some(i) => self.objects[i].named,
            None => false,
        }
    }

    /// `sem_init`: makes an unnamed semaphore with `value` units at the
    /// guest address `sem`, unless one is open there already. Returns 0 and
    /// sets `errno` to 0. Only process-private semaphores are supported.
    pub fn sem_init(&mut self, errno: &mut i32, sem: u32, pshared: i32, value: u32) -> (r: i32)
        requires
            old(self).wf(),
            pshared == 0,
        ensures
            final(self).wf(),
            r == 0,
            *final(errno) == 0,
            final(self).names() == old(self).names(),
            old(self).open().contains_key(sem) ==> final(self).open() == old(self).open()
                && final(self).objects() == old(self).objects(),
            !old(self).open().contains_key(sem) ==> {
                &&& final(self).objects() == old(self).objects().push(
                    SemView {
                        value: value as i32,
                        waiting: Seq::empty(),
                        guest_sem: Some(sem),
                        named: false,
                    },
                )
                &&& final(self).open() == old(self).open().insert(
                    sem,
                    old(self).objects().len() as usize,
                )
            },
    {
        *errno = 0;
        if self.open_index(sem).is_some() {
            return 0;
        }
        let index = self.objects.len();
        self.push_object(
            SemaphoreHostObject {
                value: value as i32,
                waiting: Vec::new(),
                guest_sem: Some(sem),
                named: false,
            },
        );
        self.open_semaphores.insert(sem, index);
        proof {
            assert forall|a: u32| #[trigger] self.open_semaphores@.contains_key(a) implies self.open_semaphores@[a]
                < self.objects@.len() by {
                if a != sem {
                    assert(old(self).open_semaphores@.contains_key(a));
                }
            }
        }
        0
    }

    /// Adds an object to the arena.
    fn push_object(&mut self, o: SemaphoreHostObject)
        requires
            old(self).wf(),
        ensures
            final(self).wf(),
            final(self).objects() == old(self).objects().push(o.view_sem()),
            final(self).names() == old(self).names(),
            final(self).open() == old(self).open(),
            final(self).objects@.len() == old(self).objects@.len() + 1,
    {
        let ghost before = self.objects@;
        self.objects.push(o);
        proof {
            let f = |x: SemaphoreHostObject| x.view_sem();
            assert(self.objects@.map_values(f) =~= before.map_values(f).push(o.view_sem()));
        }
    }

    /// `sem_destroy`: forgets the unnamed semaphore at `sem` (its memory is
    /// the guest's). Returns 0, or `EINVAL` where no semaphore is open
    /// there.
    pub fn sem_destroy(&mut self, sem: u32) -> (r: i32)
        requires
            old(self).wf(),
            !(old(self).open().contains_key(sem) && old(self).objects()[old(self).open()[sem] as int].named),
        ensures
            final(self).wf(),
            r == (if old(self).open().contains_key(sem) {
                0
            } else {
                EINVAL
            }),
            final(self).open() == old(self).open().remove(sem),
            final(self).objects() == old(self).objects(),
            final(self).names() == old(self).names(),
    {
        match self.open_semaphores.remove(&sem) {
            Some(_) => 0,
            None => {
                assert(old(self).open() =~= old(self).open().remove(sem));
                EINVAL
            },
        }
    }

    /// `sem_open`: opens the semaphore named `name` (the bytes of the guest
    /// C string), creating it with `value` units where `O_CREAT` asks for
    /// it, and returns its guest `sem_t` address, a fresh one where it has
    /// none. Fails with `SEM_FAILED` and `EEXIST` where `O_CREAT | O_EXCL`
    /// meets an existing name, and with `ENOENT` where the name is unknown
    /// and `O_CREAT` is missing. `Err` means the guest `sem_t` could not be
    /// allocated.
    pub fn sem_open(
        &mut self,
        mem: &mut Mem,
        errno: &mut i32,
        name: &[u8],
        oflag: i32,
        value: u32,
    ) -> (r: Result<u32, &'static str>)
        requires
            old(self).wf(),
            old(mem).wf(),
        ensures
            final(self).wf(),
            final(mem).wf(),
            match named_index(old(self).names(), name@) {
                Some(i) => if oflag & O_EXCL != 0 {
                    r == Ok::<u32, &str>(SEM_FAILED) && *final(errno) == EEXIST && final(mem)@
                        == old(mem)@ && final(self).objects() == old(self).objects()
                        && final(self).names() == old(self).names() && final(self).open()
                        == old(self).open()
                } else if old(self).objects()[i as int].guest_sem is Some {
                    r == Ok::<u32, &str>(old(self).objects()[i as int].guest_sem.unwrap())
                        && *final(errno) == 0 && final(mem)@ == old(mem)@ && final(self).objects()
                        == old(self).objects() && final(self).names() == old(self).names()
                        && final(self).open() == old(self).open()
                } else {
                    &&& *final(errno) == 0
                    &&& final(self).names() == old(self).names()
                    &&& opened_at(old(self).objects(), old(self).open(), old(mem)@, i as int, final(self).objects(), final(self).open(), final(mem)@, r)
                },
                None => if oflag & O_CREAT == 0 {
                    r == Ok::<u32, &str>(SEM_FAILED) && *final(errno) == ENOENT && final(mem)@
                        == old(mem)@ && final(self).objects() == old(self).objects()
                        && final(self).names() == old(self).names() && final(self).open()
                        == old(self).open()
                } else {
                    let fresh = old(self).objects().push(
                        SemView {
                            value: value as i32,
                            waiting: Seq::empty(),
                            guest_sem: None,
                            named: true,
                        },
                    );
                    &&& *final(errno) == 0
                    &&& final(self).names() == old(self).names().push(
                        (name@, old(self).objects().len() as usize),
                    )
                    &&& opened_at(fresh, old(self).open(), old(mem)@, old(self).objects().len() as int, final(self).objects(), final(self).open(), final(mem)@, r)
                },
            },
    {
        *errno = 0;
        let index = match self.find_name(name) {
            Some(i) => {
                if oflag & O_EXCL != 0 {
                    *errno = EEXIST;
                    return Ok(SEM_FAILED);
                }
                if let Some(existing) = self.objects[i].guest_sem {
                    return Ok(existing);
                }
                i
            },
            None => {
                if oflag & O_CREAT == 0 {
                    *errno = ENOENT;
                    return Ok(SEM_FAILED);
                }
                let index = self.objects.len();
                self.push_object(
                    SemaphoreHostObject {
                        value: value as i32,
                        waiting: Vec::new(),
                        guest_sem: None,
                        named: true,
                    },
                );
                let ghost before = self.named_semaphores@;
                self.named_semaphores.push((slice_to_vec(name), index));
                proof {
                    let f = |e: (Vec<u8>, usize)| name_entry(e);
                    assert(self.named_semaphores@.map_values(f) =~= before.map_values(f).push(
                        (name@, index),
                    ));
                    assert forall|k: int| 0 <= k < self.named_semaphores@.len() implies (
                    #[trigger] self.named_semaphores@[k]).1 < self.objects@.len() by {
                        if k < before.len() {
                            assert(self.named_semaphores@[k] == before[k]);
                        }
                    }
                }
                index
            },
        };
        self.attach_guest_sem(mem, index)
    }

    /// Gives object `index` a fresh guest `sem_t` and opens it there.
    fn attach_guest_sem(&mut self, mem: &mut Mem, index: usize) -> (r: Result<u32, &'static str>)
        requires
            old(self).wf(),
            old(mem).wf(),
            index < old(self).objects().len(),
        ensures
            final(self).wf(),
            final(mem).wf(),
            final(self).names() == old(self).names(),
            opened_at(
                old(self).objects(),
                old(self).open(),
                old(mem)@,
                index as int,
                final(self).objects(),
                final(self).open(),
                final(mem)@,
                r,
            ),
    {
        let sem = match alloc_sem(mem) {
            Ok(p) => p,
            Err(e) => {
                return Err(e);
            },
        };
        let ghost objs = self.objects@;
        self.objects[index].guest_sem = Some(sem);
        self.open_semaphores.insert(sem, index);
        proof {
            let f = |x: SemaphoreHostObject| x.view_sem();
            assert(self.objects@.map_values(f) =~= objs.map_values(f).update(
                index as int,
                SemView { guest_sem: Some(sem), ..objs[index as int].view_sem() },
            ));
            assert forall|a: u32| #[trigger] self.open_semaphores@.contains_key(a) implies self.open_semaphores@[a]
                < self.objects@.len() by {
                if a != sem {
                    assert(old(self).open_semaphores@.contains_key(a));
                }
            }
        }
        Ok(sem)
    }

    /// `sem_post`: hands a unit to the longest waiting thread, or else adds
    /// it to the semaphore. Returns 0 and the thread to wake (if any), or
    /// -1 with `EINVAL` where no semaphore is open at `sem`.
    pub fn sem_post(&mut self, errno: &mut i32, sem: u32) -> (r: (i32, Option<usize>))
        requires
            old(self).wf(),
        ensures
            final(self).wf(),
            final(self).open() == old(self).open(),
            final(self).names() == old(self).names(),
            !old(self).open().contains_key(sem) ==> r == (-1i32, None::<usize>) && *final(errno)
                == EINVAL && final(self).objects() == old(self).objects(),
            old(self).open().contains_key(sem) ==> {
                let i = old(self).open()[sem] as int;
                let o = old(self).objects()[i];
                &&& *final(errno) == 0
                &&& if o.waiting.len() > 0 {
                    r == (0i32, Some(o.waiting[0])) && final(self).objects() == old(self).objects().update(i, SemView { waiting: o.waiting.drop_first(), ..o })
                } else {
                    r == (0i32, None::<usize>) && final(self).objects() == old(self).objects().update(
                        i,
                        SemView { value: o.value.wrapping_add(1), ..o },
                    )
                }
            },
    {
        *errno = 0;
        let i = match self.open_index(sem) {
            Some(i) => i,
            None => {
                *errno = EINVAL;
                return (-1, None);
            },
        };
        let ghost objs = self.objects@;
        let ghost f = |x: SemaphoreHostObject| x.view_sem();
        if self.objects[i].waiting.len() > 0 {
            let woken = self.objects[i].waiting.remove(0);
            proof {
                assert(self.objects@[i as int].waiting@ =~= objs[i as int].waiting@.drop_first());
                assert(self.objects@.map_values(f) =~= objs.map_values(f).update(
                    i as int,
                    SemView { waiting: objs[i as int].waiting@.drop_first(), ..objs[i as int].view_sem() },
                ));
            }
            (0, Some(woken))
        } else {
            self.objects[i].value = self.objects[i].value.wrapping_add(1);
            proof {
                assert(self.objects@.map_values(f) =~= objs.map_values(f).update(
                    i as int,
                    SemView { value: objs[i as int].value.wrapping_add(1), ..objs[i as int].view_sem() },
                ));
            }
            (0, None)
        }
    }

    /// `sem_trywait`: takes a unit without blocking. Returns 0, or -1 with
    /// `EAGAIN` where none is available and with `EINVAL` where no
    /// semaphore is open at `sem`.
    pub fn sem_trywait(&mut self, errno: &mut i32, sem: u32) -> (r: i32)
        requires
            old(self).wf(),
        ensures
            final(self).wf(),
            final(self).open() == old(self).open(),
            final(self).names() == old(self).names(),
            !old(self).open().contains_key(sem) ==> r == -1 && *final(errno) == EINVAL
                && final(self).objects() == old(self).objects(),
            old(self).open().contains_key(sem) ==> {
                let i = old(self).open()[sem] as int;
                let o = old(self).objects()[i];
                if o.value > 0 {
                    r == 0 && *final(errno) == 0 && final(self).objects() == old(self).objects().update(
                        i,
                        SemView { value: (o.value - 1) as i32, ..o },
                    )
                } else {
                    r == -1 && *final(errno) == EAGAIN && final(self).objects() == old(self).objects()
                }
            },
    {
        *errno = 0;
        let i = match self.open_index(sem) {
            Some(i) => i,
            None => {
                *errno = EINVAL;
                return -1;
            },
        };
        if self.objects[i].value > 0 {
            let ghost objs = self.objects@;
            self.objects[i].value = self.objects[i].value - 1;
            proof {
                let f = |x: SemaphoreHostObject| x.view_sem();
                assert(self.objects@.map_values(f) =~= objs.map_values(f).update(
                    i as int,
                    SemView { value: (objs[i as int].value - 1) as i32, ..objs[i as int].view_sem() },
                ));
            }
            0
        } else {
            *errno = EAGAIN;
            -1
        }
    }

    /// `sem_wait`: takes a unit where one is available (returning 0);
    /// otherwise queues `thread` as a waiter and returns `None`: the thread
    /// is to block until [State::sem_post] names it, and its `sem_wait`
    /// then returns 0. Returns -1 with `EINVAL` where no semaphore is open
    /// at `sem`.
    pub fn sem_wait(&mut self, errno: &mut i32, sem: u32, thread: usize) -> (r: Option<i32>)
        requires
            old(self).wf(),
        ensures
            final(self).wf(),
            final(self).open() == old(self).open(),
            final(self).names() == old(self).names(),
            !old(self).open().contains_key(sem) ==> r == Some(-1i32) && *final(errno) == EINVAL
                && final(self).objects() == old(self).objects(),
            old(self).open().contains_key(sem) ==> {
                let i = old(self).open()[sem] as int;
                let o = old(self).objects()[i];
                &&& *final(errno) == 0
                &&& if o.value > 0 {
                    r == Some(0i32) && final(self).objects() == old(self).objects().update(
                        i,
                        SemView { value: (o.value - 1) as i32, ..o },
                    )
                } else {
                    r is None && final(self).objects() == old(self).objects().update(
                        i,
                        SemView { waiting: o.waiting.push(thread), ..o },
                    )
                }
            },
    {
        *errno = 0;
        let i = match self.open_index(sem) {
            Some(i) => i,
            None => {
                *errno = EINVAL;
                return Some(-1);
            },
        };
        let ghost objs = self.objects@;
        let ghost f = |x: SemaphoreHostObject| x.view_sem();
        if self.objects[i].value > 0 {
            self.objects[i].value = self.objects[i].value - 1;
            proof {
                assert(self.objects@.map_values(f) =~= objs.map_values(f).update(
                    i as int,
                    SemView { value: (objs[i as int].value - 1) as i32, ..objs[i as int].view_sem() },
                ));
            }
            Some(0)
        } else {
            self.objects[i].waiting.push(thread);
            proof {
                assert(self.objects@.map_values(f) =~= objs.map_values(f).update(
                    i as int,
                    SemView { waiting: objs[i as int].waiting@.push(thread), ..objs[i as int].view_sem() },
                ));
            }
            None
        }
    }

    /// `sem_getvalue`: the units available, or minus the number of waiting
    /// threads where there are none; `None` (for -1 with `EINVAL`) where
    /// no semaphore is open at `sem`.
    pub fn sem_getvalue(&self, sem: u32) -> (r: Option<i32>)
        requires
            self.wf(),
        ensures
            !self.open().contains_key(sem) ==> r is None,
            self.open().contains_key(sem) ==> {
                let o = self.objects()[self.open()[sem] as int];
                let n = o.waiting.len() as i32;
                r == Some(
                    if o.value > 0 {
                        o.value
                    } else if n == i32::MIN {
                        n
                    } else {
                        (-n) as i32
                    },
                )
            },
    {
        let i = match self.open_index(sem) {
            Some(i) => i,
            None => {
                return None;
            },
        };
        let o = &self.objects[i];
        if o.value > 0 {
            Some(o.value)
        } else {
            let n = o.waiting.len() as i32;
            if n == i32::MIN {
                Some(n)
            } else {
                Some(-n)
            }
        }
    }

    /// `sem_close`: closes the named semaphore at `sem`, freeing its guest
    /// `sem_t` (a later `sem_open` of the name gets a fresh one). Returns
    /// 0, or -1 with `EINVAL` where no semaphore is open at `sem` or it is
    /// unnamed (an unnamed one stays open).
    pub fn sem_close(&mut self, mem: &mut Mem, errno: &mut i32, sem: u32) -> (r: i32)
        requires
            old(self).wf(),
            old(mem).wf(),
        ensures
            final(self).wf(),
            final(mem).wf(),
            final(self).names() == old(self).names(),
            !(old(self).open().contains_key(sem) && old(self).objects()[old(self).open()[sem] as int].named)
                ==> r == -1 && *final(errno) == EINVAL && final(self).objects() == old(self).objects()
                && final(self).open() == old(self).open() && final(mem)@ == old(mem)@,
            old(self).open().contains_key(sem) && old(self).objects()[old(self).open()[sem] as int].named ==> {
                let i = old(self).open()[sem] as int;
                let o = old(self).objects()[i];
                &&& r == 0 && *final(errno) == 0
                &&& final(self).open() == old(self).open().remove(sem)
                &&& final(self).objects() == old(self).objects().update(i, SemView { guest_sem: None, ..o })
                &&& match o.guest_sem {
                    Some(g) => final(mem)@ == (MemView { live: old(mem)@.live.remove(g), ..old(mem)@ }),
                    None => final(mem)@ == old(mem)@,
                }
            },
    {
        *errno = 0;
        let i = match self.open_index(sem) {
            Some(i) => i,
            None => {
                *errno = EINVAL;
                return -1;
            },
        };
        if !self.objects[i].named {
            *errno = EINVAL;
            return -1;
        }
        self.open_semaphores.remove(&sem);
        if let Some(guest_sem) = self.objects[i].guest_sem {
            mem.free(guest_sem);
        }
        let ghost objs = self.objects@;
        self.objects[i].guest_sem = None;
        proof {
            let f = |x: SemaphoreHostObject| x.view_sem();
            assert(self.objects@.map_values(f) =~= objs.map_values(f).update(
                i as int,
                SemView { guest_sem: None, ..objs[i as int].view_sem() },
            ));
        }
        0
    }

    /// `sem_unlink`: removes the name `name` (the semaphore stays open where
    /// it is open). Returns 0.
    pub fn sem_unlink(&mut self, errno: &mut i32, name: &[u8]) -> (r: i32)
        requires
            old(self).wf(),
        ensures
            final(self).wf(),
            r == 0,
            *final(errno) == 0,
            final(self).names() == without_name(old(self).names(), name@),
            final(self).objects() == old(self).objects(),
            final(self).open() == old(self).open(),
    {
        *errno = 0;
        let ghost all = self.names();
        let mut kept: Vec<(Vec<u8>, usize)> = Vec::new();
        let mut k: usize = 0;
        while k < self.named_semaphores.len()
            invariant
                self.wf(),
                all == self.names(),
                all.len() == self.named_semaphores@.len(),
                0 <= k <= all.len(),
                kept@.map_values(|e: (Vec<u8>, usize)| name_entry(e)) == without_name(
                    all.subrange(0, k as int),
                    name@,
                ),
                forall|j: int| 0 <= j < kept@.len() ==> (#[trigger] kept@[j]).1 < self.objects@.len(),
            decreases self.named_semaphores.len() - k,
        {
            let entry_name = slice_to_vec(self.named_semaphores[k].0.as_slice());
            let index = self.named_semaphores[k].1;
            proof {
                assert(all[k as int] == name_entry(self.named_semaphores@[k as int]));
                let pre = all.subrange(0, k as int);
                assert(all.subrange(0, k + 1).drop_last() =~= pre);
                reveal(Seq::filter);
            }
            let ghost before = kept@;
            if !bytes_equal(entry_name.as_slice(), name) {
                kept.push((entry_name, index));
                proof {
                    let f = |e: (Vec<u8>, usize)| name_entry(e);
                    assert(kept@.map_values(f) =~= before.map_values(f).push(all[k as int]));
                }
            }
            k = k + 1;
        }
        assert(all.subrange(0, all.len() as int) =~= all);
        self.named_semaphores = kept;
        0
    }

    /// Shortcut for host code to make an unnamed semaphore with `value`
    /// units in fresh guest memory. Destroy it with
    /// [State::host_destroy_semaphore], not `sem_destroy`.
    pub fn host_create_semaphore(&mut self, mem: &mut Mem, value: u32) -> (r: Result<u32, &'static str>)
        requires
            old(self).wf(),
            old(mem).wf(),
        ensures
            final(self).wf(),
            final(mem).wf(),
            final(self).names() == old(self).names(),
            sem_alloc_outcome(old(mem)@, final(mem)@, r),
            r is Err ==> final(mem)@ == old(mem)@ && final(self).objects() == old(self).objects()
                && final(self).open() == old(self).open(),
            r matches Ok(sem) ==> {
                &&& !old(self).open().contains_key(sem) ==> {
                    &&& final(self).objects() == old(self).objects().push(
                        SemView {
                            value: value as i32,
                            waiting: Seq::empty(),
                            guest_sem: Some(sem),
                            named: false,
                        },
                    )
                    &&& final(self).open() == old(self).open().insert(
                        sem,
                        old(self).objects().len() as usize,
                    )
                }
                &&& old(self).open().contains_key(sem) ==> final(self).objects() == old(self).objects()
                    && final(self).open() == old(self).open()
            },
    {
        let sem = alloc_sem(mem)?;
        let mut errno: i32 = 0;
        self.sem_init(&mut errno, sem, 0, value);
        Ok(sem)
    }

    /// Destroys a semaphore made by [State::host_create_semaphore] and
    /// frees its guest memory.
    pub fn host_destroy_semaphore(&mut self, mem: &mut Mem, sem: u32)
        requires
            old(self).wf(),
            old(mem).wf(),
            !(old(self).open().contains_key(sem) && old(self).objects()[old(self).open()[sem] as int].named),
        ensures
            final(self).wf(),
            final(mem).wf(),
            final(self).open() == old(self).open().remove(sem),
            final(self).objects() == old(self).objects(),
            final(self).names() == old(self).names(),
            final(mem)@ == (MemView { live: old(mem)@.live.remove(sem), ..old(mem)@ }),
    {
        self.sem_destroy(sem);
        mem.free(sem);
    }
}

/// What giving object `index` a fresh guest `sem_t` leaves behind and
/// returns: where the allocation succeeds, the object records the address
/// and is open there; otherwise nothing changes.
pub open spec fn opened_at(
    objects: Seq<SemView>,
    open: Map<u32, usize>,
    mem: MemView,
    index: int,
    new_objects: Seq<SemView>,
    new_open: Map<u32, usize>,
    new_mem: MemView,
    r: Result<u32, &str>,
) -> bool {
    &&& sem_alloc_outcome(mem, new_mem, r)
    &&& r matches Ok(sem) ==> new_objects == objects.update(
        index,
        SemView { guest_sem: Some(sem), ..objects[index] },
    ) && new_open == open.insert(sem, index as usize)
    &&& r is Err ==> new_objects == objects && new_open == open
}

/// What allocating a guest `sem_t` does: where the heap has room for it
/// below 4 GiB, a zeroed block at the heap's end is returned; otherwise
/// nothing changes and the allocation fails.
pub open spec fn sem_alloc_outcome(mem: MemView, new_mem: MemView, r: Result<u32, &str>) -> bool {
    match alloc_place(mem, SEM_T_SIZE as int) {
        None => r is Err && new_mem == mem,
        Some(p) => r == Ok::<u32, &str>(p) && new_mem == after_alloc(mem, SEM_T_SIZE as int),
    }
}

/// Allocates a guest `sem_t`.
fn alloc_sem(mem: &mut Mem) -> (r: Result<u32, &'static str>)
    requires
        old(mem).wf(),
    ensures
        final(mem).wf(),
        sem_alloc_outcome(old(mem)@, final(mem)@, r),
{
    let p = mem.alloc_zeroed(SEM_T_SIZE);
    if p == 0 {
        Err("guest memory is exhausted")
    } else {
        Ok(p)
    }
}

/// A copy of `s` as a vector.
fn slice_to_vec(s: &[u8]) -> (r: Vec<u8>)
    ensures
        r@ == s@,
{
    let mut v: Vec<u8> = Vec::new();
    let mut i: usize = 0;
    while i < s.len()
        invariant
            0 <= i <= s.len(),
            v@ == s@.subrange(0, i as int),
        decreases s.len() - i,
    {
        v.push(s[i]);
        i = i + 1;
        assert(v@ =~= s@.subrange(0, i as int));
    }
    assert(s@.subrange(0, s.len() as int) =~= s@);
    v
}

} // verus!

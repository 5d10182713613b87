//! `sys/resource.h`: the process resource limits, in Darwin's order.
use crate::libc::errno::{EFAULT, EINVAL};
use crate::mem64::{access_refusal, bytes_at, write_outcome, Mem64};
use vstd::bytes::{spec_u64_from_le_bytes, spec_u64_to_le_bytes, u64_from_le_bytes, u64_to_le_bytes};
use vstd::prelude::*;

verus! {

/// A soft and a hard limit.
#[allow(non_camel_case_types)]
#[derive(Clone, Copy, Debug)]
pub struct rlimit {
    pub rlim_cur: u64,
    pub rlim_max: u64,
}

impl Default for rlimit {
    fn default() -> (r: Self)
        ensures
            r.rlim_cur == 0 && r.rlim_max == 0,
    {
        rlimit { rlim_cur: 0, rlim_max: 0 }
    }
}

/// No limit.
pub const RLIM_INFINITY: u64 = 0x7fff_ffff_ffff_ffff;
/// How many limits there are.
pub const RLIM_NLIMITS: i32 = 9;
/// One mebibyte.
pub const MB: u64 = 1024 * 1024;
/// Size of `rlimit` in guest memory.
pub const RLIMIT_SIZE: u64 = 16;

/// The limit a process starts with in each slot (CPU, file size, data,
/// stack, core, address space, locked memory, processes, open files).
pub open spec fn default_limit(i: int) -> rlimit {
    if i == 3 {
        rlimit { rlim_cur: 0x80_0000, rlim_max: 0x400_0000 }
    } else if i == 4 {
        rlimit { rlim_cur: 0, rlim_max: RLIM_INFINITY }
    } else if i == 7 {
        rlimit { rlim_cur: 256, rlim_max: 256 }
    } else if i == 8 {
        rlimit { rlim_cur: 256, rlim_max: 10_240 }
    } else {
        rlimit { rlim_cur: RLIM_INFINITY, rlim_max: RLIM_INFINITY }
    }
}

/// The limits a process starts with.
pub fn default_limits() -> (r: [rlimit; 9])
    ensures
        forall|i: int| 0 <= i < 9 ==> #[trigger] r@[i] == default_limit(i),
{
    let infinite = rlimit { rlim_cur: RLIM_INFINITY, rlim_max: RLIM_INFINITY };
    [
        infinite,
        infinite,
        infinite,
        rlimit { rlim_cur: 8 * MB, rlim_max: 64 * MB },
        rlimit { rlim_cur: 0, rlim_max: RLIM_INFINITY },
        infinite,
        infinite,
        rlimit { rlim_cur: 256, rlim_max: 256 },
        rlimit { rlim_cur: 256, rlim_max: 10_240 },
    ]
}

/// The resource limits of the process.
pub struct State {
    limits: Vec<rlimit>,
}

/// The guest-memory form of a limit: the soft then the hard limit, each a
/// little-endian `u64`.
pub open spec fn rlimit_bytes(l: rlimit) -> Seq<u8> {
    spec_u64_to_le_bytes(l.rlim_cur) + spec_u64_to_le_bytes(l.rlim_max)
}

impl State {
    /// The limits, slot by slot.
    pub closed spec fn limits(&self) -> Seq<rlimit> {
        self.limits@
    }

    /// Holds one limit per slot.
    pub closed spec fn wf(&self) -> bool {
        self.limits@.len() == 9
    }

    /// The limits a process starts with.
    pub fn new() -> (r: Self)
        ensures
            r.wf(),
            r.limits() == Seq::new(9, |i: int| default_limit(i)),
    {
        let d = default_limits();
        let mut limits: Vec<rlimit> = Vec::new();
        let mut i: usize = 0;
        while i < 9
            invariant
                0 <= i <= 9,
                forall|k: int| 0 <= k < 9 ==> #[trigger] d@[k] == default_limit(k),
                limits@ == Seq::new(i as nat, |k: int| default_limit(k)),
            decreases 9 - i,
        {
            limits.push(d[i]);
            i = i + 1;
            assert(limits@ =~= Seq::new(i as nat, |k: int| default_limit(k)));
        }
        State { limits }
    }

    /// `getrlimit`: copies limit `which` to the guest `rlimit` at `limit`.
    /// Returns the result and the `errno` it sets: `EINVAL` for an unknown
    /// slot, `EFAULT` for a null or unwritable pointer.
    pub fn getrlimit(&self, mem: &mut Mem64, which: i32, limit: u64) -> (r: (i32, i32))
        requires
            self.wf(),
            old(mem).wf(),
        ensures
            final(mem).wf(),
            !(0 <= which < RLIM_NLIMITS) ==> r == (-1i32, EINVAL) && final(mem)@ == old(mem)@,
            0 <= which < RLIM_NLIMITS && (limit == 0 || access_refusal(
                old(mem)@.regions,
                limit as int,
                RLIMIT_SIZE as int,
                2,
                "64-bit memory write protection fault"@,
            ) is Some) ==> r == (-1i32, EFAULT) && final(mem)@ == old(mem)@,
            0 <= which < RLIM_NLIMITS && limit != 0 && access_refusal(
                old(mem)@.regions,
                limit as int,
                RLIMIT_SIZE as int,
                2,
                "64-bit memory write protection fault"@,
            ) is None ==> r == (0i32, 0i32) && write_outcome(
                old(mem)@,
                final(mem)@,
                limit as int,
                rlimit_bytes(self.limits()[which as int]),
                2,
                "64-bit memory write protection fault"@,
                "64-bit memory write is out of bounds"@,
                Ok(()),
            ),
    {
        if which < 0 || which >= RLIM_NLIMITS {
            return (-1, EINVAL);
        }
        if limit == 0 {
            return (-1, EFAULT);
        }
        if mem.can_write(limit, RLIMIT_SIZE).is_err() {
            return (-1, EFAULT);
        }
        let value = self.limits[which as usize];
        let mut bytes = u64_to_le_bytes(value.rlim_cur);
        let mut high = u64_to_le_bytes(value.rlim_max);
        bytes.append(&mut high);
        proof {
            mem.lemma_allowed_access_in_range(
                limit as int,
                16,
                2,
                "64-bit memory write protection fault"@,
            );
        }
        let _ = mem.write_bytes(limit, bytes.as_slice());
        (0, 0)
    }

    /// `setrlimit`: replaces limit `which` with the guest `rlimit` at
    /// `limit`. Returns the result and the `errno` it sets: `EINVAL` for an
    /// unknown slot or a soft limit above the hard one, `EFAULT` for a null
    /// or unreadable pointer.
    pub fn setrlimit(&mut self, mem: &Mem64, which: i32, limit: u64) -> (r: (i32, i32))
        requires
            old(self).wf(),
            mem.wf(),
        ensures
            final(self).wf(),
            !(0 <= which < RLIM_NLIMITS) ==> r == (-1i32, EINVAL) && final(self).limits() == old(self).limits(),
            0 <= which < RLIM_NLIMITS && (limit == 0 || access_refusal(
                mem@.regions,
                limit as int,
                RLIMIT_SIZE as int,
                1,
                "64-bit memory read protection fault"@,
            ) is Some) ==> r == (-1i32, EFAULT) && final(self).limits() == old(self).limits(),
            0 <= which < RLIM_NLIMITS && limit != 0 && access_refusal(
                mem@.regions,
                limit as int,
                RLIMIT_SIZE as int,
                1,
                "64-bit memory read protection fault"@,
            ) is None ==> {
                let soft = spec_u64_from_le_bytes(bytes_at(mem@.regions, limit as int, 8));
                let hard = spec_u64_from_le_bytes(bytes_at(mem@.regions, limit + 8, 8));
                if soft > hard {
                    r == (-1i32, EINVAL) && final(self).limits() == old(self).limits()
                } else {
                    r == (0i32, 0i32) && final(self).limits() == old(self).limits().update(
                        which as int,
                        rlimit { rlim_cur: soft, rlim_max: hard },
                    )
                }
            },
    {
        if which < 0 || which >= RLIM_NLIMITS {
            return (-1, EINVAL);
        }
        if limit == 0 {
            return (-1, EFAULT);
        }
        let bytes = match mem.host_slice(limit, RLIMIT_SIZE) {
            Ok(b) => b,
            Err(_) => {
                return (-1, EFAULT);
            },
        };
        let soft = u64_from_le_bytes(vstd::slice::slice_subrange(bytes, 0, 8));
        let hard = u64_from_le_bytes(vstd::slice::slice_subrange(bytes, 8, 16));
        proof {
            let all = bytes_at(mem@.regions, limit as int, 16);
            assert(all.subrange(0, 8) =~= bytes_at(mem@.regions, limit as int, 8));
            assert(all.subrange(8, 16) =~= bytes_at(mem@.regions, limit + 8, 8));
        }
        if soft > hard {
            return (-1, EINVAL);
        }
        self.limits.set(which as usize, rlimit { rlim_cur: soft, rlim_max: hard });
        (0, 0)
    }
}

impl Default for State {
    fn default() -> (r: Self)
        ensures
            r.wf(),
            r.limits() == Seq::new(9, |i: int| default_limit(i)),
    {
        State::new()
    }
}

} // verus!

//! The 64-bit guest address space: a set of disjoint, byte-addressed
//! mappings, each with its own access rights, plus a bump allocator that
//! places new blocks in the first gap that fits.
use vstd::prelude::*;
use vstd::bytes::*;

verus! {

pub type Guest64USize = u64;

pub type Guest64Addr = u64;

/// The largest block `alloc_zeroed` hands out (512 MiB).
pub const MAX_GUEST_ALLOCATION: u64 = 0x2000_0000;

/// Where the allocator starts looking for free space.
pub const FIRST_ALLOCATION: u64 = 0x1_0000_0000;

/// A set of access rights for one mapping: a bit set over read (1),
/// write (2) and execute (4).
#[derive(Debug, Clone, Copy, PartialEq, Eq, Structural)]
pub struct Permissions(pub u8);

impl Permissions {
    /// The raw bit set.
    pub open spec fn bits(self) -> u8 {
        self.0
    }

    /// Whether every right of `required` is also a right of `self`.
    pub open spec fn allows(self, required: Permissions) -> bool {
        self.bits() & required.bits() == required.bits()
    }

    pub fn none() -> (r: Self)
        ensures
            r.bits() == 0,
    {
        Permissions(0)
    }

    pub fn read() -> (r: Self)
        ensures
            r.bits() == 1,
    {
        Permissions(1)
    }

    pub fn write() -> (r: Self)
        ensures
            r.bits() == 2,
    {
        Permissions(2)
    }

    pub fn execute() -> (r: Self)
        ensures
            r.bits() == 4,
    {
        Permissions(4)
    }

    /// Whether every right of `required` is also a right of `self`.
    pub fn contains(self, required: Self) -> (r: bool)
        ensures
            r == self.allows(required),
    {
        self.0 & required.0 == required.0
    }

    /// The rights of a Mach-O segment: bit 0 of `initprot` gives read,
    /// bit 1 write and bit 2 execute; `maxprot` plays no part.
    pub fn from_mach_protection(initprot: i32, _maxprot: i32) -> (r: Self)
        ensures
            r.bits() == (if initprot & 1 != 0 { 1u8 } else { 0u8 }) | (if initprot & 2 != 0 {
                2u8
            } else {
                0u8
            }) | (if initprot & 4 != 0 { 4u8 } else { 0u8 }),
    {
        let read: u8 = if initprot & 1 != 0 { 1 } else { 0 };
        let write: u8 = if initprot & 2 != 0 { 2 } else { 0 };
        let execute: u8 = if initprot & 4 != 0 { 4 } else { 0 };
        Permissions(read | write | execute)
    }

    pub fn read_write() -> (r: Self)
        ensures
            r.bits() == 3,
    {
        Permissions(3)
    }

    pub fn read_execute() -> (r: Self)
        ensures
            r.bits() == 5,
    {
        Permissions(5)
    }

    pub fn read_write_execute() -> (r: Self)
        ensures
            r.bits() == 7,
    {
        Permissions(7)
    }
}

/// The kind of access that a memory operation makes.
#[derive(Debug, Clone, Copy, PartialEq, Eq, Structural)]
pub enum AccessType {
    Read,
    Write,
    Execute,
}

/// The right that an access of kind `access` needs.
pub open spec fn access_bits(access: AccessType) -> u8 {
    match access {
        AccessType::Read => 1,
        AccessType::Write => 2,
        AccessType::Execute => 4,
    }
}

impl AccessType {
    fn permission(self) -> (r: Permissions)
        ensures
            r.bits() == access_bits(self),
    {
        match self {
            AccessType::Read => Permissions::read(),
            AccessType::Write => Permissions::write(),
            AccessType::Execute => Permissions::execute(),
        }
    }
}

/// A mapping as callers see it.
#[derive(Debug, Clone, Copy, PartialEq, Eq, Structural)]
pub struct Region {
    pub base: Guest64Addr,
    pub size: Guest64USize,
    pub permissions: Permissions,
}

/// One mapping's contents as the contracts speak of them.
pub ghost struct RegionView {
    pub base: u64,
    pub bytes: Seq<u8>,
    pub permissions: Permissions,
}

/// The whole address space as the contracts speak of it: the mappings in
/// increasing order of base address, the emulator's own allocations
/// (base to size), and the address where the allocator looks next.
pub ghost struct Mem64View {
    pub regions: Seq<RegionView>,
    pub allocations: Map<u64, u64>,
    pub next_allocation: u64,
}

struct Mapping {
    base: u64,
    bytes: Vec<u8>,
    permissions: Permissions,
}

impl Mapping {
    spec fn view(&self) -> RegionView {
        RegionView { base: self.base, bytes: self.bytes@, permissions: self.permissions }
    }
}

/// A 64-bit guest address space.
pub struct Mem64 {
    regions: Vec<Mapping>,
    allocations: Vec<(u64, u64)>,
    next_allocation: u64,
}

/// One past the last address of `r`.
pub open spec fn region_end(r: RegionView) -> int {
    r.base + r.bytes.len()
}

/// Whether `rs` lists non-empty mappings in increasing order of address,
/// each ending inside the 64-bit space and none overlapping the next.
pub open spec fn regions_wf(rs: Seq<RegionView>) -> bool {
    &&& forall|i: int| 0 <= i < rs.len() ==> #[trigger] rs[i].bytes.len() > 0
    &&& forall|i: int| 0 <= i < rs.len() ==> region_end(#[trigger] rs[i]) <= u64::MAX
    &&& forall|i: int, j: int|
        0 <= i < j < rs.len() ==> region_end(#[trigger] rs[i]) <= (#[trigger] rs[j]).base
}

/// The index of the last mapping whose base is at most `a`, or -1.
pub open spec fn floor_index(rs: Seq<RegionView>, a: int) -> int
    decreases rs.len(),
{
    if rs.len() == 0 {
        -1
    } else if rs.last().base <= a {
        rs.len() - 1
    } else {
        floor_index(rs.drop_last(), a)
    }
}

/// Whether the byte at `a` lies inside a mapping that grants `p`.
pub open spec fn addr_ok(rs: Seq<RegionView>, a: int, p: u8) -> bool {
    let f = floor_index(rs, a);
    &&& f >= 0
    &&& a < region_end(rs[f])
    &&& rs[f].permissions.bits() & p == p
}

/// Whether the `n` bytes from `base` on all lie in mappings that grant `p`.
pub open spec fn range_ok(rs: Seq<RegionView>, base: int, n: int, p: u8) -> bool {
    forall|k: int| 0 <= k < n ==> #[trigger] addr_ok(rs, base + k, p)
}

/// The byte stored at a mapped address.
pub open spec fn byte_at(rs: Seq<RegionView>, a: int) -> u8 {
    let f = floor_index(rs, a);
    rs[f].bytes[a - rs[f].base]
}

/// The `n` bytes stored from `base` on.
pub open spec fn bytes_at(rs: Seq<RegionView>, base: int, n: int) -> Seq<u8> {
    Seq::new(n as nat, |k: int| byte_at(rs, base + k))
}

/// The message of a protection fault for an access of kind `access`.
pub open spec fn protection_message(access: AccessType) -> Seq<char> {
    match access {
        AccessType::Read => "64-bit memory read protection fault"@,
        AccessType::Write => "64-bit memory write protection fault"@,
        AccessType::Execute => "64-bit memory execute protection fault"@,
    }
}

/// `rs` with the bytes at `base..base + n` replaced by `data[..n]`.
pub open spec fn write_spec(rs: Seq<RegionView>, base: int, data: Seq<u8>, n: int) -> Seq<
    RegionView,
> {
    Seq::new(
        rs.len(),
        |i: int|
            RegionView {
                base: rs[i].base,
                permissions: rs[i].permissions,
                bytes: Seq::new(
                    rs[i].bytes.len(),
                    |j: int|
                        if base <= rs[i].base + j < base + n {
                            data[rs[i].base + j - base]
                        } else {
                            rs[i].bytes[j]
                        },
                ),
            },
    )
}

/// The message of an access that fails at the bad address `a`: `access_message`
/// names a protection fault and `oob_message` an access past the end of a
/// mapping.
pub open spec fn fault_message(
    rs: Seq<RegionView>,
    a: int,
    p: u8,
    access_message: Seq<char>,
    oob_message: Seq<char>,
) -> Seq<char> {
    let f = floor_index(rs, a);
    if f < 0 {
        "64-bit memory is unmapped"@
    } else if rs[f].permissions.bits() & p != p {
        access_message
    } else if a - rs[f].base > usize::MAX {
        "64-bit memory offset overflows host usize"@
    } else {
        oob_message
    }
}

/// The floor index is the last mapping at or below `a`.
pub proof fn lemma_floor_is(rs: Seq<RegionView>, a: int, i: int)
    requires
        -1 <= i < rs.len(),
        i >= 0 ==> rs[i].base <= a,
        forall|j: int| i < j < rs.len() ==> #[trigger] rs[j].base > a,
    ensures
        floor_index(rs, a) == i,
    decreases rs.len(),
{
    if rs.len() > 0 && rs.last().base > a {
        assert(i < rs.len() - 1);
        lemma_floor_is(rs.drop_last(), a, i);
    }
}

/// The floor index is -1 or a mapping at or below `a` with every later
/// mapping above `a`.
pub proof fn lemma_floor_props(rs: Seq<RegionView>, a: int)
    ensures
        -1 <= floor_index(rs, a) < rs.len(),
        floor_index(rs, a) >= 0 ==> rs[floor_index(rs, a)].base <= a,
        forall|j: int| floor_index(rs, a) < j < rs.len() ==> #[trigger] rs[j].base > a,
    decreases rs.len(),
{
    if rs.len() > 0 && rs.last().base > a {
        lemma_floor_props(rs.drop_last(), a);
        let d = rs.drop_last();
        assert forall|j: int| floor_index(rs, a) < j < rs.len() implies #[trigger] rs[j].base > a by {
            if j < rs.len() - 1 {
                assert(d[j] == rs[j]);
            }
        }
    }
}

/// The floor index depends only on the base addresses.
pub proof fn lemma_floor_same_bases(r1: Seq<RegionView>, r2: Seq<RegionView>, a: int)
    requires
        r1.len() == r2.len(),
        forall|i: int| 0 <= i < r1.len() ==> #[trigger] r1[i].base == r2[i].base,
    ensures
        floor_index(r1, a) == floor_index(r2, a),
    decreases r1.len(),
{
    if r1.len() > 0 {
        assert(r1.last().base == r2.last().base);
        let d1 = r1.drop_last();
        let d2 = r2.drop_last();
        assert forall|i: int| 0 <= i < d1.len() implies #[trigger] d1[i].base == d2[i].base by {
            assert(r1[i].base == r2[i].base);
        }
        lemma_floor_same_bases(d1, d2, a);
    }
}

/// An address inside mapping `f` has `f` as its floor.
pub proof fn lemma_floor_within(rs: Seq<RegionView>, f: int, a: int)
    requires
        regions_wf(rs),
        0 <= f < rs.len(),
        rs[f].base <= a < region_end(rs[f]),
    ensures
        floor_index(rs, a) == f,
        addr_ok(rs, a, 0),
{
    assert forall|j: int| f < j < rs.len() implies #[trigger] rs[j].base > a by {
        assert(region_end(rs[f]) <= rs[j].base);
    }
    lemma_floor_is(rs, a, f);
    assert(rs[f].permissions.bits() & 0 == 0) by (bit_vector);
}

/// An access of `n` bytes from `base` that has checked `k` of them and
/// finds the next one bad does not succeed, and `k` is its first bad offset.
pub proof fn lemma_first_fault(rs: Seq<RegionView>, base: int, k: int, n: int, p: u8)
    requires
        0 <= k < n,
        range_ok(rs, base, k, p),
        !addr_ok(rs, base + k, p),
    ensures
        !range_ok(rs, base, n, p),
{
    assert(!addr_ok(rs, base + k, p));
}

/// Writing a prefix never moves or resizes a mapping.
pub proof fn lemma_write_spec_wf(rs: Seq<RegionView>, base: int, data: Seq<u8>, n: int)
    requires
        regions_wf(rs),
    ensures
        regions_wf(write_spec(rs, base, data, n)),
        write_spec(rs, base, data, n).len() == rs.len(),
        forall|i: int|
            0 <= i < rs.len() ==> (#[trigger] write_spec(rs, base, data, n)[i]).base == rs[i].base
                && write_spec(rs, base, data, n)[i].permissions == rs[i].permissions
                && write_spec(rs, base, data, n)[i].bytes.len() == rs[i].bytes.len(),
{
    let w = write_spec(rs, base, data, n);
    assert forall|i: int, j: int| 0 <= i < j < w.len() implies region_end(#[trigger] w[i]) <= (
    #[trigger] w[j]).base by {
        assert(region_end(rs[i]) <= rs[j].base);
    }
}

/// Writing nothing changes nothing.
pub proof fn lemma_write_spec_empty(rs: Seq<RegionView>, base: int, data: Seq<u8>)
    ensures
        write_spec(rs, base, data, 0) =~~= rs,
{
    let w = write_spec(rs, base, data, 0);
    assert forall|i: int| 0 <= i < rs.len() implies #[trigger] w[i] =~~= rs[i] by {
        assert(w[i].bytes =~= rs[i].bytes);
    }
}

/// Writing one byte more extends the written prefix by the byte at the next
/// address, which lies in mapping `f` at offset `off`.
pub proof fn lemma_write_spec_step(
    rs: Seq<RegionView>,
    base: int,
    data: Seq<u8>,
    n: int,
    f: int,
    off: int,
)
    requires
        regions_wf(rs),
        0 <= f < rs.len(),
        0 <= off < rs[f].bytes.len(),
        base + n == rs[f].base + off,
        0 <= n < data.len(),
    ensures
        write_spec(rs, base, data, n + 1) =~~= write_spec(rs, base, data, n).update(
            f,
            RegionView {
                base: rs[f].base,
                permissions: rs[f].permissions,
                bytes: write_spec(rs, base, data, n)[f].bytes.update(off, data[n]),
            },
        ),
{
    let w0 = write_spec(rs, base, data, n);
    let w1 = write_spec(rs, base, data, n + 1);
    let u = w0.update(
        f,
        RegionView {
            base: rs[f].base,
            permissions: rs[f].permissions,
            bytes: w0[f].bytes.update(off, data[n]),
        },
    );
    assert forall|i: int| 0 <= i < rs.len() implies #[trigger] w1[i] =~~= u[i] by {
        if i == f {
            assert(w1[i].bytes =~= u[i].bytes);
        } else {
            if i < f {
                assert(region_end(rs[i]) <= rs[f].base);
            } else {
                assert(region_end(rs[f]) <= rs[i].base);
            }
            assert(w1[i].bytes =~= u[i].bytes);
        }
    }
}

/// What a write of `data` from `base` on, into mappings that grant `p`,
/// leaves behind and returns: everything up to the first bad address is
/// written, and the write fails there with the message of that fault.
pub open spec fn write_outcome(
    old: Mem64View,
    new: Mem64View,
    base: int,
    data: Seq<u8>,
    p: u8,
    access_message: Seq<char>,
    oob_message: Seq<char>,
    r: Result<(), &str>,
) -> bool {
    &&& new.allocations == old.allocations
    &&& new.next_allocation == old.next_allocation
    &&& (r is Ok <==> range_ok(old.regions, base, data.len() as int, p))
    &&& (r is Ok ==> new.regions == write_spec(old.regions, base, data, data.len() as int))
    &&& (r matches Err(e) ==> exists|k: int|
        0 <= k < data.len() && range_ok(old.regions, base, k, p) && !addr_ok(
            old.regions,
            base + k,
            p,
        ) && e@ == fault_message(old.regions, base + k, p, access_message, oob_message)
            && new.regions == write_spec(old.regions, base, data, k))
}

/// Whether `e` is the message of a read of `n` bytes from `base` on, with
/// the right `p`, that fails at its first bad address.
pub open spec fn read_fault(
    rs: Seq<RegionView>,
    base: int,
    n: int,
    p: u8,
    access_message: Seq<char>,
    e: Seq<char>,
) -> bool {
    exists|k: int|
        0 <= k < n && range_ok(rs, base, k, p) && !addr_ok(rs, base + k, p) && e == fault_message(
            rs,
            base + k,
            p,
            access_message,
            "64-bit memory read is out of bounds"@,
        )
}

/// The bytes `s[start..end]`.
fn slice_range(s: &[u8], start: usize, end: usize) -> (r: &[u8])
    requires
        start <= end <= s@.len(),
    ensures
        r@ == s@.subrange(start as int, end as int),
{
    vstd::slice::slice_subrange(s, start, end)
}

/// Whether some mapping shares an address with `base..base + size`.
pub open spec fn overlaps(rs: Seq<RegionView>, base: int, size: int) -> bool {
    exists|i: int| 0 <= i < rs.len() && #[trigger] rs[i].base < base + size && base < region_end(rs[i])
}

/// `size` zero bytes.
pub open spec fn zeros(size: int) -> Seq<u8> {
    Seq::new(size as nat, |i: int| 0u8)
}

/// What a request to map `size` zero bytes at `base` with rights `p`
/// leaves behind and returns.
pub open spec fn map_outcome(
    old: Mem64View,
    new: Mem64View,
    base: u64,
    size: u64,
    p: Permissions,
    r: Result<(), &str>,
) -> bool {
    &&& new.allocations == old.allocations
    &&& new.next_allocation == old.next_allocation
    &&& if size > usize::MAX {
        r matches Err(e) && e@ == "64-bit mapping is too large for this host"@ && new == old
    } else if base + size > u64::MAX {
        r matches Err(e) && e@ == "64-bit mapping overflows"@ && new == old
    } else if size == 0 {
        r is Ok && new == old
    } else if overlaps(old.regions, base as int, size as int) {
        r matches Err(e) && e@ == "64-bit mapping overlaps an existing mapping"@ && new == old
    } else {
        r is Ok && new.regions == old.regions.insert(
            floor_index(old.regions, base as int) + 1,
            RegionView { base, bytes: zeros(size as int), permissions: p },
        )
    }
}

/// The slot where a mapping that overlaps nothing goes keeps the order.
pub proof fn lemma_insert_wf(rs: Seq<RegionView>, r: RegionView)
    requires
        regions_wf(rs),
        r.bytes.len() > 0,
        region_end(r) <= u64::MAX,
        !overlaps(rs, r.base as int, r.bytes.len() as int),
    ensures
        regions_wf(rs.insert(floor_index(rs, r.base as int) + 1, r)),
{
    let f = floor_index(rs, r.base as int);
    lemma_floor_props(rs, r.base as int);
    let n = rs.insert(f + 1, r);
    assert forall|i: int, j: int| 0 <= i < j < n.len() implies region_end(#[trigger] n[i]) <= (
    #[trigger] n[j]).base by {
        if i < f + 1 && j < f + 1 {
            assert(region_end(rs[i]) <= rs[j].base);
        } else if i < f + 1 && j == f + 1 {
            if i < f {
                assert(region_end(rs[i]) <= rs[f].base);
            }
            if region_end(rs[i]) > r.base {
                assert(rs[i].base < r.base + r.bytes.len());
            }
        } else if i < f + 1 {
            assert(region_end(rs[i]) <= rs[j - 1].base);
        } else if i == f + 1 {
            assert(rs[j - 1].base > r.base);
            if region_end(r) > rs[j - 1].base {
                assert(rs[j - 1].base < r.base + r.bytes.len());
            }
        } else {
            assert(region_end(rs[i - 1]) <= rs[j - 1].base);
        }
    }
    assert forall|i: int| 0 <= i < n.len() implies #[trigger] n[i].bytes.len() > 0 by {
        if i < f + 1 {
            assert(n[i] == rs[i]);
        } else if i == f + 1 {
            assert(n[i] == r);
        } else {
            assert(n[i] == rs[i - 1]);
        }
    }
    assert forall|i: int| 0 <= i < n.len() implies region_end(#[trigger] n[i]) <= u64::MAX by {
        if i < f + 1 {
            assert(n[i] == rs[i]);
        } else if i == f + 1 {
            assert(n[i] == r);
        } else {
            assert(n[i] == rs[i - 1]);
        }
    }
}

/// Dropping a mapping keeps the order.
pub proof fn lemma_remove_wf(rs: Seq<RegionView>, x: int)
    requires
        regions_wf(rs),
        0 <= x < rs.len(),
    ensures
        regions_wf(rs.remove(x)),
{
    let n = rs.remove(x);
    assert forall|i: int| 0 <= i < n.len() implies #[trigger] n[i].bytes.len() > 0 && region_end(
        n[i],
    ) <= u64::MAX by {
        let i2 = if i < x { i } else { i + 1 };
        assert(n[i] == rs[i2]);
    }
    assert forall|i: int| 0 <= i < n.len() implies region_end(#[trigger] n[i]) <= u64::MAX by {
        let i2 = if i < x { i } else { i + 1 };
        assert(n[i] == rs[i2]);
    }
    assert forall|i: int, j: int| 0 <= i < j < n.len() implies region_end(#[trigger] n[i]) <= (
    #[trigger] n[j]).base by {
        let i2 = if i < x { i } else { i + 1 };
        let j2 = if j < x { j } else { j + 1 };
        assert(n[i] == rs[i2] && n[j] == rs[j2]);
        assert(region_end(rs[i2]) <= rs[j2].base);
    }
}

/// `size` zero bytes.
fn zeroed_vec(size: usize) -> (r: Vec<u8>)
    ensures
        r@ == zeros(size as int),
{
    let mut v: Vec<u8> = Vec::with_capacity(size);
    while v.len() < size
        invariant
            v.len() <= size,
            v@ =~= zeros(v.len() as int),
        decreases size - v.len(),
    {
        v.push(0);
    }
    v
}

/// `x` rounded up to a multiple of 16.
pub open spec fn align16(x: int) -> int {
    (x + 15) / 16 * 16
}

/// The size of the block that a request for `size` bytes gets: at least 16
/// bytes, rounded up to a multiple of 16.
pub open spec fn alloc_block_size(size: int) -> int {
    align16(if size < 16 { 16 } else { size })
}

/// Where the allocator puts a block of `size` bytes when it starts looking
/// at `base`: if the block would meet the last mapping that starts below its
/// end, it tries again just past that mapping, rounded up to 16.
pub open spec fn alloc_fit(rs: Seq<RegionView>, base: int, size: int) -> Option<int>
    decreases u64::MAX - base,
{
    if base < 0 || size < 1 || base + size > u64::MAX {
        None
    } else {
        let f = floor_index(rs, base + size - 1);
        if f >= 0 && region_end(rs[f]) > base {
            let next = align16(region_end(rs[f]));
            if next > u64::MAX || next <= base {
                None
            } else {
                alloc_fit(rs, next, size)
            }
        } else {
            Some(base)
        }
    }
}

/// A place the allocator picks lies at or after where it started looking,
/// and the block ends inside the 64-bit space.
pub proof fn lemma_alloc_fit_bounds(rs: Seq<RegionView>, base: int, size: int)
    ensures
        alloc_fit(rs, base, size) matches Some(b) ==> base <= b && b + size <= u64::MAX,
    decreases u64::MAX - base,
{
    if base < 0 || size < 1 || base + size > u64::MAX {
    } else {
        let f = floor_index(rs, base + size - 1);
        if f >= 0 && region_end(rs[f]) > base {
            let next = align16(region_end(rs[f]));
            if next > u64::MAX || next <= base {
            } else {
                lemma_alloc_fit_bounds(rs, next, size);
            }
        }
    }
}

/// A place the allocator picks overlaps no mapping.
pub proof fn lemma_alloc_fit_free(rs: Seq<RegionView>, base: int, size: int)
    requires
        regions_wf(rs),
        alloc_fit(rs, base, size) is Some,
    ensures
        !overlaps(rs, alloc_fit(rs, base, size).unwrap(), size),
        alloc_fit(rs, base, size).unwrap() >= base,
        alloc_fit(rs, base, size).unwrap() + size <= u64::MAX,
    decreases u64::MAX - base,
{
    let f = floor_index(rs, base + size - 1);
    lemma_floor_props(rs, base + size - 1);
    if f >= 0 && region_end(rs[f]) > base {
        let next = align16(region_end(rs[f]));
        lemma_alloc_fit_free(rs, next, size);
    } else {
        assert forall|i: int| 0 <= i < rs.len() implies !(#[trigger] rs[i].base < base + size
            && base < region_end(rs[i])) by {
            if i < f {
                assert(region_end(rs[i]) <= rs[f].base);
            }
        }
    }
}

/// Rounding up with a mask.
pub proof fn lemma_align16(x: u64)
    requires
        x + 15 <= u64::MAX,
    ensures
        ((x + 15) as u64) & !15u64 == align16(x as int),
        align16(x as int) >= x,
        align16(x as int) % 16 == 0,
{
    let y = (x + 15) as u64;
    assert(y & !15u64 == y - y % 16) by (bit_vector);
}

/// Where the allocator puts a block for `size` bytes in `m`: from the
/// allocation cursor on (at least from the first allocation address), the
/// first place that meets no mapping.
pub open spec fn alloc_place(m: Mem64View, size: int) -> Option<int> {
    let start = if m.next_allocation < FIRST_ALLOCATION {
        FIRST_ALLOCATION as int
    } else {
        m.next_allocation as int
    };
    alloc_fit(m.regions, start, alloc_block_size(size))
}

/// What a request to allocate `size` bytes with rights `p` leaves behind
/// and returns.
pub open spec fn alloc_outcome(
    old: Mem64View,
    new: Mem64View,
    size: u64,
    p: Permissions,
    r: Result<u64, &str>,
) -> bool {
    if size > MAX_GUEST_ALLOCATION {
        r matches Err(e) && e@ == "64-bit allocation request exceeds the safety limit"@ && new
            == old
    } else {
        let block = alloc_block_size(size as int);
        let start = if old.next_allocation < FIRST_ALLOCATION {
            FIRST_ALLOCATION as int
        } else {
            old.next_allocation as int
        };
        match alloc_fit(old.regions, start, block) {
            None => r matches Err(e) && e@ == "allocation address overflows"@ && new == old,
            Some(b) => {
                &&& r == Ok::<u64, &str>(b as u64)
                &&& new.regions == old.regions.insert(
                    floor_index(old.regions, b) + 1,
                    RegionView { base: b as u64, bytes: zeros(block), permissions: p },
                )
                &&& new.allocations == old.allocations.insert(b as u64, block as u64)
                &&& new.next_allocation == b + block
            },
        }
    }
}

/// `size` copies of `value`.
pub open spec fn fill_data(value: u8, size: int) -> Seq<u8> {
    Seq::new(size as nat, |i: int| value)
}

/// Whether a fill of `size` bytes from `base` on first fails at an address
/// past the end of a writable mapping but not right at its end: there the
/// fill's length arithmetic underflows, so no such fill is done.
pub open spec fn fill_panics(rs: Seq<RegionView>, base: int, size: int) -> bool {
    exists|k: int|
        0 <= k < size && range_ok(rs, base, k, 2) && !addr_ok(rs, base + k, 2) && {
            let f = floor_index(rs, base + k);
            &&& f >= 0
            &&& rs[f].permissions.bits() & 2 == 2
            &&& base + k - rs[f].base <= usize::MAX
            &&& base + k > region_end(rs[f])
        }
}

/// Why a single-mapping access of `size` bytes at `a` with the right `p`
/// is refused, or `None` when it is allowed: the bytes must all lie in the
/// mapping at or below `a`, and that mapping must grant `p`.
pub open spec fn access_refusal(
    rs: Seq<RegionView>,
    a: int,
    size: int,
    p: u8,
    access_message: Seq<char>,
) -> Option<Seq<char>> {
    let f = floor_index(rs, a);
    if f < 0 {
        Some("64-bit memory access is unmapped"@)
    } else if a - rs[f].base + size > u64::MAX {
        Some("64-bit access overflows"@)
    } else if a - rs[f].base + size > rs[f].bytes.len() {
        Some("64-bit memory access is out of bounds"@)
    } else if rs[f].permissions.bits() & p != p {
        Some(access_message)
    } else {
        None
    }
}

/// Whether the bytes from `base` to the first zero byte within `n` bytes
/// are all readable and end inside the 64-bit space, none of them zero
/// before offset `n`.
pub open spec fn cstr_scan_ok(rs: Seq<RegionView>, base: int, n: int) -> bool {
    forall|k: int|
        0 <= k < n ==> base + k <= u64::MAX && #[trigger] addr_ok(rs, base + k, 1) && byte_at(
            rs,
            base + k,
        ) != 0
}

/// Whether `e` shares an address with `base..base + size`.
pub open spec fn region_meets(e: RegionView, base: int, size: int) -> bool {
    e.base < base + size && base < region_end(e)
}

/// `r` with its bytes zeroed.
pub open spec fn zeroed(r: RegionView) -> RegionView {
    RegionView { bytes: zeros(r.bytes.len() as int), ..r }
}

/// Overlap with a list is overlap with one of its members.
pub proof fn lemma_overlaps_set(rs: Seq<RegionView>, base: int, size: int)
    ensures
        overlaps(rs, base, size) <==> exists|e: RegionView|
            #[trigger] rs.to_set().contains(e) && region_meets(e, base, size),
{
    if overlaps(rs, base, size) {
        let i = choose|i: int|
            0 <= i < rs.len() && #[trigger] rs[i].base < base + size && base < region_end(rs[i]);
        assert(rs.to_set().contains(rs[i]));
    }
    if exists|e: RegionView| #[trigger] rs.to_set().contains(e) && region_meets(e, base, size) {
        let e = choose|e: RegionView| #[trigger] rs.to_set().contains(e) && region_meets(e, base, size);
        let i = choose|i: int| 0 <= i < rs.len() && rs[i] == e;
        assert(rs[i].base < base + size && base < region_end(rs[i]));
    }
}

/// The members of `s` with `x` appended.
pub proof fn lemma_to_set_push<A>(s: Seq<A>, x: A)
    ensures
        s.push(x).to_set() =~= s.to_set().insert(x),
{
    let t = s.push(x);
    assert forall|e: A| #[trigger] t.to_set().contains(e) <==> s.to_set().insert(x).contains(e) by {
        if t.to_set().contains(e) {
            let i = choose|i: int| 0 <= i < t.len() && t[i] == e;
            if i < s.len() {
                assert(s[i] == e);
            }
        }
        if s.to_set().contains(e) {
            let i = choose|i: int| 0 <= i < s.len() && s[i] == e;
            assert(t[i] == e);
        }
        if e == x {
            assert(t[s.len() as int] == e);
        }
    }
}

/// The members of `s` with `x` in front.
pub proof fn lemma_to_set_cons<A>(x: A, s: Seq<A>)
    ensures
        (seq![x] + s).to_set() =~= s.to_set().insert(x),
{
    let t = seq![x] + s;
    assert forall|e: A| #[trigger] t.to_set().contains(e) <==> s.to_set().insert(x).contains(e) by {
        if t.to_set().contains(e) {
            let i = choose|i: int| 0 <= i < t.len() && t[i] == e;
            if i > 0 {
                assert(s[i - 1] == e);
            }
        }
        if s.to_set().contains(e) {
            let i = choose|i: int| 0 <= i < s.len() && s[i] == e;
            assert(t[i + 1] == e);
        }
        if e == x {
            assert(t[0] == e);
        }
    }
}

/// What merging the mappings `others` of another address space (with
/// allocations `other_allocations` and cursor `other_next`) into `old`
/// leaves behind and returns. The merge maps each of them in turn; the
/// first that meets an existing mapping stops it, with the ones before it
/// mapped but still zero. Otherwise every one is mapped with its contents,
/// the other space's allocations are added (its sizes win where both have
/// a base), and the cursor is the higher of the two.
pub open spec fn merge_outcome(
    old: Mem64View,
    new: Mem64View,
    others: Seq<RegionView>,
    other_allocations: Map<u64, u64>,
    other_next: u64,
    r: Result<(), &str>,
) -> bool {
    if exists|j: int|
        0 <= j < others.len() && #[trigger] overlaps(
            old.regions,
            others[j].base as int,
            others[j].bytes.len() as int,
        ) {
        exists|j: int|
            0 <= j < others.len() && #[trigger] overlaps(
                old.regions,
                others[j].base as int,
                others[j].bytes.len() as int,
            ) && (forall|i: int|
                0 <= i < j ==> !(#[trigger] overlaps(
                    old.regions,
                    others[i].base as int,
                    others[i].bytes.len() as int,
                ))) && (r matches Err(e) && e@ == "64-bit mapping overlaps an existing mapping"@)
                && new.regions.to_set() == old.regions.to_set() + others.take(j).map_values(
                |x: RegionView| zeroed(x),
            ).to_set() && new.allocations == old.allocations && new.next_allocation
                == old.next_allocation
    } else {
        &&& r is Ok
        &&& new.regions.to_set() == old.regions.to_set() + others.to_set()
        &&& new.allocations == old.allocations.union_prefer_right(other_allocations)
        &&& new.next_allocation == if old.next_allocation < other_next {
            other_next
        } else {
            old.next_allocation
        }
    }
}

impl View for Mem64 {
    type V = Mem64View;

    closed spec fn view(&self) -> Mem64View {
        Mem64View {
            regions: self.regions@.map_values(|m: Mapping| m.view()),
            allocations: alloc_map(self.allocations@),
            next_allocation: self.next_allocation,
        }
    }
}

/// The map that a list of (base, size) pairs with distinct bases stands for.
pub open spec fn alloc_map(s: Seq<(u64, u64)>) -> Map<u64, u64> {
    Map::new(
        |k: u64| exists|i: int| 0 <= i < s.len() && #[trigger] s[i].0 == k,
        |k: u64| s[choose|i: int| 0 <= i < s.len() && #[trigger] s[i].0 == k].1,
    )
}

/// Whether the bases in `s` are distinct.
pub open spec fn distinct_keys(s: Seq<(u64, u64)>) -> bool {
    forall|i: int, j: int| 0 <= i < j < s.len() ==> (#[trigger] s[i]).0 != (#[trigger] s[j]).0
}

/// Looking up a base gives the size stored beside it.
pub proof fn lemma_alloc_map_at(s: Seq<(u64, u64)>, i: int)
    requires
        distinct_keys(s),
        0 <= i < s.len(),
    ensures
        alloc_map(s).contains_key(s[i].0),
        alloc_map(s)[s[i].0] == s[i].1,
{
    let k = s[i].0;
    assert(s[i].0 == k);
    let j = choose|j: int| 0 <= j < s.len() && #[trigger] s[j].0 == k;
    if j != i {
        if j < i {
            assert(s[j].0 != s[i].0);
        } else {
            assert(s[i].0 != s[j].0);
        }
    }
}

/// Replacing the size beside an existing base updates the map there.
pub proof fn lemma_alloc_map_update(s: Seq<(u64, u64)>, i: int, v: u64)
    requires
        distinct_keys(s),
        0 <= i < s.len(),
    ensures
        distinct_keys(s.update(i, (s[i].0, v))),
        alloc_map(s.update(i, (s[i].0, v))) =~= alloc_map(s).insert(s[i].0, v),
{
    let t = s.update(i, (s[i].0, v));
    assert forall|a: int, b: int| 0 <= a < b < t.len() implies (#[trigger] t[a]).0 != (
    #[trigger] t[b]).0 by {
        assert(s[a].0 != s[b].0);
    }
    assert forall|k: u64| #[trigger] alloc_map(t).contains_key(k) <==> alloc_map(s).insert(
        s[i].0,
        v,
    ).contains_key(k) by {
        if alloc_map(t).contains_key(k) {
            let j = choose|j: int| 0 <= j < t.len() && #[trigger] t[j].0 == k;
            assert(s[j].0 == k);
        }
        if alloc_map(s).contains_key(k) {
            let j = choose|j: int| 0 <= j < s.len() && #[trigger] s[j].0 == k;
            assert(t[j].0 == k);
        }
        if k == s[i].0 {
            assert(t[i].0 == k);
        }
    }
    assert forall|k: u64| #[trigger] alloc_map(t).contains_key(k) implies alloc_map(t)[k]
        == alloc_map(s).insert(s[i].0, v)[k] by {
        let j = choose|j: int| 0 <= j < t.len() && #[trigger] t[j].0 == k;
        lemma_alloc_map_at(t, j);
        if j != i {
            lemma_alloc_map_at(s, j);
        }
    }
}

/// Appending a new base adds it to the map.
pub proof fn lemma_alloc_map_push(s: Seq<(u64, u64)>, k: u64, v: u64)
    requires
        distinct_keys(s),
        !alloc_map(s).contains_key(k),
    ensures
        distinct_keys(s.push((k, v))),
        alloc_map(s.push((k, v))) =~= alloc_map(s).insert(k, v),
{
    let t = s.push((k, v));
    assert forall|a: int, b: int| 0 <= a < b < t.len() implies (#[trigger] t[a]).0 != (
    #[trigger] t[b]).0 by {
        if b == s.len() {
            assert(s[a].0 == t[a].0);
        }
    }
    assert forall|q: u64| #[trigger] alloc_map(t).contains_key(q) <==> alloc_map(s).insert(
        k,
        v,
    ).contains_key(q) by {
        if alloc_map(t).contains_key(q) {
            let j = choose|j: int| 0 <= j < t.len() && #[trigger] t[j].0 == q;
            if j < s.len() {
                assert(s[j].0 == q);
            }
        }
        if alloc_map(s).contains_key(q) {
            let j = choose|j: int| 0 <= j < s.len() && #[trigger] s[j].0 == q;
            assert(t[j].0 == q);
        }
        if q == k {
            assert(t[s.len() as int].0 == q);
        }
    }
    assert forall|q: u64| #[trigger] alloc_map(t).contains_key(q) implies alloc_map(t)[q]
        == alloc_map(s).insert(k, v)[q] by {
        let j = choose|j: int| 0 <= j < t.len() && #[trigger] t[j].0 == q;
        lemma_alloc_map_at(t, j);
        if j < s.len() {
            assert(t[j] == s[j]);
            lemma_alloc_map_at(s, j);
        }
    }
}

/// Removing the entry at `i` removes its base from the map.
pub proof fn lemma_alloc_map_remove(s: Seq<(u64, u64)>, i: int)
    requires
        distinct_keys(s),
        0 <= i < s.len(),
    ensures
        distinct_keys(s.remove(i)),
        alloc_map(s.remove(i)) =~= alloc_map(s).remove(s[i].0),
{
    let t = s.remove(i);
    assert forall|a: int, b: int| 0 <= a < b < t.len() implies (#[trigger] t[a]).0 != (
    #[trigger] t[b]).0 by {
        let a2 = if a < i { a } else { a + 1 };
        let b2 = if b < i { b } else { b + 1 };
        assert(t[a] == s[a2] && t[b] == s[b2]);
        assert(s[a2].0 != s[b2].0);
    }
    assert forall|q: u64| #[trigger] alloc_map(t).contains_key(q) <==> alloc_map(s).remove(
        s[i].0,
    ).contains_key(q) by {
        if alloc_map(t).contains_key(q) {
            let j = choose|j: int| 0 <= j < t.len() && #[trigger] t[j].0 == q;
            let j2 = if j < i { j } else { j + 1 };
            assert(s[j2].0 == q);
            if j2 < i {
                assert(s[j2].0 != s[i].0);
            } else {
                assert(s[i].0 != s[j2].0);
            }
        }
        if alloc_map(s).remove(s[i].0).contains_key(q) {
            let j = choose|j: int| 0 <= j < s.len() && #[trigger] s[j].0 == q;
            assert(j != i);
            if j < i {
                assert(t[j].0 == q);
            } else {
                assert(t[j - 1].0 == q);
            }
        }
    }
    assert forall|q: u64| #[trigger] alloc_map(t).contains_key(q) implies alloc_map(t)[q]
        == alloc_map(s).remove(s[i].0)[q] by {
        let j = choose|j: int| 0 <= j < t.len() && #[trigger] t[j].0 == q;
        lemma_alloc_map_at(t, j);
        let j2 = if j < i { j } else { j + 1 };
        assert(t[j] == s[j2]);
        lemma_alloc_map_at(s, j2);
    }
}

/// What releasing the block at `address` leaves behind and returns: the
/// allocation is forgotten, and the mapping at `address` is unmapped (and
/// `true` returned) only where the allocator handed it out.
pub open spec fn free_outcome(old: Mem64View, new: Mem64View, address: u64, r: bool) -> bool {
    &&& new.next_allocation == old.next_allocation
    &&& new.allocations == old.allocations.remove(address)
    &&& r == (old.allocations.contains_key(address) && exists|i: int|
        0 <= i < old.regions.len() && #[trigger] old.regions[i].base == address)
    &&& r ==> exists|i: int|
        0 <= i < old.regions.len() && old.regions[i].base == address && new.regions
            == old.regions.remove(i)
    &&& !r ==> new.regions == old.regions
}

impl Mem64 {
    /// The representation invariant.
    pub closed spec fn wf(&self) -> bool {
        &&& regions_wf(self@.regions)
        &&& distinct_keys(self.allocations@)
    }

    /// The mappings of a well-formed memory are non-empty, end within 64
    /// bits, and lie in address order without overlapping.
    pub proof fn lemma_wf_regions(&self)
        requires
            self.wf(),
        ensures
            regions_wf(self@.regions),
    {
    }

    /// An access that fits one mapping granting the right reaches only
    /// bytes that grant it.
    pub proof fn lemma_allowed_access_in_range(&self, a: int, size: int, p: u8, msg: Seq<char>)
        requires
            self.wf(),
            size >= 0,
            access_refusal(self@.regions, a, size, p, msg) is None,
        ensures
            range_ok(self@.regions, a, size, p),
    {
        let rs = self@.regions;
        let f = floor_index(rs, a);
        lemma_floor_props(rs, a);
        assert forall|k: int| 0 <= k < size implies #[trigger] addr_ok(rs, a + k, p) by {
            lemma_floor_within(rs, f, a + k);
        }
    }

    pub fn new() -> (r: Self)
        ensures
            r.wf(),
            r@.regions.len() == 0,
            r@.allocations == Map::<u64, u64>::empty(),
            r@.next_allocation == FIRST_ALLOCATION,
    {
        let r = Mem64 { regions: Vec::new(), allocations: Vec::new(), next_allocation: FIRST_ALLOCATION };
        assert(r@.regions =~= Seq::<RegionView>::empty());
        r
    }

    /// The index of the last mapping whose base is at most `a`.
    fn floor(&self, a: u64) -> (r: Option<usize>)
        requires
            self.wf(),
        ensures
            match r {
                Some(i) => i < self.regions@.len() && i == floor_index(self@.regions, a as int),
                None => floor_index(self@.regions, a as int) == -1,
            },
    {
        let ghost rs = self@.regions;
        let mut i = self.regions.len();
        while i > 0
            invariant
                i <= self.regions@.len(),
                rs == self@.regions,
                forall|j: int| i <= j < rs.len() ==> #[trigger] rs[j].base > a,
            decreases i,
        {
            if self.regions[i - 1].base <= a {
                proof {
                    lemma_floor_is(rs, a as int, i - 1);
                }
                return Some(i - 1);
            }
            i = i - 1;
        }
        proof {
            lemma_floor_is(rs, a as int, -1);
        }
        None
    }

    /// The entry of the allocation list with base `address`.
    fn find_allocation(&self, address: u64) -> (r: Option<usize>)
        requires
            self.wf(),
        ensures
            match r {
                Some(i) => i < self.allocations@.len() && self.allocations@[i as int].0 == address,
                None => !self@.allocations.contains_key(address),
            },
    {
        let mut i: usize = 0;
        while i < self.allocations.len()
            invariant
                i <= self.allocations@.len(),
                forall|j: int| 0 <= j < i ==> (#[trigger] self.allocations@[j]).0 != address,
            decreases self.allocations@.len() - i,
        {
            if self.allocations[i].0 == address {
                return Some(i);
            }
            i = i + 1;
        }
        None
    }

    /// The size of the block the allocator placed at `address`, if any.
    pub fn allocation_size(&self, address: Guest64Addr) -> (r: Option<Guest64USize>)
        requires
            self.wf(),
        ensures
            r == (if self@.allocations.contains_key(address) {
                Some(self@.allocations[address])
            } else {
                None::<u64>
            }),
    {
        match self.find_allocation(address) {
            Some(i) => {
                proof {
                    lemma_alloc_map_at(self.allocations@, i as int);
                }
                Some(self.allocations[i].1)
            },
            None => None,
        }
    }

    /// The mapping whose base is exactly `base`.
    fn find_region(&self, base: u64) -> (r: Option<usize>)
        requires
            self.wf(),
        ensures
            match r {
                Some(i) => i < self.regions@.len() && self@.regions[i as int].base == base,
                None => forall|i: int|
                    0 <= i < self@.regions.len() ==> #[trigger] self@.regions[i].base != base,
            },
    {
        proof {
            lemma_floor_props(self@.regions, base as int);
        }
        match self.floor(base) {
            Some(f) => {
                if self.regions[f].base == base {
                    Some(f)
                } else {
                    proof {
                        assert forall|i: int| 0 <= i < self@.regions.len() implies #[trigger] self@.regions[i].base
                            != base by {
                            if i < f {
                                assert(region_end(self@.regions[i]) <= self@.regions[f as int].base);
                            }
                        }
                    }
                    None
                }
            },
            None => None,
        }
    }

    /// Releases a block that the allocator handed out: forgets the
    /// allocation and unmaps the mapping at `address`. Reports whether a
    /// mapping was unmapped; a mapping that the allocator did not hand out
    /// stays.
    pub fn free(&mut self, address: Guest64Addr) -> (r: bool)
        requires
            old(self).wf(),
        ensures
            final(self).wf(),
            free_outcome(old(self)@, final(self)@, address, r),
    {
        let ghost rs = self@.regions;
        let ai = match self.find_allocation(address) {
            Some(ai) => ai,
            None => {
                assert(self@.allocations.remove(address) =~= self@.allocations);
                return false;
            },
        };
        proof {
            lemma_alloc_map_remove(self.allocations@, ai as int);
        }
        self.allocations.remove(ai);
        match self.find_region(address) {
            Some(ri) => {
                self.regions.remove(ri);
                proof {
                    assert(self@.regions =~= rs.remove(ri as int));
                    lemma_remove_wf(rs, ri as int);
                }
                true
            },
            None => false,
        }
    }

    /// Changes the rights of the one mapping that covers exactly
    /// `base..base + size`.
    pub fn set_permissions(
        &mut self,
        base: Guest64Addr,
        size: Guest64USize,
        permissions: Permissions,
    ) -> (r: Result<(), &'static str>)
        requires
            old(self).wf(),
        ensures
            final(self).wf(),
            final(self)@.allocations == old(self)@.allocations,
            final(self)@.next_allocation == old(self)@.next_allocation,
            base + size > u64::MAX ==> (r matches Err(e) && e@ == "permission range overflows"@
                && final(self)@ == old(self)@),
            base + size <= u64::MAX && (forall|i: int|
                0 <= i < old(self)@.regions.len() ==> #[trigger] old(self)@.regions[i].base
                    != base) ==> (r matches Err(e) && e@ == "permission range is unmapped"@
                && final(self)@ == old(self)@),
            forall|i: int|
                0 <= i < old(self)@.regions.len() && #[trigger] old(self)@.regions[i].base == base
                    && base + size <= u64::MAX ==> if old(self)@.regions[i].bytes.len() != size {
                    r matches Err(e) && e@ == "permission range must cover one complete mapping"@
                        && final(self)@ == old(self)@
                } else {
                    r is Ok && final(self)@.regions == old(self)@.regions.update(
                        i,
                        RegionView { permissions, ..old(self)@.regions[i] },
                    )
                },
    {
        let ghost rs = self@.regions;
        if base.checked_add(size).is_none() {
            return Err("permission range overflows");
        }
        let i = match self.find_region(base) {
            Some(i) => i,
            None => {
                return Err("permission range is unmapped");
            },
        };
        assert(self@.regions[i as int] == self.regions@[i as int].view());
        if self.regions[i].bytes.len() as u64 != size {
            return Err("permission range must cover one complete mapping");
        }
        self.regions[i].permissions = permissions;
        proof {
            assert(self@.regions =~= rs.update(i as int, RegionView { permissions, ..rs[i as int] }));
            assert forall|j: int| 0 <= j < rs.len() && #[trigger] rs[j].base == base implies j == i by {
                if j < i {
                    assert(region_end(rs[j]) <= rs[i as int].base);
                } else if j > i {
                    assert(region_end(rs[i as int]) <= rs[j].base);
                }
            }
            assert forall|a: int, b: int| 0 <= a < b < self@.regions.len() implies region_end(
                #[trigger] self@.regions[a],
            ) <= (#[trigger] self@.regions[b]).base by {
                assert(region_end(rs[a]) <= rs[b].base);
            }
        }
        Ok(())
    }

    /// A block just allocated with the rights `p` grants them throughout,
    /// reads as zeros, and keeps the mappings in order.
    pub proof fn lemma_fresh_block(old: Mem64View, new: Mem64View, size: u64, p: Permissions, b: u64)
        requires
            regions_wf(old.regions),
            alloc_outcome(old, new, size, p, Ok(b)),
        ensures
            regions_wf(new.regions),
            forall|k: int|
                0 <= k < alloc_block_size(size as int) ==> #[trigger] addr_ok(new.regions, b + k, 0)
                    && floor_index(new.regions, b + k) == floor_index(old.regions, b as int) + 1
                    && new.regions[floor_index(old.regions, b as int) + 1].permissions == p
                    && byte_at(new.regions, b + k) == 0,
            alloc_block_size(size as int) >= size,
            alloc_block_size(size as int) >= 16,
            b + alloc_block_size(size as int) <= u64::MAX,
            b >= FIRST_ALLOCATION,
    {
        let rs = old.regions;
        let block = alloc_block_size(size as int);
        let start = if old.next_allocation < FIRST_ALLOCATION {
            FIRST_ALLOCATION as int
        } else {
            old.next_allocation as int
        };
        let t = if size < 16 { 16int } else { size as int };
        assert((t + 15) / 16 * 16 >= t) by (nonlinear_arith);
        lemma_alloc_fit_free(rs, start, block);
        let r = RegionView { base: b, bytes: zeros(block), permissions: p };
        lemma_floor_props(rs, b as int);
        let f = floor_index(rs, b as int);
        lemma_insert_wf(rs, r);
        let n = new.regions;
        assert(n[f + 1] == r);
        assert forall|k: int| 0 <= k < block implies #[trigger] addr_ok(n, b + k, 0) && floor_index(
            n,
            b + k,
        ) == f + 1 && n[f + 1].permissions == p && byte_at(n, b + k) == 0 by {
            lemma_floor_within(n, f + 1, b + k);
            assert(n[f + 1].bytes[k] == 0);
        }
    }

    /// A block just allocated read-write may be read and written throughout.
    pub proof fn lemma_block_writable(&self, old: Mem64View, size: u64, b: u64)
        requires
            self.wf(),
            alloc_outcome(old, self@, size, Permissions(3), Ok(b)),
        ensures
            range_ok(self@.regions, b as int, alloc_block_size(size as int), 2),
            range_ok(self@.regions, b as int, alloc_block_size(size as int), 1),
            alloc_block_size(size as int) >= size,
            alloc_block_size(size as int) >= 16,
            b >= FIRST_ALLOCATION,
    {
        let rs = old.regions;
        let n = self@.regions;
        let block = alloc_block_size(size as int);
        let start = if old.next_allocation < FIRST_ALLOCATION {
            FIRST_ALLOCATION as int
        } else {
            old.next_allocation as int
        };
        lemma_alloc_fit_bounds(rs, start, block);
        let t = if size < 16 { 16int } else { size as int };
        assert((t + 15) / 16 * 16 >= t) by (nonlinear_arith);
        lemma_floor_props(rs, b as int);
        let f = floor_index(rs, b as int);
        let r = RegionView { base: b, bytes: zeros(block), permissions: Permissions(3) };
        assert(n[f + 1] == r);
        assert(Permissions(3).bits() & 2 == 2 && Permissions(3).bits() & 1 == 1) by (bit_vector);
        assert forall|k: int| 0 <= k < block implies #[trigger] addr_ok(n, b + k, 2) by {
            lemma_floor_within(n, f + 1, b + k);
        }
        assert forall|k: int| 0 <= k < block implies #[trigger] addr_ok(n, b + k, 1) by {
            lemma_floor_within(n, f + 1, b + k);
        }
    }

    /// Allocates a zeroed, read-write block for `bytes` and a terminating
    /// NUL, and copies `bytes` in: a C string in guest memory.
    pub fn alloc_cstr(&mut self, bytes: &[u8]) -> (r: Result<Guest64Addr, &'static str>)
        requires
            old(self).wf(),
        ensures
            final(self).wf(),
            r is Err ==> final(self)@ == old(self)@,
            bytes@.len() >= MAX_GUEST_ALLOCATION ==> (r matches Err(e) && e@
                == "64-bit allocation request exceeds the safety limit"@),
            bytes@.len() < MAX_GUEST_ALLOCATION ==> match alloc_place(old(self)@, bytes@.len() + 1 as int) {
                None => r matches Err(e) && e@ == "allocation address overflows"@,
                Some(b) => {
                    &&& r == Ok::<u64, &str>(b as u64)
                    &&& final(self)@.allocations == old(self)@.allocations.insert(
                        b as u64,
                        alloc_block_size(bytes@.len() + 1 as int) as u64,
                    )
                    &&& final(self)@.next_allocation == b + alloc_block_size(bytes@.len() + 1 as int)
                },
            },
            r matches Ok(p) ==> {
                &&& range_ok(final(self)@.regions, p as int, bytes@.len() + 1 as int, 1)
                &&& bytes_at(final(self)@.regions, p as int, bytes@.len() + 1 as int) == bytes@.push(0)
                &&& final(self)@.allocations.contains_key(p)
                &&& final(self)@.allocations.dom() == old(self)@.allocations.dom().insert(p)
            },
    {
        let len = bytes.len() as u64;
        if len >= MAX_GUEST_ALLOCATION {
            return Err("64-bit allocation request exceeds the safety limit");
        }
        let ghost before = self@;
        let p = self.alloc_zeroed(len + 1)?;
        let ghost mid = self@;
        proof {
            Mem64::lemma_fresh_block(before, mid, (len + 1) as u64, Permissions(3), p);
            let f = floor_index(before.regions, p as int) + 1;
            assert(Permissions(3).bits() & 2 == 2 && Permissions(3).bits() & 1 == 1) by (bit_vector);
            assert forall|a: int| p <= a < p + len + 1 implies #[trigger] addr_ok(mid.regions, a, 2) by {
                assert(addr_ok(mid.regions, p + (a - p), 0));
                assert(floor_index(mid.regions, p + (a - p)) == f);
            }
            assert forall|a: int| p <= a < p + len + 1 implies #[trigger] addr_ok(mid.regions, a, 1) by {
                assert(addr_ok(mid.regions, p + (a - p), 0));
                assert(floor_index(mid.regions, p + (a - p)) == f);
            }
            assert forall|k: int| 0 <= k < len implies #[trigger] addr_ok(mid.regions, p + k, 2) by {
                assert(addr_ok(mid.regions, p + k, 2));
            }
            assert forall|k: int| 0 <= k < len implies #[trigger] addr_ok(mid.regions, p + k, 1) by {
                assert(addr_ok(mid.regions, p + k, 1));
            }
            assert(range_ok(mid.regions, p as int, len as int, 1));
            assert(addr_ok(mid.regions, p + len, 1));
            assert(range_ok(mid.regions, p as int, len as int, 2));
        }
        match self.write_bytes(p, bytes) {
            Ok(()) => {},
            Err(_) => {
                assert(false);
                return Err("64-bit memory write failed");
            },
        }
        proof {
            let fin = self@;
            crate::mem64_laws::law_read_after_write(mid, fin, p as int, bytes@, 1);
            let q = p + len;
            assert(addr_ok(mid.regions, q, 1));
            assert(addr_ok(mid.regions, q, 0));
            crate::mem64_laws::law_write_is_local(mid.regions, p as int, bytes@, len as int, q);
            lemma_write_spec_wf(mid.regions, p as int, bytes@, len as int);
            assert(fin.regions == write_spec(mid.regions, p as int, bytes@, len as int));
            assert forall|i: int| 0 <= i < fin.regions.len() implies #[trigger] fin.regions[i].base
                == mid.regions[i].base by {
                assert(write_spec(mid.regions, p as int, bytes@, len as int)[i].base
                    == mid.regions[i].base);
            }
            lemma_floor_same_bases(fin.regions, mid.regions, q);
            let fq = floor_index(mid.regions, q);
            lemma_floor_props(mid.regions, q);
            assert(write_spec(mid.regions, p as int, bytes@, len as int)[fq].bytes.len()
                == mid.regions[fq].bytes.len());
            assert(addr_ok(fin.regions, q, 1));
            assert(byte_at(fin.regions, q) == 0);
            let all = bytes_at(fin.regions, p as int, len + 1);
            assert forall|k: int| 0 <= k < len + 1 implies #[trigger] addr_ok(fin.regions, p + k, 1) by {
                if k < len {
                    assert(addr_ok(fin.regions, p + k, 1));
                }
            }
            assert forall|k: int| 0 <= k < len + 1 implies #[trigger] all[k] == bytes@.push(0)[k] by {
                if k < len {
                    assert(bytes_at(fin.regions, p as int, len as int)[k] == bytes@[k]);
                }
            }
            assert(all =~= bytes@.push(0));
            assert(mid.allocations.dom() =~= before.allocations.dom().insert(p));
        }
        Ok(p)
    }

    /// Allocates a zeroed, read-write block of at least `size` bytes.
    pub fn alloc_zeroed(&mut self, size: Guest64USize) -> (r: Result<Guest64Addr, &'static str>)
        requires
            old(self).wf(),
        ensures
            final(self).wf(),
            alloc_outcome(old(self)@, final(self)@, size, Permissions(3), r),
    {
        self.alloc_zeroed_with_permissions(size, Permissions::read_write())
    }

    /// Allocates a zeroed block of at least `size` bytes with the rights
    /// `permissions`, in the first place from the allocation cursor on where
    /// it meets no mapping.
    pub fn alloc_zeroed_with_permissions(
        &mut self,
        size: Guest64USize,
        permissions: Permissions,
    ) -> (r: Result<Guest64Addr, &'static str>)
        requires
            old(self).wf(),
        ensures
            final(self).wf(),
            alloc_outcome(old(self)@, final(self)@, size, permissions, r),
    {
        let ghost rs = self@.regions;
        if size > MAX_GUEST_ALLOCATION {
            return Err("64-bit allocation request exceeds the safety limit");
        }
        let at_least = if size < 16 { 16u64 } else { size };
        proof {
            lemma_align16(at_least);
        }
        let block = (at_least + 15) & !15u64;
        let mut base = if self.next_allocation < FIRST_ALLOCATION {
            FIRST_ALLOCATION
        } else {
            self.next_allocation
        };
        let ghost start = base as int;
        loop
            invariant
                self.wf(),
                self@ == old(self)@,
                rs == self@.regions,
                block as int == alloc_block_size(size as int),
                size <= MAX_GUEST_ALLOCATION,
                start == (if old(self)@.next_allocation < FIRST_ALLOCATION { FIRST_ALLOCATION as int } else { old(self)@.next_allocation as int }),
                16 <= block <= MAX_GUEST_ALLOCATION + 16,
                alloc_fit(rs, start, block as int) == alloc_fit(rs, base as int, block as int),
            ensures
                alloc_fit(rs, base as int, block as int) == Some(base as int),
            decreases u64::MAX - base,
        {
            let end = match base.checked_add(block) {
                Some(end) => end,
                None => {
                    assert(alloc_fit(rs, base as int, block as int) is None);
                    return Err("allocation address overflows");
                },
            };
            proof {
                lemma_floor_props(rs, end - 1);
            }
            let ghost f_spec = floor_index(rs, end - 1);
            let overlap = match self.floor(end - 1) {
                Some(f) => {
                    assert(self@.regions[f as int] == self.regions@[f as int].view());
                    let last_end = self.regions[f].base + self.regions[f].bytes.len() as u64;
                    if last_end > base {
                        Some(last_end)
                    } else {
                        None
                    }
                },
                None => None,
            };
            match overlap {
                Some(last_end) => {
                    assert(f_spec >= 0 && last_end == region_end(rs[f_spec]));
                    if last_end > u64::MAX - 15 {
                        assert(align16(last_end as int) > u64::MAX);
                        assert(alloc_fit(rs, base as int, block as int) is None);
                        return Err("allocation address overflows");
                    }
                    proof {
                        lemma_align16(last_end);
                    }
                    let ghost old_base = base;
                    base = (last_end + 15) & !15u64;
                    assert(alloc_fit(rs, old_base as int, block as int) == alloc_fit(
                        rs,
                        base as int,
                        block as int,
                    ));
                },
                None => {
                    assert(alloc_fit(rs, base as int, block as int) == Some(base as int));
                    break;
                },
            }
        }
        proof {
            lemma_alloc_fit_free(rs, base as int, block as int);
        }
        assert(block <= usize::MAX);
        let mapped = self.map_zeroed_with_permissions(base, block, permissions);
        if mapped.is_err() {
            assert(false);
            return Err("64-bit mapping overlaps an existing mapping");
        }
        match self.find_allocation(base) {
            Some(i) => {
                proof {
                    lemma_alloc_map_update(self.allocations@, i as int, block);
                }
                self.allocations.set(i, (base, block));
            },
            None => {
                proof {
                    lemma_alloc_map_push(self.allocations@, base, block);
                }
                self.allocations.push((base, block));
            },
        }
        self.next_allocation = base + block;
        Ok(base)
    }

    /// Stores `value` into the `size` bytes from `base` on, crossing from
    /// one writable mapping into the next where they touch.
    pub fn fill_bytes(&mut self, base: Guest64Addr, value: u8, size: Guest64USize) -> (r: Result<
        (),
        &'static str,
    >)
        requires
            old(self).wf(),
            !fill_panics(old(self)@.regions, base as int, size as int),
        ensures
            final(self).wf(),
            size > usize::MAX ==> (r matches Err(e) && e@ == "64-bit fill is too large for this host"@
                && final(self)@ == old(self)@),
            size <= usize::MAX && size == 0 ==> (r is Ok && final(self)@ == old(self)@),
            size <= usize::MAX && size > 0 && base + size > u64::MAX ==> (r matches Err(e) && e@
                == "64-bit fill address overflows"@ && final(self)@ == old(self)@),
            size <= usize::MAX && size > 0 && base + size <= u64::MAX ==> write_outcome(
                old(self)@,
                final(self)@,
                base as int,
                fill_data(value, size as int),
                2,
                "64-bit memory write protection fault"@,
                "64-bit memory fill is out of bounds"@,
                r,
            ),
    {
        if size > usize::MAX as u64 {
            return Err("64-bit fill is too large for this host");
        }
        if size == 0 {
            return Ok(());
        }
        if base.checked_add(size).is_none() {
            return Err("64-bit fill address overflows");
        }
        self.fill_chunks(base, value, size as usize)
    }

    /// Copies `size` bytes from `source` to `destination`: reads them all
    /// from readable memory first, then writes them into writable memory.
    pub fn copy_bytes(
        &mut self,
        destination: Guest64Addr,
        source: Guest64Addr,
        size: Guest64USize,
    ) -> (r: Result<(), &'static str>)
        requires
            old(self).wf(),
        ensures
            final(self).wf(),
            size > usize::MAX ==> (r matches Err(e) && e@ == "64-bit copy is too large for this host"@
                && final(self)@ == old(self)@),
            size <= usize::MAX && size == 0 ==> (r is Ok && final(self)@ == old(self)@),
            size <= usize::MAX && size > 0 && !range_ok(old(self)@.regions, source as int, size as int, 1)
                ==> (r matches Err(e) && read_fault(
                old(self)@.regions,
                source as int,
                size as int,
                1,
                "64-bit memory read protection fault"@,
                e@,
            ) && final(self)@ == old(self)@),
            size <= usize::MAX && size > 0 && range_ok(old(self)@.regions, source as int, size as int, 1)
                ==> write_outcome(
                old(self)@,
                final(self)@,
                destination as int,
                bytes_at(old(self)@.regions, source as int, size as int),
                2,
                "64-bit memory write protection fault"@,
                "64-bit memory write is out of bounds"@,
                r,
            ),
    {
        if size > usize::MAX as u64 {
            return Err("64-bit copy is too large for this host");
        }
        if size == 0 {
            return Ok(());
        }
        let bytes = self.read_bytes_with_access(source, size as usize, AccessType::Read)?;
        self.write_bytes_with_access(destination, bytes.as_slice(), AccessType::Write)
    }

    /// The length of the zero-terminated string at `base`, looking at no
    /// more than `limit` bytes.
    pub fn cstr_len(&self, base: Guest64Addr, limit: Guest64USize) -> (r: Result<Guest64USize, &'static str>)
        requires
            self.wf(),
        ensures
            limit > usize::MAX ==> (r matches Err(e) && e@
                == "64-bit string limit is too large for this host"@),
            limit <= usize::MAX && cstr_scan_ok(self@.regions, base as int, limit as int) ==> (r matches Err(
                e,
            ) && e@ == "64-bit string has no terminator within the safety limit"@),
            limit <= usize::MAX ==> (r matches Ok(n) ==> n < limit && cstr_scan_ok(
                self@.regions,
                base as int,
                n as int,
            ) && byte_at(self@.regions, base + n) == 0 && addr_ok(self@.regions, base + n, 1)),
            limit <= usize::MAX && !cstr_scan_ok(self@.regions, base as int, limit as int) ==> exists|
                k: int,
            |
                0 <= k < limit && cstr_scan_ok(self@.regions, base as int, k) && !(base + k
                    <= u64::MAX && addr_ok(self@.regions, base + k, 1) && byte_at(
                    self@.regions,
                    base + k,
                ) != 0) && if base + k > u64::MAX {
                    r matches Err(e) && e@ == "64-bit string address overflows"@
                } else if !addr_ok(self@.regions, base + k, 1) {
                    r matches Err(e) && read_fault(
                        self@.regions,
                        base + k,
                        1,
                        1,
                        "64-bit memory read protection fault"@,
                        e@,
                    )
                } else {
                    r == Ok::<u64, &str>(k as u64)
                },
    {
        let ghost rs = self@.regions;
        if limit > usize::MAX as u64 {
            return Err("64-bit string limit is too large for this host");
        }
        let mut length: u64 = 0;
        while length < limit
            invariant
                self.wf(),
                rs == self@.regions,
                length <= limit <= usize::MAX,
                cstr_scan_ok(rs, base as int, length as int),
            decreases limit - length,
        {
            let address = match base.checked_add(length) {
                Some(address) => address,
                None => {
                    proof {
                        if cstr_scan_ok(rs, base as int, limit as int) {
                            assert(addr_ok(rs, base + length, 1));
                        }
                    }
                    return Err("64-bit string address overflows");
                },
            };
            let byte = match self.read_u8(address) {
                Ok(byte) => byte,
                Err(e) => {
                    proof {
                        assert(!addr_ok(rs, address + 0, 1));
                        assert(!addr_ok(rs, base + length, 1));
                        if cstr_scan_ok(rs, base as int, limit as int) {
                            assert(addr_ok(rs, base + length, 1));
                        }
                    }
                    return Err(e);
                },
            };
            proof {
                assert(addr_ok(rs, address + 0, 1));
            }
            if byte == 0 {
                proof {
                    assert(byte_at(rs, base + length) == 0);
                    assert(!cstr_scan_ok(rs, base as int, limit as int));
                }
                return Ok(length);
            }
            proof {
                assert forall|k: int| 0 <= k < length + 1 implies base + k <= u64::MAX
                    && #[trigger] addr_ok(rs, base + k, 1) && byte_at(rs, base + k) != 0 by {
                    if k == length {
                        assert(base + k == address + 0);
                    }
                }
            }
            length = length + 1;
        }
        Err("64-bit string has no terminator within the safety limit")
    }

    /// Finds the mapping for a single-mapping access and checks it.
    fn check_access(&self, addr: u64, size: usize, access: AccessType) -> (r: Result<
        (usize, usize),
        &'static str,
    >)
        requires
            self.wf(),
        ensures
            match access_refusal(
                self@.regions,
                addr as int,
                size as int,
                access_bits(access),
                protection_message(access),
            ) {
                Some(m) => r matches Err(e) && e@ == m,
                None => r matches Ok((f, offset)) && f == floor_index(self@.regions, addr as int)
                    && f < self@.regions.len()
                    && offset == addr - self@.regions[f as int].base && offset + size
                    <= self@.regions[f as int].bytes.len(),
            },
    {
        proof {
            lemma_floor_props(self@.regions, addr as int);
        }
        let f = match self.floor(addr) {
            Some(f) => f,
            None => {
                return Err("64-bit memory access is unmapped");
            },
        };
        assert(self@.regions[f as int] == self.regions@[f as int].view());
        let offset = addr - self.regions[f].base;
        let end = match offset.checked_add(size as u64) {
            Some(end) => end,
            None => {
                return Err("64-bit access overflows");
            },
        };
        if end > self.regions[f].bytes.len() as u64 {
            return Err("64-bit memory access is out of bounds");
        }
        if !self.regions[f].permissions.contains(access.permission()) {
            return Err(
                match access {
                    AccessType::Read => "64-bit memory read protection fault",
                    AccessType::Write => "64-bit memory write protection fault",
                    AccessType::Execute => "64-bit memory execute protection fault",
                },
            );
        }
        Ok((f, offset as usize))
    }

    /// Whether `size` bytes at `addr` lie in one writable mapping.
    pub fn can_write(&self, addr: Guest64Addr, size: Guest64USize) -> (r: Result<(), &'static str>)
        requires
            self.wf(),
        ensures
            size > usize::MAX ==> (r matches Err(e) && e@ == "64-bit write size is too large"@),
            size <= usize::MAX ==> match access_refusal(
                self@.regions,
                addr as int,
                size as int,
                2,
                "64-bit memory write protection fault"@,
            ) {
                Some(m) => r matches Err(e) && e@ == m,
                None => r is Ok,
            },
    {
        if size > usize::MAX as u64 {
            return Err("64-bit write size is too large");
        }
        match self.check_access(addr, size as usize, AccessType::Write) {
            Ok(_) => Ok(()),
            Err(e) => Err(e),
        }
    }

    /// The host bytes behind `size` readable bytes at `base`, which must
    /// lie in one mapping.
    pub fn host_slice(&self, base: Guest64Addr, size: Guest64USize) -> (r: Result<&[u8], &'static str>)
        requires
            self.wf(),
        ensures
            size > usize::MAX ==> (r matches Err(e) && e@ == "64-bit host pointer size is too large"@),
            size <= usize::MAX ==> match access_refusal(
                self@.regions,
                base as int,
                size as int,
                1,
                "64-bit memory read protection fault"@,
            ) {
                Some(m) => r matches Err(e) && e@ == m,
                None => r matches Ok(v) && v@ == bytes_at(self@.regions, base as int, size as int),
            },
    {
        if size > usize::MAX as u64 {
            return Err("64-bit host pointer size is too large");
        }
        let (f, offset) = self.check_access(base, size as usize, AccessType::Read)?;
        assert(self@.regions[f as int] == self.regions@[f as int].view());
        let length = self.regions[f].bytes.len();
        let v = slice_range(self.regions[f].bytes.as_slice(), offset, offset + size as usize);
        proof {
            let rs = self@.regions;
            assert(rs[f as int] == self.regions@[f as int].view());
            assert forall|k: int| 0 <= k < size implies #[trigger] v@[k] == byte_at(rs, base + k) by {
                lemma_floor_within(rs, f as int, base + k);
            }
            assert(v@ =~= bytes_at(rs, base as int, size as int));
        }
        Ok(v)
    }

    /// The mappings in increasing order of address: none empty, and each
    /// ending at or before the next one's start.
    pub fn mapped_regions(&self) -> (r: Vec<Region>)
        requires
            self.wf(),
        ensures
            r@.len() == self@.regions.len(),
            forall|i: int|
                0 <= i < r@.len() ==> (#[trigger] r@[i]).base == self@.regions[i].base
                    && r@[i].size == self@.regions[i].bytes.len() && r@[i].permissions
                    == self@.regions[i].permissions,
            forall|i: int| 0 <= i < r@.len() ==> (#[trigger] r@[i]).size > 0,
            forall|i: int, j: int|
                0 <= i < j < r@.len() ==> (#[trigger] r@[i]).base + r@[i].size <= (#[trigger] r@[j]).base,
    {
        let mut out: Vec<Region> = Vec::new();
        let mut i: usize = 0;
        while i < self.regions.len()
            invariant
                i <= self.regions@.len(),
                out@.len() == i,
                forall|j: int|
                    0 <= j < i ==> (#[trigger] out@[j]).base == self@.regions[j].base
                        && out@[j].size == self@.regions[j].bytes.len() && out@[j].permissions
                        == self@.regions[j].permissions,
            decreases self.regions@.len() - i,
        {
            assert(self@.regions[i as int] == self.regions@[i as int].view());
            out.push(
                Region {
                    base: self.regions[i].base,
                    size: self.regions[i].bytes.len() as u64,
                    permissions: self.regions[i].permissions,
                },
            );
            i = i + 1;
        }
        proof {
            let rs = self@.regions;
            assert forall|a: int, b: int| 0 <= a < b < out@.len() implies (#[trigger] out@[a]).base
                + out@[a].size <= (#[trigger] out@[b]).base by {
                assert(region_end(rs[a]) <= rs[b].base);
            }
            assert forall|a: int| 0 <= a < out@.len() implies (#[trigger] out@[a]).size > 0 by {
                assert(rs[a].bytes.len() > 0);
            }
        }
        out
    }

    /// Whether some mapping shares an address with `base..base + size`.
    fn overlaps_existing(&self, base: u64, size: u64) -> (r: bool)
        requires
            self.wf(),
            size > 0,
            base + size <= u64::MAX,
        ensures
            r == overlaps(self@.regions, base as int, size as int),
    {
        let ghost rs = self@.regions;
        proof {
            lemma_floor_props(rs, base as int);
        }
        let count = self.regions.len();
        let next = match self.floor(base) {
            Some(f) => {
                assert(self@.regions[f as int] == self.regions@[f as int].view());
                let previous_end = self.regions[f].base + self.regions[f].bytes.len() as u64;
                if previous_end > base {
                    assert(rs[f as int].base < base + size && base < region_end(rs[f as int]));
                    return true;
                }
                f + 1
            },
            None => 0,
        };
        if next < self.regions.len() && self.regions[next].base < base + size {
            assert(self@.regions[next as int] == self.regions@[next as int].view());
            assert(rs[next as int].base < base + size && base < region_end(rs[next as int]));
            return true;
        }
        proof {
            assert forall|i: int| 0 <= i < rs.len() implies !(#[trigger] rs[i].base < base + size
                && base < region_end(rs[i])) by {
                if i < next {
                    if i < next - 1 {
                        assert(region_end(rs[i]) <= rs[next - 1].base);
                    }
                } else if i > next {
                    assert(region_end(rs[next as int]) <= rs[i].base);
                }
            }
        }
        false
    }

    /// Puts `m`, which meets no mapping, in its place.
    fn insert_mapping(&mut self, m: Mapping)
        requires
            old(self).wf(),
            m.bytes@.len() > 0,
            m.base + m.bytes@.len() <= u64::MAX,
            !overlaps(old(self)@.regions, m.base as int, m.bytes@.len() as int),
        ensures
            final(self).wf(),
            final(self)@.allocations == old(self)@.allocations,
            final(self)@.next_allocation == old(self)@.next_allocation,
            final(self)@.regions.to_set() == old(self)@.regions.to_set().insert(m.view()),
    {
        let ghost rs = self@.regions;
        proof {
            lemma_floor_props(rs, m.base as int);
        }
        let count = self.regions.len();
        let next = match self.floor(m.base) {
            Some(f) => f + 1,
            None => 0,
        };
        let ghost mv = m.view();
        self.regions.insert(next, m);
        assert(next <= rs.len());
        proof {
            assert(self@.regions =~= rs.insert(next as int, mv));
            lemma_insert_wf(rs, mv);
            let n = rs.insert(next as int, mv);
            assert forall|e: RegionView| #[trigger] n.to_set().contains(e) <==> rs.to_set().insert(
                mv,
            ).contains(e) by {
                if n.to_set().contains(e) {
                    let i = choose|i: int| 0 <= i < n.len() && n[i] == e;
                    if i < next {
                        assert(rs[i] == e);
                    } else if i > next {
                        assert(rs[i - 1] == e);
                    }
                }
                if rs.to_set().contains(e) {
                    let i = choose|i: int| 0 <= i < rs.len() && rs[i] == e;
                    if i < next {
                        assert(n[i] == e);
                    } else {
                        assert(n[i + 1] == e);
                    }
                }
                if e == mv {
                    assert(n[next as int] == e);
                }
            }
            assert(n.to_set() =~= rs.to_set().insert(mv));
        }
    }

    /// Adds the mappings and allocations of `other`, which must not meet
    /// any mapping of `self`.
    pub fn merge_mappings(&mut self, other: Mem64) -> (r: Result<(), &'static str>)
        requires
            old(self).wf(),
            other.wf(),
        ensures
            final(self).wf(),
            merge_outcome(
                old(self)@,
                final(self)@,
                other@.regions,
                other@.allocations,
                other@.next_allocation,
                r,
            ),
    {
        let ghost rs = self@.regions;
        let ghost os = other@.regions;
        let ghost oa = other@.allocations;
        let ghost on = other@.next_allocation;
        let other_next = other.next_allocation;
        let mut other = other;
        let count = other.regions.len();
        let mut j: usize = 0;
        while j < count
            invariant
                other_next == on,
                self.wf(),
                self@ == old(self)@,
                rs == self@.regions,
                other.wf(),
                os == other@.regions,
                count == os.len(),
                j <= count,
                forall|i: int|
                    0 <= i < j ==> !(#[trigger] overlaps(
                        rs,
                        os[i].base as int,
                        os[i].bytes.len() as int,
                    )),
            ensures
                self@ == old(self)@,
                j <= count,
                forall|i: int|
                    0 <= i < j ==> !(#[trigger] overlaps(
                        rs,
                        os[i].base as int,
                        os[i].bytes.len() as int,
                    )),
                j < count ==> overlaps(rs, os[j as int].base as int, os[j as int].bytes.len() as int),
            decreases count - j,
        {
            assert(os[j as int] == other.regions@[j as int].view());
            let base = other.regions[j].base;
            let size = other.regions[j].bytes.len() as u64;
            if self.overlaps_existing(base, size) {
                break;
            }
            j = j + 1;
        }
        if j < count {
            let mut i: usize = 0;
            while i < j
                invariant
                other_next == on,
                    self.wf(),
                    self@.allocations == old(self)@.allocations,
                    self@.next_allocation == old(self)@.next_allocation,
                    other.wf(),
                    os == other@.regions,
                    count == os.len(),
                    i <= j < count,
                    forall|k: int|
                        0 <= k < j ==> !(#[trigger] overlaps(
                            rs,
                            os[k].base as int,
                            os[k].bytes.len() as int,
                        )),
                    self@.regions.to_set() == rs.to_set() + os.take(i as int).map_values(
                        |x: RegionView| zeroed(x),
                    ).to_set(),
                decreases j - i,
            {
                assert(os[i as int] == other.regions@[i as int].view());
                let base = other.regions[i].base;
                let length = other.regions[i].bytes.len();
                let m = Mapping {
                    base,
                    bytes: zeroed_vec(length),
                    permissions: other.regions[i].permissions,
                };
                let ghost before = self@.regions;
                proof {
                    let zs = os.take(i as int).map_values(|x: RegionView| zeroed(x));
                    lemma_overlaps_set(before, base as int, length as int);
                    lemma_overlaps_set(rs, base as int, length as int);
                    assert forall|e: RegionView| #[trigger] before.to_set().contains(e) implies !region_meets(
                        e,
                        base as int,
                        length as int,
                    ) by {
                        if !rs.to_set().contains(e) {
                            assert(zs.to_set().contains(e));
                            let k = choose|k: int| 0 <= k < zs.len() && zs[k] == e;
                            assert(region_end(os[k]) <= os[i as int].base);
                        }
                    }
                    assert(os[i as int].bytes.len() > 0);
                    assert(region_end(os[i as int]) <= u64::MAX);
                }
                self.insert_mapping(m);
                proof {
                    let zs = os.take(i as int).map_values(|x: RegionView| zeroed(x));
                    let zs2 = os.take(i + 1).map_values(|x: RegionView| zeroed(x));
                    assert(zs2 =~= zs.push(zeroed(os[i as int])));
                    assert(m.view() =~~= zeroed(os[i as int]));
                    lemma_to_set_push(zs, zeroed(os[i as int]));
                    assert(self@.regions.to_set() =~= rs.to_set() + zs2.to_set());
                }
                i = i + 1;
            }
            assert(overlaps(rs, os[j as int].base as int, os[j as int].bytes.len() as int));
            return Err("64-bit mapping overlaps an existing mapping");
        }
        proof {
            assert(os.take(0).map_values(|x: RegionView| zeroed(x)).to_set() =~= Set::<RegionView>::empty());
        }
        let mut k: usize = count;
        while k > 0
            invariant
                other_next == on,
                self.wf(),
                self@.allocations == old(self)@.allocations,
                self@.next_allocation == old(self)@.next_allocation,
                other.wf(),
                other@.regions == os.take(k as int),
                other@.allocations == oa,
                regions_wf(os),
                k <= count == os.len(),
                forall|q: int|
                    0 <= q < count ==> !(#[trigger] overlaps(
                        rs,
                        os[q].base as int,
                        os[q].bytes.len() as int,
                    )),
                self@.regions.to_set() == rs.to_set() + os.skip(k as int).to_set(),
            decreases k,
        {
            assert(other@.regions.len() == k);
            assert(other@.regions.len() == other.regions@.len());
            assert(other@.regions[k - 1] == other.regions@[k - 1].view());
            assert(other@.regions[k - 1] == os[k - 1]);
            let m = other.regions.pop().unwrap();
            k = k - 1;
            proof {
                assert(m.view() == os[k as int]);
                let before = self@.regions;
                lemma_overlaps_set(before, m.base as int, m.bytes@.len() as int);
                lemma_overlaps_set(rs, m.base as int, m.bytes@.len() as int);
                assert forall|e: RegionView| #[trigger] before.to_set().contains(e) implies !region_meets(
                    e,
                    m.base as int,
                    m.bytes@.len() as int,
                ) by {
                    if !rs.to_set().contains(e) {
                        let rest = os.skip(k + 1);
                        assert(rest.to_set().contains(e));
                        let q = choose|q: int| 0 <= q < rest.len() && rest[q] == e;
                        assert(rest[q] == os[k + 1 + q]);
                        assert(region_end(os[k as int]) <= os[k + 1 + q].base);
                    }
                }
                assert(other@.regions =~= os.take(k as int));
                assert(regions_wf(other@.regions));
            }
            self.insert_mapping(m);
            proof {
                assert(os.skip(k as int) =~= seq![os[k as int]] + os.skip(k + 1));
                lemma_to_set_cons(os[k as int], os.skip(k + 1));
                assert(self@.regions.to_set() =~= rs.to_set() + os.skip(k as int).to_set());
            }
        }
        proof {
            assert(os.skip(0) =~= os);
        }
        let mut a: usize = 0;
        assert(alloc_map(other.allocations@) == oa);
        let other_allocations = other.allocations;
        while a < other_allocations.len()
            invariant
                other_next == on,
                self.wf(),
                self@.regions.to_set() == rs.to_set() + os.to_set(),
                self@.next_allocation == old(self)@.next_allocation,
                distinct_keys(other_allocations@),
                alloc_map(other_allocations@) == oa,
                a <= other_allocations@.len(),
                self@.allocations == old(self)@.allocations.union_prefer_right(
                    alloc_map(other_allocations@.take(a as int)),
                ),
            decreases other_allocations@.len() - a,
        {
            let (key, value) = other_allocations[a];
            match self.find_allocation(key) {
                Some(i) => {
                    proof {
                        lemma_alloc_map_update(self.allocations@, i as int, value);
                    }
                    self.allocations.set(i, (key, value));
                },
                None => {
                    proof {
                        lemma_alloc_map_push(self.allocations@, key, value);
                    }
                    self.allocations.push((key, value));
                },
            }
            proof {
                let t0 = other_allocations@.take(a as int);
                let t1 = other_allocations@.take(a + 1);
                assert(t1 =~= t0.push((key, value)));
                assert(!alloc_map(t0).contains_key(key)) by {
                    if alloc_map(t0).contains_key(key) {
                        let q = choose|q: int| 0 <= q < t0.len() && #[trigger] t0[q].0 == key;
                        assert(other_allocations@[q].0 != other_allocations@[a as int].0);
                    }
                }
                assert forall|q: int, w: int| 0 <= q < w < t0.len() implies (#[trigger] t0[q]).0 != (
                #[trigger] t0[w]).0 by {
                    assert(other_allocations@[q].0 != other_allocations@[w].0);
                }
                lemma_alloc_map_push(t0, key, value);
                assert(self@.allocations =~= old(self)@.allocations.union_prefer_right(alloc_map(t1)));
            }
            a = a + 1;
        }
        proof {
            assert(other_allocations@.take(other_allocations@.len() as int) =~= other_allocations@);
        }
        if self.next_allocation < other_next {
            self.next_allocation = other_next;
        }
        assert(self@.regions.to_set() == old(self)@.regions.to_set() + os.to_set());
        assert(self@.allocations == old(self)@.allocations.union_prefer_right(oa));
        assert(!exists|j: int|
            0 <= j < os.len() && #[trigger] overlaps(
                old(self)@.regions,
                os[j].base as int,
                os[j].bytes.len() as int,
            ));
        Ok(())
    }

    /// Maps `size` zero bytes at `base` with every right.
    pub fn map_zeroed(&mut self, base: Guest64Addr, size: Guest64USize) -> (r: Result<(), &'static str>)
        requires
            old(self).wf(),
        ensures
            final(self).wf(),
            map_outcome(old(self)@, final(self)@, base, size, Permissions(7), r),
    {
        self.map_zeroed_with_permissions(base, size, Permissions::read_write_execute())
    }

    /// Maps `size` zero bytes at `base` with the rights `permissions`,
    /// unless that range overflows or meets an existing mapping.
    pub fn map_zeroed_with_permissions(
        &mut self,
        base: Guest64Addr,
        size: Guest64USize,
        permissions: Permissions,
    ) -> (r: Result<(), &'static str>)
        requires
            old(self).wf(),
        ensures
            final(self).wf(),
            map_outcome(old(self)@, final(self)@, base, size, permissions, r),
    {
        let ghost rs = self@.regions;
        if size > usize::MAX as u64 {
            return Err("64-bit mapping is too large for this host");
        }
        let size_usize = size as usize;
        let end = match base.checked_add(size) {
            Some(end) => end,
            None => {
                return Err("64-bit mapping overflows");
            },
        };
        if size == 0 {
            return Ok(());
        }
        proof {
            lemma_floor_props(rs, base as int);
        }
        let count = self.regions.len();
        let next = match self.floor(base) {
            Some(f) => {
                assert(self@.regions[f as int] == self.regions@[f as int].view());
                let previous_end = self.regions[f].base + self.regions[f].bytes.len() as u64;
                if previous_end > base {
                    assert(rs[f as int].base < base + size && base < region_end(rs[f as int]));
                    return Err("64-bit mapping overlaps an existing mapping");
                }
                f + 1
            },
            None => 0,
        };
        if next < self.regions.len() && self.regions[next].base < end {
            assert(self@.regions[next as int] == self.regions@[next as int].view());
            assert(rs[next as int].base < base + size && base < region_end(rs[next as int]));
            return Err("64-bit mapping overlaps an existing mapping");
        }
        proof {
            assert forall|i: int| 0 <= i < rs.len() implies !(#[trigger] rs[i].base < base + size
                && base < region_end(rs[i])) by {
                if i < next {
                    if i < next - 1 {
                        assert(region_end(rs[i]) <= rs[next - 1].base);
                    }
                } else if i > next {
                    assert(region_end(rs[next as int]) <= rs[i].base);
                }
            }
        }
        let bytes = zeroed_vec(size_usize);
        let mapping = Mapping { base, bytes, permissions };
        let ghost before = self.regions@;
        self.regions.insert(next, mapping);
        proof {
            let rv = RegionView { base, bytes: zeros(size as int), permissions };
            assert(mapping.view() == rv);
            assert(self@.regions =~= rs.insert(next as int, rv));
            lemma_insert_wf(rs, rv);
        }
        Ok(())
    }

    /// Writes `data` from `base` on, one mapping at a time, into mappings
    /// that grant `needed`; `access` names the fault when one does not.
    /// Stops at the first bad address, leaving what came before it written.
    fn write_bytes_checked(
        &mut self,
        base: u64,
        data: &[u8],
        needed: Permissions,
        access: AccessType,
        oob_message: &'static str,
    ) -> (r: Result<(), &'static str>)
        requires
            old(self).wf(),
        ensures
            final(self).wf(),
            final(self)@.allocations == old(self)@.allocations,
            final(self)@.next_allocation == old(self)@.next_allocation,
            r is Ok <==> range_ok(old(self)@.regions, base as int, data@.len() as int, needed.bits()),
            r is Ok ==> final(self)@.regions == write_spec(
                old(self)@.regions,
                base as int,
                data@,
                data@.len() as int,
            ),
            r matches Err(e) ==> exists|k: int|
                0 <= k < data@.len() && range_ok(old(self)@.regions, base as int, k, needed.bits())
                    && !addr_ok(old(self)@.regions, base + k, needed.bits()) && e@
                    == fault_message(
                    old(self)@.regions,
                    base + k,
                    needed.bits(),
                    protection_message(access),
                    oob_message@,
                ) && final(self)@.regions == write_spec(old(self)@.regions, base as int, data@, k),
    {
        let ghost rs = self@.regions;
        let ghost p = needed.bits();
        proof {
            lemma_write_spec_empty(rs, base as int, data@);
            lemma_write_spec_wf(rs, base as int, data@, 0);
        }
        let mut address = base;
        let mut done: usize = 0;
        while done < data.len()
            invariant
                self.wf(),
                self@.allocations == old(self)@.allocations,
                self@.next_allocation == old(self)@.next_allocation,
                rs == old(self)@.regions,
                regions_wf(rs),
                p == needed.bits(),
                done <= data@.len(),
                address == base + done,
                range_ok(rs, base as int, done as int, p),
                self@.regions == write_spec(rs, base as int, data@, done as int),
            decreases data@.len() - done,
        {
            let ghost got = done as int;
            proof {
                lemma_write_spec_wf(rs, base as int, data@, got);
                lemma_floor_props(rs, address as int);
                lemma_floor_same_bases(self@.regions, rs, address as int);
            }
            let f = match self.floor(address) {
                Some(f) => f,
                None => {
                    proof {
                        lemma_first_fault(rs, base as int, got, data@.len() as int, p);
                    }
                    return Err("64-bit memory is unmapped");
                },
            };
            let region_base = self.regions[f].base;
            let length = self.regions[f].bytes.len();
            assert(self@.regions[f as int] == self.regions@[f as int].view());
            assert(self@.regions[f as int].permissions == rs[f as int].permissions);
            assert(self@.regions[f as int].bytes.len() == rs[f as int].bytes.len());
            if !self.regions[f].permissions.contains(needed) {
                proof {
                    lemma_first_fault(rs, base as int, got, data@.len() as int, p);
                }
                return Err(
                    match access {
                        AccessType::Read => "64-bit memory read protection fault",
                        AccessType::Write => "64-bit memory write protection fault",
                        AccessType::Execute => "64-bit memory execute protection fault",
                    },
                );
            }
            if address - region_base > usize::MAX as u64 {
                proof {
                    lemma_first_fault(rs, base as int, got, data@.len() as int, p);
                }
                return Err("64-bit memory offset overflows host usize");
            }
            let offset = (address - region_base) as usize;
            let available = length.saturating_sub(offset);
            let wanted = data.len() - done;
            let count = if available < wanted { available } else { wanted };
            if count == 0 {
                proof {
                    lemma_first_fault(rs, base as int, got, data@.len() as int, p);
                }
                return Err(oob_message);
            }
            let mut t: usize = 0;
            while t < count
                invariant
                    self.wf(),
                    self@.allocations == old(self)@.allocations,
                    self@.next_allocation == old(self)@.next_allocation,
                    rs == old(self)@.regions,
                    regions_wf(rs),
                    p == needed.bits(),
                    0 <= f < rs.len(),
                    f < self.regions@.len(),
                    rs[f as int].base == region_base,
                    rs[f as int].permissions.bits() & p == p,
                    offset + count <= rs[f as int].bytes.len(),
                    rs[f as int].bytes.len() <= usize::MAX,
                    address == base + got,
                    address == region_base + offset,
                    got + count <= data@.len(),
                    t <= count,
                    done == got + t,
                    range_ok(rs, base as int, got + t, p),
                    self@.regions == write_spec(rs, base as int, data@, got + t),
                decreases count - t,
            {
                proof {
                    let a = base + got + t;
                    lemma_floor_within(rs, f as int, a);
                    assert(addr_ok(rs, a, p));
                    assert forall|k: int| 0 <= k < got + t + 1 implies #[trigger] addr_ok(
                        rs,
                        base + k,
                        p,
                    ) by {
                        if k == got + t {
                            assert(base + k == a);
                        }
                    }
                    lemma_write_spec_step(rs, base as int, data@, got + t, f as int, offset + t);
                    lemma_write_spec_wf(rs, base as int, data@, got + t);
                    lemma_write_spec_wf(rs, base as int, data@, got + t + 1);
                }
                let ghost before = self.regions@;
                let byte = data[done];
                self.regions[f].bytes.set(offset + t, byte);
                proof {
                    assert(self.regions@ == before.update(f as int, self.regions@[f as int]));
                    assert(self@.regions =~~= write_spec(rs, base as int, data@, got + t + 1));
                }
                t = t + 1;
                done = done + 1;
            }
            address = address + count as u64;
        }
        Ok(())
    }

    /// Whether all `size` bytes from `base` on lie in mappings that grant
    /// the right `access` needs, crossing from one mapping into the next
    /// where they touch.
    pub fn range_allows(&self, base: Guest64Addr, size: Guest64USize, access: AccessType) -> (r: bool)
        requires
            self.wf(),
        ensures
            r == range_ok(self@.regions, base as int, size as int, access_bits(access)),
    {
        let ghost rs = self@.regions;
        let needed = access.permission();
        let ghost p = needed.bits();
        let mut done: u64 = 0;
        while done < size
            invariant
                self.wf(),
                rs == self@.regions,
                regions_wf(rs),
                p == needed.bits(),
                p == access_bits(access),
                done <= size,
                range_ok(rs, base as int, done as int, p),
            decreases size - done,
        {
            let ghost got = done as int;
            if base > u64::MAX - done {
                proof {
                    lemma_floor_props(rs, base + got);
                    assert(!addr_ok(rs, base + got, p));
                    lemma_first_fault(rs, base as int, got, size as int, p);
                }
                return false;
            }
            let address = base + done;
            proof {
                lemma_floor_props(rs, address as int);
            }
            let f = match self.floor(address) {
                Some(f) => f,
                None => {
                    proof {
                        lemma_first_fault(rs, base as int, got, size as int, p);
                    }
                    return false;
                },
            };
            let region_base = self.regions[f].base;
            let length = self.regions[f].bytes.len();
            assert(self@.regions[f as int] == self.regions@[f as int].view());
            if !self.regions[f].permissions.contains(needed) {
                proof {
                    lemma_first_fault(rs, base as int, got, size as int, p);
                }
                return false;
            }
            let offset = address - region_base;
            if offset >= length as u64 {
                proof {
                    lemma_first_fault(rs, base as int, got, size as int, p);
                }
                return false;
            }
            let available = length as u64 - offset;
            let wanted = size - done;
            let count = if available < wanted { available } else { wanted };
            proof {
                assert forall|k: int| 0 <= k < got + count implies #[trigger] addr_ok(
                    rs,
                    base + k,
                    p,
                ) by {
                    if k >= got {
                        lemma_floor_within(rs, f as int, base + k);
                    }
                }
            }
            done = done + count;
        }
        true
    }

    /// Writes `bytes` from `base` on into mappings that grant the right
    /// `access` needs, crossing from one mapping into the next where they
    /// touch. On a fault the bytes before the bad address stay written.
    pub fn write_bytes_with_access(&mut self, base: Guest64Addr, bytes: &[u8], access: AccessType) -> (r:
        Result<(), &'static str>)
        requires
            old(self).wf(),
        ensures
            final(self).wf(),
            write_outcome(
                old(self)@,
                final(self)@,
                base as int,
                bytes@,
                access_bits(access),
                protection_message(access),
                "64-bit memory write is out of bounds"@,
                r,
            ),
    {
        if bytes.len() == 0 {
            proof {
                lemma_write_spec_empty(self@.regions, base as int, bytes@);
            }
            return Ok(());
        }
        let needed = access.permission();
        self.write_bytes_checked(base, bytes, needed, access, "64-bit memory write is out of bounds")
    }

    /// Writes `bytes` from `base` on into writable mappings.
    pub fn write_bytes(&mut self, base: Guest64Addr, bytes: &[u8]) -> (r: Result<(), &'static str>)
        requires
            old(self).wf(),
        ensures
            final(self).wf(),
            write_outcome(
                old(self)@,
                final(self)@,
                base as int,
                bytes@,
                2,
                "64-bit memory write protection fault"@,
                "64-bit memory write is out of bounds"@,
                r,
            ),
    {
        self.write_bytes_with_access(base, bytes, AccessType::Write)
    }

    /// Copies `bytes` into mapped memory from `base` on whatever the
    /// mappings' rights are, as a loader does.
    pub fn load_bytes(&mut self, base: Guest64Addr, bytes: &[u8]) -> (r: Result<(), &'static str>)
        requires
            old(self).wf(),
        ensures
            final(self).wf(),
            write_outcome(
                old(self)@,
                final(self)@,
                base as int,
                bytes@,
                0,
                "64-bit memory write protection fault"@,
                "64-bit memory load is out of bounds"@,
                r,
            ),
    {
        if bytes.len() == 0 {
            proof {
                lemma_write_spec_empty(self@.regions, base as int, bytes@);
            }
            return Ok(());
        }
        let needed = Permissions::none();
        self.write_bytes_checked(base, bytes, needed, AccessType::Write, "64-bit memory load is out of bounds")
    }

    /// Stores `value` little-endian at `address` whatever the mapping's
    /// rights are.
    pub fn load_u64(&mut self, address: Guest64Addr, value: u64) -> (r: Result<(), &'static str>)
        requires
            old(self).wf(),
        ensures
            final(self).wf(),
            write_outcome(
                old(self)@,
                final(self)@,
                address as int,
                spec_u64_to_le_bytes(value),
                0,
                "64-bit memory write protection fault"@,
                "64-bit memory load is out of bounds"@,
                r,
            ),
    {
        let bytes = u64_to_le_bytes(value);
        self.load_bytes(address, bytes.as_slice())
    }

    /// Reads `size` bytes from `base` on out of readable mappings.
    pub fn read_bytes(&self, base: Guest64Addr, size: Guest64USize) -> (r: Result<Vec<u8>, &'static str>)
        requires
            self.wf(),
        ensures
            size > usize::MAX ==> (r matches Err(e) && e@ == "64-bit read is too large for this host"@),
            size <= usize::MAX ==> {
                &&& (r is Ok <==> range_ok(self@.regions, base as int, size as int, 1))
                &&& (r matches Ok(v) ==> v@ == bytes_at(self@.regions, base as int, size as int))
                &&& (r matches Err(e) ==> read_fault(
                    self@.regions,
                    base as int,
                    size as int,
                    1,
                    "64-bit memory read protection fault"@,
                    e@,
                ))
            },
    {
        if size > usize::MAX as u64 {
            return Err("64-bit read is too large for this host");
        }
        self.read_bytes_with_access(base, size as usize, AccessType::Read)
    }

    /// Reads one byte.
    pub fn read_u8(&self, addr: Guest64Addr) -> (r: Result<u8, &'static str>)
        requires
            self.wf(),
        ensures
            r is Ok <==> range_ok(self@.regions, addr as int, 1, 1),
            r matches Ok(v) ==> v == byte_at(self@.regions, addr as int),
            r matches Err(e) ==> read_fault(
                self@.regions,
                addr as int,
                1,
                1,
                "64-bit memory read protection fault"@,
                e@,
            ),
    {
        let bytes = self.read_bytes_with_access(addr, 1, AccessType::Read)?;
        Ok(bytes[0])
    }

    /// Reads a little-endian `u16`.
    pub fn read_u16(&self, addr: Guest64Addr) -> (r: Result<u16, &'static str>)
        requires
            self.wf(),
        ensures
            r is Ok <==> range_ok(self@.regions, addr as int, 2, 1),
            r matches Ok(v) ==> v == spec_u16_from_le_bytes(bytes_at(self@.regions, addr as int, 2)),
            r matches Err(e) ==> read_fault(
                self@.regions,
                addr as int,
                2,
                1,
                "64-bit memory read protection fault"@,
                e@,
            ),
    {
        let bytes = self.read_bytes_with_access(addr, 2, AccessType::Read)?;
        Ok(u16_from_le_bytes(bytes.as_slice()))
    }

    /// Reads a little-endian `u32`.
    pub fn read_u32(&self, addr: Guest64Addr) -> (r: Result<u32, &'static str>)
        requires
            self.wf(),
        ensures
            r is Ok <==> range_ok(self@.regions, addr as int, 4, 1),
            r matches Ok(v) ==> v == spec_u32_from_le_bytes(bytes_at(self@.regions, addr as int, 4)),
            r matches Err(e) ==> read_fault(
                self@.regions,
                addr as int,
                4,
                1,
                "64-bit memory read protection fault"@,
                e@,
            ),
    {
        let bytes = self.read_bytes_with_access(addr, 4, AccessType::Read)?;
        Ok(u32_from_le_bytes(bytes.as_slice()))
    }

    /// Fetches a little-endian instruction word from executable memory.
    pub fn read_code_u32(&self, addr: Guest64Addr) -> (r: Result<u32, &'static str>)
        requires
            self.wf(),
        ensures
            r is Ok <==> range_ok(self@.regions, addr as int, 4, 4),
            r matches Ok(v) ==> v == spec_u32_from_le_bytes(bytes_at(self@.regions, addr as int, 4)),
            r matches Err(e) ==> read_fault(
                self@.regions,
                addr as int,
                4,
                4,
                "64-bit memory execute protection fault"@,
                e@,
            ),
    {
        let bytes = self.read_bytes_with_access(addr, 4, AccessType::Execute)?;
        Ok(u32_from_le_bytes(bytes.as_slice()))
    }

    /// Reads a little-endian `u64`.
    pub fn read_u64(&self, addr: Guest64Addr) -> (r: Result<u64, &'static str>)
        requires
            self.wf(),
        ensures
            r is Ok <==> range_ok(self@.regions, addr as int, 8, 1),
            r matches Ok(v) ==> v == spec_u64_from_le_bytes(bytes_at(self@.regions, addr as int, 8)),
            r matches Err(e) ==> read_fault(
                self@.regions,
                addr as int,
                8,
                1,
                "64-bit memory read protection fault"@,
                e@,
            ),
    {
        let bytes = self.read_bytes_with_access(addr, 8, AccessType::Read)?;
        Ok(u64_from_le_bytes(bytes.as_slice()))
    }

    /// Reads 16 bytes as two little-endian `u64` words, low word first.
    pub fn read_u128(&self, addr: Guest64Addr) -> (r: Result<[u64; 2], &'static str>)
        requires
            self.wf(),
        ensures
            r is Ok <==> range_ok(self@.regions, addr as int, 16, 1),
            r matches Ok(v) ==> v@[0] == spec_u64_from_le_bytes(
                bytes_at(self@.regions, addr as int, 8),
            ) && v@[1] == spec_u64_from_le_bytes(bytes_at(self@.regions, addr + 8, 8)),
            r matches Err(e) ==> read_fault(
                self@.regions,
                addr as int,
                16,
                1,
                "64-bit memory read protection fault"@,
                e@,
            ),
    {
        let bytes = self.read_bytes_with_access(addr, 16, AccessType::Read)?;
        let low = u64_from_le_bytes(slice_range(bytes.as_slice(), 0, 8));
        let high = u64_from_le_bytes(slice_range(bytes.as_slice(), 8, 16));
        proof {
            let all = bytes_at(self@.regions, addr as int, 16);
            assert(all.subrange(0, 8) =~= bytes_at(self@.regions, addr as int, 8));
            assert(all.subrange(8, 16) =~= bytes_at(self@.regions, addr + 8, 8));
        }
        Ok([low, high])
    }

    /// Writes one byte into writable memory.
    pub fn write_u8(&mut self, addr: Guest64Addr, value: u8) -> (r: Result<(), &'static str>)
        requires
            old(self).wf(),
        ensures
            final(self).wf(),
            write_outcome(
                old(self)@,
                final(self)@,
                addr as int,
                seq![value],
                2,
                "64-bit memory write protection fault"@,
                "64-bit memory write is out of bounds"@,
                r,
            ),
    {
        let bytes = vec![value];
        assert(bytes@ =~= seq![value]);
        self.write_bytes_with_access(addr, bytes.as_slice(), AccessType::Write)
    }

    /// Writes a little-endian `u16` into writable memory.
    pub fn write_u16(&mut self, addr: Guest64Addr, value: u16) -> (r: Result<(), &'static str>)
        requires
            old(self).wf(),
        ensures
            final(self).wf(),
            write_outcome(
                old(self)@,
                final(self)@,
                addr as int,
                spec_u16_to_le_bytes(value),
                2,
                "64-bit memory write protection fault"@,
                "64-bit memory write is out of bounds"@,
                r,
            ),
    {
        let bytes = u16_to_le_bytes(value);
        self.write_bytes_with_access(addr, bytes.as_slice(), AccessType::Write)
    }

    /// Writes a little-endian `u32` into writable memory.
    pub fn write_u32(&mut self, addr: Guest64Addr, value: u32) -> (r: Result<(), &'static str>)
        requires
            old(self).wf(),
        ensures
            final(self).wf(),
            write_outcome(
                old(self)@,
                final(self)@,
                addr as int,
                spec_u32_to_le_bytes(value),
                2,
                "64-bit memory write protection fault"@,
                "64-bit memory write is out of bounds"@,
                r,
            ),
    {
        let bytes = u32_to_le_bytes(value);
        self.write_bytes_with_access(addr, bytes.as_slice(), AccessType::Write)
    }

    /// Writes a little-endian `u64` into writable memory.
    pub fn write_u64(&mut self, addr: Guest64Addr, value: u64) -> (r: Result<(), &'static str>)
        requires
            old(self).wf(),
        ensures
            final(self).wf(),
            write_outcome(
                old(self)@,
                final(self)@,
                addr as int,
                spec_u64_to_le_bytes(value),
                2,
                "64-bit memory write protection fault"@,
                "64-bit memory write is out of bounds"@,
                r,
            ),
    {
        let bytes = u64_to_le_bytes(value);
        self.write_bytes_with_access(addr, bytes.as_slice(), AccessType::Write)
    }

    /// Writes two `u64` words little-endian, low word first, into writable
    /// memory.
    pub fn write_u128(&mut self, addr: Guest64Addr, value: [u64; 2]) -> (r: Result<(), &'static str>)
        requires
            old(self).wf(),
        ensures
            final(self).wf(),
            write_outcome(
                old(self)@,
                final(self)@,
                addr as int,
                spec_u64_to_le_bytes(value@[0]) + spec_u64_to_le_bytes(value@[1]),
                2,
                "64-bit memory write protection fault"@,
                "64-bit memory write is out of bounds"@,
                r,
            ),
    {
        let mut bytes = u64_to_le_bytes(value[0]);
        let mut high = u64_to_le_bytes(value[1]);
        bytes.append(&mut high);
        self.write_bytes_with_access(addr, bytes.as_slice(), AccessType::Write)
    }

    /// Stores `value` into the `size` bytes from `base` on, one writable
    /// mapping at a time. Stops at the first bad address, leaving what came
    /// before it filled.
    fn fill_chunks(&mut self, base: u64, value: u8, size: usize) -> (r: Result<(), &'static str>)
        requires
            old(self).wf(),
            !fill_panics(old(self)@.regions, base as int, size as int),
        ensures
            final(self).wf(),
            final(self)@.allocations == old(self)@.allocations,
            final(self)@.next_allocation == old(self)@.next_allocation,
            r is Ok <==> range_ok(old(self)@.regions, base as int, size as int, 2),
            r is Ok ==> final(self)@.regions == write_spec(
                old(self)@.regions,
                base as int,
                fill_data(value, size as int),
                size as int,
            ),
            r matches Err(e) ==> exists|k: int|
                0 <= k < size && range_ok(old(self)@.regions, base as int, k, 2)
                    && !addr_ok(old(self)@.regions, base + k, 2) && e@
                    == fault_message(
                    old(self)@.regions,
                    base + k,
                    2,
                    "64-bit memory write protection fault"@,
                    "64-bit memory fill is out of bounds"@,
                ) && final(self)@.regions == write_spec(old(self)@.regions, base as int, fill_data(value, size as int), k),
    {
        let ghost rs = self@.regions;
        let ghost p: u8 = 2;
        let needed = Permissions::write();
        proof {
            lemma_write_spec_empty(rs, base as int, fill_data(value, size as int));
            lemma_write_spec_wf(rs, base as int, fill_data(value, size as int), 0);
        }
        let mut address = base;
        let mut done: usize = 0;
        while done < size
            invariant
                self.wf(),
                self@.allocations == old(self)@.allocations,
                self@.next_allocation == old(self)@.next_allocation,
                rs == old(self)@.regions,
                regions_wf(rs),
                p == 2,
                needed.bits() == 2,
                !fill_panics(rs, base as int, size as int),
                done <= size,
                address == base + done,
                range_ok(rs, base as int, done as int, p),
                self@.regions == write_spec(rs, base as int, fill_data(value, size as int), done as int),
            decreases size - done,
        {
            let ghost got = done as int;
            proof {
                lemma_write_spec_wf(rs, base as int, fill_data(value, size as int), got);
                lemma_floor_props(rs, address as int);
                lemma_floor_same_bases(self@.regions, rs, address as int);
            }
            let f = match self.floor(address) {
                Some(f) => f,
                None => {
                    proof {
                        lemma_first_fault(rs, base as int, got, size as int, p);
                    }
                    return Err("64-bit memory is unmapped");
                },
            };
            let region_base = self.regions[f].base;
            let length = self.regions[f].bytes.len();
            assert(self@.regions[f as int] == self.regions@[f as int].view());
            assert(self@.regions[f as int].permissions == rs[f as int].permissions);
            assert(self@.regions[f as int].bytes.len() == rs[f as int].bytes.len());
            if !self.regions[f].permissions.contains(needed) {
                proof {
                    lemma_first_fault(rs, base as int, got, size as int, p);
                }
                return Err("64-bit memory write protection fault");
            }
            if address - region_base > usize::MAX as u64 {
                proof {
                    lemma_first_fault(rs, base as int, got, size as int, p);
                }
                return Err("64-bit memory offset overflows host usize");
            }
            let offset = (address - region_base) as usize;
            let available = length.saturating_sub(offset);
            let wanted = size - done;
            let count = if available < wanted { available } else { wanted };
            if count == 0 {
                proof {
                    lemma_first_fault(rs, base as int, got, size as int, p);
                    assert(offset == length);
                }
                return Err("64-bit memory fill is out of bounds");
            }
            let mut t: usize = 0;
            while t < count
                invariant
                    self.wf(),
                    self@.allocations == old(self)@.allocations,
                    self@.next_allocation == old(self)@.next_allocation,
                    rs == old(self)@.regions,
                    regions_wf(rs),
                    p == 2,
                needed.bits() == 2,
                !fill_panics(rs, base as int, size as int),
                    0 <= f < rs.len(),
                    f < self.regions@.len(),
                    rs[f as int].base == region_base,
                    rs[f as int].permissions.bits() & p == p,
                    offset + count <= rs[f as int].bytes.len(),
                    rs[f as int].bytes.len() <= usize::MAX,
                    address == base + got,
                    address == region_base + offset,
                    got + count <= size,
                    t <= count,
                    done == got + t,
                    range_ok(rs, base as int, got + t, p),
                    self@.regions == write_spec(rs, base as int, fill_data(value, size as int), got + t),
                decreases count - t,
            {
                proof {
                    let a = base + got + t;
                    lemma_floor_within(rs, f as int, a);
                    assert(addr_ok(rs, a, p));
                    assert forall|k: int| 0 <= k < got + t + 1 implies #[trigger] addr_ok(
                        rs,
                        base + k,
                        p,
                    ) by {
                        if k == got + t {
                            assert(base + k == a);
                        }
                    }
                    lemma_write_spec_step(rs, base as int, fill_data(value, size as int), got + t, f as int, offset + t);
                    lemma_write_spec_wf(rs, base as int, fill_data(value, size as int), got + t);
                    lemma_write_spec_wf(rs, base as int, fill_data(value, size as int), got + t + 1);
                }
                let ghost before = self.regions@;
                self.regions[f].bytes.set(offset + t, value);
                proof {
                    assert(self.regions@ == before.update(f as int, self.regions@[f as int]));
                    assert(self@.regions =~~= write_spec(rs, base as int, fill_data(value, size as int), got + t + 1));
                }
                t = t + 1;
                done = done + 1;
            }
            address = address + count as u64;
        }
        Ok(())
    }

    /// Reads `size` bytes from `base` on with the right that `access` needs,
    /// crossing from one mapping into the next where they touch.
    fn read_bytes_with_access(&self, base: u64, size: usize, access: AccessType) -> (r: Result<
        Vec<u8>,
        &'static str,
    >)
        requires
            self.wf(),
        ensures
            r is Ok <==> range_ok(self@.regions, base as int, size as int, access_bits(access)),
            r matches Ok(v) ==> v@ == bytes_at(self@.regions, base as int, size as int),
            r matches Err(e) ==> read_fault(
                self@.regions,
                base as int,
                size as int,
                access_bits(access),
                protection_message(access),
                e@,
            ),
    {
        let ghost rs = self@.regions;
        let ghost p = access_bits(access);
        let mut bytes: Vec<u8> = Vec::new();
        if size == 0 {
            assert(bytes@ =~= bytes_at(rs, base as int, 0));
            return Ok(bytes);
        }
        let needed = access.permission();
        let mut address = base;
        while bytes.len() < size
            invariant
                self.wf(),
                rs == self@.regions,
                p == access_bits(access),
                needed.bits() == p,
                bytes.len() <= size,
                address == base + bytes.len(),
                range_ok(rs, base as int, bytes.len() as int, p),
                bytes@ =~= bytes_at(rs, base as int, bytes.len() as int),
            decreases size - bytes.len(),
        {
            let ghost got = bytes.len() as int;
            proof {
                lemma_floor_props(rs, address as int);
            }
            let f = match self.floor(address) {
                Some(f) => f,
                None => {
                    proof {
                        lemma_first_fault(rs, base as int, got, size as int, p);
                    }
                    return Err("64-bit memory is unmapped");
                },
            };
            let region_base = self.regions[f].base;
            let length = self.regions[f].bytes.len();
            assert(self.regions@[f as int].bytes@ == rs[f as int].bytes);
            if !self.regions[f].permissions.contains(needed) {
                proof {
                    lemma_first_fault(rs, base as int, got, size as int, p);
                }
                return Err(
                    match access {
                        AccessType::Read => "64-bit memory read protection fault",
                        AccessType::Write => "64-bit memory write protection fault",
                        AccessType::Execute => "64-bit memory execute protection fault",
                    },
                );
            }
            if address - region_base > usize::MAX as u64 {
                proof {
                    lemma_first_fault(rs, base as int, got, size as int, p);
                }
                return Err("64-bit memory offset overflows host usize");
            }
            let offset = (address - region_base) as usize;
            let available = length.saturating_sub(offset);
            let wanted = size - bytes.len();
            let count = if available < wanted { available } else { wanted };
            if count == 0 {
                proof {
                    lemma_first_fault(rs, base as int, got, size as int, p);
                }
                return Err("64-bit memory read is out of bounds");
            }
            let mut t: usize = 0;
            while t < count
                invariant
                    self.wf(),
                    rs == self@.regions,
                    p == access_bits(access),
                    0 <= f < rs.len(),
                    rs[f as int].base == region_base,
                    rs[f as int].permissions.bits() & p == p,
                    offset + count <= rs[f as int].bytes.len(),
                    rs[f as int].bytes.len() <= usize::MAX,
                    address == base + got,
                    address == region_base + offset,
                    got + count <= size,
                    t <= count,
                    bytes.len() == got + t,
                    range_ok(rs, base as int, got + t, p),
                    bytes@ =~= bytes_at(rs, base as int, got + t),
                decreases count - t,
            {
                let byte = self.regions[f].bytes[offset + t];
                proof {
                    let a = base + got + t;
                    lemma_floor_within(rs, f as int, a);
                    assert(addr_ok(rs, a, p));
                    assert forall|k: int| 0 <= k < got + t + 1 implies #[trigger] addr_ok(
                        rs,
                        base + k,
                        p,
                    ) by {
                        if k == got + t {
                            assert(base + k == a);
                        }
                    }
                }
                bytes.push(byte);
                t = t + 1;
            }
            address = address + count as u64;
        }
        Ok(bytes)
    }
}

} // verus!

//! Properties of the 64-bit address space that hold across its operations.
use crate::mem64::{
    addr_ok, alloc_fit, byte_at, bytes_at, fault_message, floor_index, lemma_alloc_fit_free,
    lemma_floor_props, lemma_floor_same_bases, lemma_floor_within, lemma_insert_wf,
    lemma_write_spec_empty, lemma_write_spec_wf, overlaps, range_ok, region_end, regions_wf,
    write_outcome, write_spec, zeros, align16, alloc_block_size, Mem64View, Permissions, RegionView,
};
use vstd::bytes::*;
use vstd::prelude::*;

verus! {

/// After a write of `data` at `base` succeeds, the bytes at
/// `base..base + data.len()` are `data`.
pub proof fn law_read_after_write(old: Mem64View, new: Mem64View, base: int, data: Seq<u8>, p: u8)
    requires
        regions_wf(old.regions),
        range_ok(old.regions, base, data.len() as int, p),
        new.regions == write_spec(old.regions, base, data, data.len() as int),
    ensures
        bytes_at(new.regions, base, data.len() as int) == data,
        range_ok(new.regions, base, data.len() as int, p),
{
    let rs = old.regions;
    let n = data.len() as int;
    lemma_write_spec_wf(rs, base, data, n);
    assert forall|k: int| 0 <= k < n implies #[trigger] addr_ok(new.regions, base + k, p) && byte_at(
        new.regions,
        base + k,
    ) == data[k] by {
        let a = base + k;
        assert(addr_ok(rs, base + k, p));
        lemma_floor_same_bases(new.regions, rs, a);
        lemma_floor_props(rs, a);
        let f = floor_index(rs, a);
        let w = write_spec(rs, base, data, n);
        assert(w[f].bytes.len() == rs[f].bytes.len());
        assert(w[f].base == rs[f].base);
        assert(w[f].bytes[a - rs[f].base] == data[k]);
    }
    assert forall|k: int| 0 <= k < n implies #[trigger] bytes_at(new.regions, base, n)[k] == data[k] by {
        assert(addr_ok(new.regions, base + k, p));
    }
    assert(bytes_at(new.regions, base, n) =~= data);
}

/// A write leaves every byte outside its range as it was, and moves,
/// resizes or re-protects no mapping.
pub proof fn law_write_is_local(rs: Seq<RegionView>, base: int, data: Seq<u8>, n: int, a: int)
    requires
        regions_wf(rs),
        addr_ok(rs, a, 0),
        !(base <= a < base + n),
    ensures
        byte_at(write_spec(rs, base, data, n), a) == byte_at(rs, a),
        write_spec(rs, base, data, n).len() == rs.len(),
        forall|i: int|
            0 <= i < rs.len() ==> (#[trigger] write_spec(rs, base, data, n)[i]).base == rs[i].base
                && write_spec(rs, base, data, n)[i].permissions == rs[i].permissions
                && write_spec(rs, base, data, n)[i].bytes.len() == rs[i].bytes.len(),
{
    lemma_write_spec_wf(rs, base, data, n);
    let w = write_spec(rs, base, data, n);
    lemma_floor_same_bases(w, rs, a);
    lemma_floor_props(rs, a);
    let f = floor_index(rs, a);
    assert(w[f].base == rs[f].base);
    assert(w[f].bytes[a - rs[f].base] == rs[f].bytes[a - rs[f].base]);
}

/// A write into memory whose first byte may not be written fails and
/// changes nothing.
pub proof fn law_refused_write_changes_nothing(
    old: Mem64View,
    new: Mem64View,
    base: int,
    data: Seq<u8>,
    p: u8,
    access_message: Seq<char>,
    oob_message: Seq<char>,
    r: Result<(), &str>,
)
    requires
        data.len() > 0,
        !addr_ok(old.regions, base, p),
        write_outcome(old, new, base, data, p, access_message, oob_message, r),
    ensures
        r is Err,
        new.regions =~~= old.regions,
{
    assert(!addr_ok(old.regions, base + 0, p));
    if r is Ok {
        assert(range_ok(old.regions, base, data.len() as int, p));
        assert(addr_ok(old.regions, base + 0, p));
    }
    let k = choose|k: int|
        0 <= k < data.len() && range_ok(old.regions, base, k, p) && !addr_ok(
            old.regions,
            base + k,
            p,
        ) && r->Err_0@ == fault_message(old.regions, base + k, p, access_message, oob_message)
            && new.regions == write_spec(old.regions, base, data, k);
    if k > 0 {
        assert(addr_ok(old.regions, base + 0, p));
    }
    lemma_write_spec_empty(old.regions, base, data);
}

/// A `u64` written to memory reads back unchanged.
pub proof fn law_u64_round_trip(value: u64)
    ensures
        spec_u64_from_le_bytes(spec_u64_to_le_bytes(value)) == value,
        spec_u64_to_le_bytes(value).len() == 8,
{
    lemma_auto_spec_u64_to_from_le_bytes();
}

/// A `u32` written to memory reads back unchanged.
pub proof fn law_u32_round_trip(value: u32)
    ensures
        spec_u32_from_le_bytes(spec_u32_to_le_bytes(value)) == value,
        spec_u32_to_le_bytes(value).len() == 4,
{
    lemma_auto_spec_u32_to_from_le_bytes();
}

/// A freshly mapped range reads as zeros.
pub proof fn law_new_mapping_is_zero(rs: Seq<RegionView>, base: u64, size: u64, p: Permissions)
    requires
        regions_wf(rs),
        size > 0,
        base + size <= u64::MAX,
        !overlaps(rs, base as int, size as int),
    ensures
        ({
            let n = rs.insert(
                floor_index(rs, base as int) + 1,
                RegionView { base, bytes: zeros(size as int), permissions: p },
            );
            &&& regions_wf(n)
            &&& range_ok(n, base as int, size as int, 0)
            &&& bytes_at(n, base as int, size as int) == zeros(size as int)
        }),
{
    let r = RegionView { base, bytes: zeros(size as int), permissions: p };
    lemma_floor_props(rs, base as int);
    let f = floor_index(rs, base as int);
    let n = rs.insert(f + 1, r);
    lemma_insert_wf(rs, r);
    assert(n[f + 1] == r);
    assert forall|k: int| 0 <= k < size implies #[trigger] addr_ok(n, base + k, 0) && byte_at(
        n,
        base + k,
    ) == 0 by {
        lemma_floor_within(n, f + 1, base + k);
        assert(n[f + 1].bytes[k] == 0);
    }
    assert forall|k: int| 0 <= k < size implies #[trigger] bytes_at(n, base as int, size as int)[k]
        == zeros(size as int)[k] by {
        assert(addr_ok(n, base + k, 0));
    }
    assert(bytes_at(n, base as int, size as int) =~= zeros(size as int));
}

/// A block the allocator hands out meets no existing mapping, lies at or
/// above the start of the allocation area, and ends inside the 64-bit space.
pub proof fn law_allocation_is_fresh(rs: Seq<RegionView>, start: int, size: int)
    requires
        regions_wf(rs),
        alloc_fit(rs, start, size) is Some,
    ensures
        !overlaps(rs, alloc_fit(rs, start, size).unwrap(), size),
        alloc_fit(rs, start, size).unwrap() >= start,
        alloc_fit(rs, start, size).unwrap() + size <= u64::MAX,
{
    lemma_alloc_fit_free(rs, start, size);
}

/// A multiple of 16 rounded up to 16 is itself; anything rounded up to 16
/// is a multiple of 16.
proof fn lemma_align16(x: int)
    requires
        x >= 0,
    ensures
        align16(x) % 16 == 0,
        align16(x) >= x,
        x % 16 == 0 ==> align16(x) == x,
{
    assert(((x + 15) / 16 * 16) % 16 == 0) by (nonlinear_arith);
    assert((x + 15) / 16 * 16 >= x) by (nonlinear_arith)
        requires
            x >= 0,
    ;
    if x % 16 == 0 {
        assert((x + 15) / 16 * 16 == x) by (nonlinear_arith)
            requires
                x % 16 == 0,
                x >= 0,
        ;
    }
}

/// The allocator, starting its search at a multiple of 16, hands out
/// blocks at multiples of 16; and every block size is a multiple of 16, so
/// the next search starts at a multiple of 16 again.
pub proof fn law_allocations_are_aligned(rs: Seq<RegionView>, start: int, size: int)
    requires
        start % 16 == 0,
    ensures
        size >= 0 ==> alloc_block_size(size) % 16 == 0,
        alloc_fit(rs, start, size) matches Some(b) ==> b % 16 == 0 && (b + alloc_block_size(size)) % 16 == 0,
    decreases u64::MAX - start,
{
    if size >= 0 {
        lemma_align16(if size < 16 { 16 } else { size });
    }
    if start < 0 || size < 1 || start + size > u64::MAX {
    } else {
        let f = floor_index(rs, start + size - 1);
        if f >= 0 && region_end(rs[f]) > start {
            let next = align16(region_end(rs[f]));
            lemma_align16(region_end(rs[f]));
            if next > u64::MAX || next <= start {
            } else {
                law_allocations_are_aligned(rs, next, size);
            }
        }
    }
}

/// Two lists of mappings that are both in increasing order and have the
/// same members are the same list: the merge's result is pinned down by
/// its members.
pub proof fn law_sorted_regions_are_determined_by_members(a: Seq<RegionView>, b: Seq<RegionView>)
    requires
        regions_wf(a),
        regions_wf(b),
        a.to_set() == b.to_set(),
    ensures
        a == b,
    decreases a.len(),
{
    if a.len() == 0 {
        if b.len() > 0 {
            assert(b.to_set().contains(b[0]));
        }
        assert(b =~= a);
    } else if b.len() == 0 {
        assert(a.to_set().contains(a[0]));
    } else {
        assert(a.to_set().contains(a.last()));
        assert(b.to_set().contains(b.last()));
        let i = choose|i: int| 0 <= i < b.len() && b[i] == a.last();
        let j = choose|j: int| 0 <= j < a.len() && a[j] == b.last();
        if i < b.len() - 1 {
            assert(region_end(b[i]) <= b.last().base);
            if j < a.len() - 1 {
                assert(region_end(a[j]) <= a.last().base);
            }
        }
        if j < a.len() - 1 {
            assert(region_end(a[j]) <= a.last().base);
        }
        assert(a.last() == b.last());
        let a2 = a.drop_last();
        let b2 = b.drop_last();
        assert forall|e: RegionView| #[trigger] a2.to_set().contains(e) <==> b2.to_set().contains(e) by {
            if a2.to_set().contains(e) {
                let q = choose|q: int| 0 <= q < a2.len() && a2[q] == e;
                assert(region_end(a[q]) <= a.last().base);
                assert(a.to_set().contains(e));
                let w = choose|w: int| 0 <= w < b.len() && b[w] == e;
                if w == b.len() - 1 {
                    assert(e.base == a.last().base);
                }
                assert(b2[w] == e);
            }
            if b2.to_set().contains(e) {
                let q = choose|q: int| 0 <= q < b2.len() && b2[q] == e;
                assert(region_end(b[q]) <= b.last().base);
                assert(b.to_set().contains(e));
                let w = choose|w: int| 0 <= w < a.len() && a[w] == e;
                if w == a.len() - 1 {
                    assert(e.base == b.last().base);
                }
                assert(a2[w] == e);
            }
        }
        assert(a2.to_set() =~= b2.to_set());
        assert forall|x: int, y: int| 0 <= x < y < a2.len() implies region_end(#[trigger] a2[x]) <= (
        #[trigger] a2[y]).base by {
            assert(region_end(a[x]) <= a[y].base);
        }
        assert forall|x: int, y: int| 0 <= x < y < b2.len() implies region_end(#[trigger] b2[x]) <= (
        #[trigger] b2[y]).base by {
            assert(region_end(b[x]) <= b[y].base);
        }
        law_sorted_regions_are_determined_by_members(a2, b2);
        assert(a =~= a2.push(a.last()));
        assert(b =~= b2.push(b.last()));
    }
}

} // verus!

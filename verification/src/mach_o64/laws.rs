//! What holds of the bindings that a loaded image keeps, whatever the
//! tables gave.
use super::loader::{final_bindings, no_repeats, sorted_by_address};
use super::{dedup_bindings, insert_by_address, same_binding, sort_by_address, Binding64};
use vstd::prelude::*;

verus! {

broadcast use vstd::seq_lib::group_to_multiset_ensures;

/// Inserting into a sorted list keeps it sorted, and adds exactly `x`.
proof fn lemma_insert_sorted(s: Seq<Binding64>, x: Binding64)
    requires
        sorted_by_address(s),
    ensures
        sorted_by_address(insert_by_address(s, x)),
        insert_by_address(s, x).len() == s.len() + 1,
        insert_by_address(s, x).to_multiset() =~= s.to_multiset().insert(x),
        forall|k: int|
            0 <= k < insert_by_address(s, x).len() ==> #[trigger] insert_by_address(s, x)[k] == x
                || s.contains(insert_by_address(s, x)[k]),
    decreases s.len(),
{
    let r = insert_by_address(s, x);
    if s.len() == 0 || s.last().address <= x.address {
        assert forall|k: int| 0 <= k < r.len() implies #[trigger] r[k] == x || s.contains(r[k]) by {
            if k < s.len() {
                assert(r[k] == s[k]);
            }
        }
    } else {
        let t = s.drop_last();
        let rt = insert_by_address(t, x);
        assert(sorted_by_address(t)) by {
            assert forall|i: int, j: int| 0 <= i <= j < t.len() implies #[trigger] t[i].address
                <= #[trigger] t[j].address by {
                assert(t[i] == s[i] && t[j] == s[j]);
            }
        }
        lemma_insert_sorted(t, x);
        assert(s =~= t.push(s.last()));
        assert forall|k: int| 0 <= k < rt.len() implies #[trigger] rt[k].address <= s.last().address by {
            if rt[k] != x {
                assert(t.contains(rt[k]));
                let i = choose|i: int| 0 <= i < t.len() && t[i] == rt[k];
                assert(s[i] == t[i]);
                assert(s[i].address <= s[s.len() - 1].address);
            }
        }
        assert forall|i: int, j: int| 0 <= i <= j < r.len() implies #[trigger] r[i].address
            <= #[trigger] r[j].address by {
            if j == r.len() - 1 {
                if i < j {
                    assert(r[i] == rt[i]);
                }
            } else {
                assert(r[i] == rt[i] && r[j] == rt[j]);
            }
        }
        assert forall|k: int| 0 <= k < r.len() implies #[trigger] r[k] == x || s.contains(r[k]) by {
            if k < rt.len() {
                assert(r[k] == rt[k]);
                if rt[k] != x {
                    assert(t.contains(rt[k]));
                    let i = choose|i: int| 0 <= i < t.len() && t[i] == rt[k];
                    assert(s[i] == t[i]);
                }
            } else {
                assert(r[k] == s[s.len() - 1]);
            }
        }
        assert(rt.push(s.last()).to_multiset() =~= rt.to_multiset().insert(s.last()));
        assert(t.push(s.last()).to_multiset() =~= t.to_multiset().insert(s.last()));
    }
}

/// Sorting the bindings by address orders them by address and keeps each
/// of them, as often as it occurred.
pub proof fn law_sort_orders_and_keeps(s: Seq<Binding64>)
    ensures
        sorted_by_address(sort_by_address(s)),
        sort_by_address(s).to_multiset() =~= s.to_multiset(),
    decreases s.len(),
{
    if s.len() > 0 {
        law_sort_orders_and_keeps(s.drop_last());
        lemma_insert_sorted(sort_by_address(s.drop_last()), s.last());
        assert(s =~= s.drop_last().push(s.last()));
    }
}

/// Dropping repeats from a sorted list keeps it sorted, leaves no binding
/// the same as the one before it, and keeps only bindings of the list.
proof fn lemma_dedup_sorted(s: Seq<Binding64>)
    requires
        sorted_by_address(s),
    ensures
        sorted_by_address(dedup_bindings(s)),
        no_repeats(dedup_bindings(s)),
        forall|k: int| 0 <= k < dedup_bindings(s).len() ==> s.contains(#[trigger] dedup_bindings(s)[k]),
    decreases s.len(),
{
    if s.len() > 0 {
        let t = s.drop_last();
        let kept = dedup_bindings(t);
        let d = dedup_bindings(s);
        assert(sorted_by_address(t)) by {
            assert forall|i: int, j: int| 0 <= i <= j < t.len() implies #[trigger] t[i].address
                <= #[trigger] t[j].address by {
                assert(t[i] == s[i] && t[j] == s[j]);
            }
        }
        lemma_dedup_sorted(t);
        assert forall|k: int| 0 <= k < kept.len() implies s.contains(#[trigger] kept[k])
            && kept[k].address <= s.last().address by {
            assert(t.contains(kept[k]));
            let i = choose|i: int| 0 <= i < t.len() && t[i] == kept[k];
            assert(s[i] == t[i]);
            assert(s[i].address <= s[s.len() - 1].address);
        }
        if !(kept.len() > 0 && same_binding(kept.last(), s.last())) {
            assert(d == kept.push(s.last()));
            assert forall|i: int, j: int| 0 <= i <= j < d.len() implies #[trigger] d[i].address
                <= #[trigger] d[j].address by {
                if j < kept.len() {
                    assert(d[i] == kept[i] && d[j] == kept[j]);
                } else if i < kept.len() {
                    assert(d[i] == kept[i]);
                }
            }
            assert forall|i: int| 0 < i < d.len() implies !same_binding(#[trigger] d[i - 1], d[i]) by {
                if i < kept.len() {
                    assert(d[i - 1] == kept[i - 1] && d[i] == kept[i]);
                }
            }
            assert forall|k: int| 0 <= k < d.len() implies s.contains(#[trigger] d[k]) by {
                if k < kept.len() {
                    assert(d[k] == kept[k]);
                } else {
                    assert(d[k] == s[s.len() - 1]);
                }
            }
        }
    }
}

/// Dropping repeats keeps, of each binding of the list, one that is the
/// same.
proof fn lemma_dedup_covers(s: Seq<Binding64>)
    ensures
        forall|i: int|
            0 <= i < s.len() ==> exists|k: int|
                0 <= k < dedup_bindings(s).len() && same_binding(#[trigger] dedup_bindings(s)[k], #[trigger] s[i]),
        s.len() > 0 ==> dedup_bindings(s).len() > 0 && same_binding(dedup_bindings(s).last(), s.last()),
    decreases s.len(),
{
    if s.len() > 0 {
        let t = s.drop_last();
        let kept = dedup_bindings(t);
        let d = dedup_bindings(s);
        lemma_dedup_covers(t);
        if kept.len() > 0 && same_binding(kept.last(), s.last()) {
            assert(d == kept);
        } else {
            assert(d == kept.push(s.last()));
        }
        assert forall|i: int| 0 <= i < s.len() implies exists|k: int|
            0 <= k < d.len() && same_binding(#[trigger] d[k], #[trigger] s[i]) by {
            if i < t.len() {
                assert(s[i] == t[i]);
                let k = choose|k: int| 0 <= k < kept.len() && same_binding(#[trigger] kept[k], #[trigger] t[i]);
                assert(d[k] == kept[k]);
            } else {
                assert(same_binding(d[d.len() - 1], s[i]));
            }
        }
    }
}

/// Dropping repeats from a sorted list keeps it sorted, leaves no binding
/// the same as the one before it, keeps only bindings of the list, and
/// keeps, of each binding of the list, one that is the same.
pub proof fn law_dedup_keeps_one_of_each(s: Seq<Binding64>)
    requires
        sorted_by_address(s),
    ensures
        sorted_by_address(dedup_bindings(s)),
        no_repeats(dedup_bindings(s)),
        forall|k: int| 0 <= k < dedup_bindings(s).len() ==> s.contains(#[trigger] dedup_bindings(s)[k]),
        forall|i: int|
            0 <= i < s.len() ==> exists|k: int|
                0 <= k < dedup_bindings(s).len() && same_binding(#[trigger] dedup_bindings(s)[k], #[trigger] s[i]),
{
    lemma_dedup_sorted(s);
    lemma_dedup_covers(s);
}

/// The bindings a loaded image keeps are ordered by address, no binding is
/// the same as the one before it, each is one of the bindings the tables
/// made, and of each binding the tables made one that is the same is
/// kept.
pub proof fn law_final_bindings(s: Seq<Binding64>)
    ensures
        sorted_by_address(final_bindings(s)),
        no_repeats(final_bindings(s)),
        forall|k: int| 0 <= k < final_bindings(s).len() ==> s.contains(#[trigger] final_bindings(s)[k]),
        forall|i: int|
            0 <= i < s.len() ==> exists|k: int|
                0 <= k < final_bindings(s).len() && same_binding(#[trigger] final_bindings(s)[k], #[trigger] s[i]),
{
    let sorted = sort_by_address(s);
    law_sort_orders_and_keeps(s);
    law_dedup_keeps_one_of_each(sorted);
    let d = final_bindings(s);
    assert forall|k: int| 0 <= k < d.len() implies s.contains(#[trigger] d[k]) by {
        assert(sorted.contains(d[k]));
        assert(sorted.to_multiset().count(d[k]) > 0);
        assert(s.to_multiset().count(d[k]) > 0);
    }
    assert forall|i: int| 0 <= i < s.len() implies exists|k: int|
        0 <= k < d.len() && same_binding(#[trigger] d[k], #[trigger] s[i]) by {
        assert(s.contains(s[i]));
        assert(s.to_multiset().count(s[i]) > 0);
        assert(sorted.to_multiset().count(s[i]) > 0);
        assert(sorted.contains(s[i]));
        let j = choose|j: int| 0 <= j < sorted.len() && sorted[j] == s[i];
        let k = choose|k: int| 0 <= k < d.len() && same_binding(#[trigger] d[k], sorted[j]);
    }
}

} // verus!

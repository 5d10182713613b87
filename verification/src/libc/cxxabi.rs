//! `cxxabi.h`: the Itanium C++ ABI services that guest code calls, as far as
//! they decide something: `__dynamic_cast` over a decoded class hierarchy,
//! static-initialisation guards, exception storage, the run-away exception
//! detector and the `__cxa_atexit` registry.
use crate::mem::{after_alloc, alloc_place, bytes_of, readable, with_bytes, Mem, MemView};
use crate::text::bytes_equal;
use vstd::prelude::*;

verus! {

/// Most subobjects a decoded class hierarchy may hold.
pub const MAX_RTTI_SUBOBJECTS: usize = 4096;

/// Deepest a subobject may sit below the most-derived object.
pub const MAX_RTTI_DEPTH: u8 = 64;

/// One subobject of a decoded class hierarchy: node 0 is the most-derived
/// object, and every other node names the node it is a direct base of.
#[derive(Clone, Copy)]
pub struct RttiSubobject {
    /// Address of the subobject's `type_info`.
    pub type_info: u32,
    /// Guest address of the subobject.
    pub object: u32,
    /// Index of the node this one is a direct base of (`None` for the root).
    pub parent: Option<usize>,
    /// Whether the base is public in its parent.
    pub public_from_parent: bool,
    /// Whether every base on the path from the root is public.
    pub public_from_root: bool,
    /// Distance from the root.
    pub depth: u8,
}

/// Whether every parent link points to an earlier node, as the hierarchy
/// decoder builds them.
pub open spec fn parents_precede(nodes: Seq<RttiSubobject>) -> bool {
    forall|i: int|
        0 <= i < nodes.len() ==> (#[trigger] nodes[i].parent matches Some(p) ==> (p as int) < i)
}

/// `base + offset` in the 32-bit guest space, or `None` where it leaves it.
pub open spec fn guest_sum(base: u32, offset: i32) -> Option<u32> {
    if 0 <= base + offset <= u32::MAX {
        Some((base + offset) as u32)
    } else {
        None
    }
}

/// Adds a signed offset to a guest address, failing where the sum leaves the
/// 32-bit guest space.
pub fn guest_add_signed(base: u32, offset: i32) -> (r: Option<u32>)
    ensures
        r == guest_sum(base, offset),
{
    let address: i64 = base as i64 + offset as i64;
    if 0 <= address && address <= u32::MAX as i64 {
        Some(address as u32)
    } else {
        None
    }
}

/// The cast to the most-derived type that the compiler's `src2dst_offset`
/// hint allows: it succeeds only where the hint is a known offset (not
/// negative) and the object's offset to its top is exactly its negation.
pub fn exact_dynamic_type_cast(dynamic_object: u32, offset_to_top: i32, hint: i32) -> (r: Option<
    u32,
>)
    ensures
        r == (if hint >= 0 && offset_to_top == -hint {
            Some(dynamic_object)
        } else {
            None
        }),
{
    if hint < 0 {
        return None;
    }
    let negated: i32 = -hint;
    if offset_to_top != negated {
        return None;
    }
    Some(dynamic_object)
}

/// Appends a direct base of node `parent` to a hierarchy being decoded.
/// Fails, changing nothing, where the hierarchy is full, `parent` is not a
/// node, or the base would sit too deep.
pub fn push_rtti_subobject(
    nodes: &mut Vec<RttiSubobject>,
    type_info: u32,
    object: u32,
    parent: usize,
    is_public: bool,
) -> (r: Option<()>)
    ensures
        ({
            let accepted = old(nodes).len() < MAX_RTTI_SUBOBJECTS && parent < old(nodes).len()
                && old(nodes)@[parent as int].depth < MAX_RTTI_DEPTH;
            &&& (r is Some <==> accepted)
            &&& accepted ==> final(nodes)@ == old(nodes)@.push(
                RttiSubobject {
                    type_info,
                    object,
                    parent: Some(parent),
                    public_from_parent: is_public,
                    public_from_root: old(nodes)@[parent as int].public_from_root && is_public,
                    depth: (old(nodes)@[parent as int].depth + 1) as u8,
                },
            )
            &&& !accepted ==> final(nodes)@ == old(nodes)@
        }),
        parents_precede(old(nodes)@) ==> parents_precede(final(nodes)@),
{
    if nodes.len() >= MAX_RTTI_SUBOBJECTS {
        return None;
    }
    if parent >= nodes.len() {
        return None;
    }
    let parent_node = nodes[parent];
    if parent_node.depth >= MAX_RTTI_DEPTH {
        return None;
    }
    let public_from_root = parent_node.public_from_root && is_public;
    let depth = parent_node.depth + 1;
    nodes.push(
        RttiSubobject {
            type_info,
            object,
            parent: Some(parent),
            public_from_parent: is_public,
            public_from_root,
            depth,
        },
    );
    proof {
        let s = nodes@;
        if parents_precede(old(nodes)@) {
            assert forall|i: int| 0 <= i < s.len() implies (#[trigger] s[i].parent matches Some(p)
                ==> (p as int) < i) by {
                if i < s.len() - 1 {
                    assert(s[i] == old(nodes)@[i]);
                }
            }
        }
    }
    Some(())
}

/// Whether walking up from node `current` reaches node `source` through
/// public bases only.
pub open spec fn path_is_public(nodes: Seq<RttiSubobject>, source: int, current: int) -> bool
    decreases current,
{
    if current == source {
        true
    } else if current < 0 || current >= nodes.len() {
        false
    } else if !nodes[current].public_from_parent {
        false
    } else {
        match nodes[current].parent {
            None => false,
            Some(p) => if (p as int) < current {
                path_is_public(nodes, source, p as int)
            } else {
                false
            },
        }
    }
}

/// Whether node `target` is reached from node `source` by walking up through
/// public bases only (`target` itself being `source` counts).
pub fn rtti_path_is_public(nodes: &[RttiSubobject], source: usize, target: usize) -> (r: bool)
    requires
        parents_precede(nodes@),
    ensures
        r == path_is_public(nodes@, source as int, target as int),
{
    let mut current = target;
    while current != source
        invariant
            parents_precede(nodes@),
            path_is_public(nodes@, source as int, current as int) == path_is_public(
                nodes@,
                source as int,
                target as int,
            ),
        decreases current,
    {
        if current >= nodes.len() {
            return false;
        }
        let node = nodes[current];
        if !node.public_from_parent {
            return false;
        }
        match node.parent {
            None => {
                return false;
            },
            Some(p) => {
                assert(nodes@[current as int].parent matches Some(q) ==> (q as int) < current);
                current = p;
            },
        }
    }
    true
}

/// Whether the type comparison `same_type` says yes of `(a, b)`.
pub open spec fn type_matches<F: Fn(u32, u32) -> bool>(same_type: F, a: u32, b: u32) -> bool {
    same_type.ensures((a, b), true)
}

/// Whether `same_type` gives one answer for each pair of types.
pub open spec fn answers_consistently<F: Fn(u32, u32) -> bool>(same_type: F) -> bool {
    forall|a: u32, b: u32, r1: bool, r2: bool|
        #![trigger same_type.ensures((a, b), r1), same_type.ensures((a, b), r2)]
        same_type.ensures((a, b), r1) && same_type.ensures((a, b), r2) ==> r1 == r2
}

/// Node `i` is the source subobject: it lies at `src_object` and, by the
/// type comparisons `sm`, has the source type.
pub open spec fn is_cast_source(nodes: Seq<RttiSubobject>, src_object: u32, sm: Seq<bool>, i: int) -> bool {
    &&& 0 <= i < nodes.len()
    &&& nodes[i].object == src_object
    &&& sm[i]
}

/// Node `i` has, by the type comparisons `dm`, the destination type.
pub open spec fn is_cast_target(nodes: Seq<RttiSubobject>, dm: Seq<bool>, i: int) -> bool {
    &&& 0 <= i < nodes.len()
    &&& dm[i]
}

/// `a` is the address of a destination-type subobject that some source
/// subobject reaches by walking up through public bases (a downcast).
pub open spec fn downcast_address(nodes: Seq<RttiSubobject>, src_object: u32, sm: Seq<bool>, dm: Seq<bool>, a: u32) -> bool {
    exists|t: int, s: int|
        #![trigger is_cast_target(nodes, dm, t), is_cast_source(nodes, src_object, sm, s)]
        is_cast_target(nodes, dm, t) && nodes[t].object == a && is_cast_source(nodes, src_object, sm,
            s,
        ) && path_is_public(nodes, t, s)
}

/// `a` is the address of a destination-type subobject that is a public base
/// of the most-derived object (a cross-cast).
pub open spec fn crosscast_address(nodes: Seq<RttiSubobject>, dm: Seq<bool>, a: u32) -> bool {
    exists|t: int|
        #[trigger] is_cast_target(nodes, dm, t) && nodes[t].public_from_root
            && nodes[t].object == a
}

/// `p` holds of `a` and of nothing else.
pub open spec fn holds_only_of(p: spec_fn(u32) -> bool, a: u32) -> bool {
    p(a) && (forall|b: u32| #[trigger] p(b) ==> b == a)
}

/// The one address that `p` holds of, or `None` where it holds of none or of
/// several.
pub open spec fn sole_address(p: spec_fn(u32) -> bool) -> Option<u32> {
    if exists|a: u32| #[trigger] holds_only_of(p, a) {
        Some(choose|a: u32| #[trigger] holds_only_of(p, a))
    } else {
        None
    }
}

/// The outcome of `dynamic_cast` over a decoded hierarchy: nothing without a
/// source subobject; otherwise the downcast where there are downcast
/// candidates (and it is unambiguous), else the cross-cast where the source
/// is a public base (and that is unambiguous).
pub open spec fn rtti_cast_result(nodes: Seq<RttiSubobject>, src_object: u32, sm: Seq<bool>, dm: Seq<bool>) -> Option<u32> {
    if !(exists|s: int| #[trigger] is_cast_source(nodes, src_object, sm, s)) {
        None
    } else if exists|a: u32|
        #[trigger] downcast_address(nodes, src_object, sm, dm, a) {
        sole_address(|a: u32| downcast_address(nodes, src_object, sm, dm, a))
    } else if !(exists|s: int|
        #[trigger] is_cast_source(nodes, src_object, sm, s)
            && nodes[s].public_from_root) {
        None
    } else {
        sole_address(|a: u32| crosscast_address(nodes, dm, a))
    }
}

fn ask_same_type<F: Fn(u32, u32) -> bool>(same_type: &F, a: u32, b: u32) -> (r: bool)
    requires
        forall|x: u32, y: u32| same_type.requires((x, y)),
        answers_consistently(*same_type),
    ensures
        r == type_matches(*same_type, a, b),
{
    let r = same_type(a, b);
    proof {
        if !r && same_type.ensures((a, b), true) {
            assert(same_type.ensures((a, b), r));
        }
    }
    r
}

/// Proves that a list of distinct addresses, with `p` holding exactly of its
/// members, gives `sole_address(p)` as its only member where it has one
/// member and `None` otherwise.
proof fn lemma_sole_address(found: Seq<u32>, p: spec_fn(u32) -> bool)
    requires
        found.len() > 0,
        found.no_duplicates(),
        forall|a: u32| #[trigger] p(a) <==> found.contains(a),
    ensures
        sole_address(p) == (if found.len() == 1 {
            Some(found[0])
        } else {
            None
        }),
{
    if found.len() == 1 {
        assert(p(found[0]));
        assert forall|b: u32| #[trigger] p(b) implies b == found[0] by {
            assert(found.contains(b));
        }
        assert(holds_only_of(p, found[0]));
        let a = choose|a: u32| #[trigger] holds_only_of(p, a);
        assert(a == found[0]);
    } else {
        assert(found.contains(found[0]));
        assert(found.contains(found[1]));
        assert(found[0] != found[1]);
        if exists|a: u32| #[trigger] holds_only_of(p, a) {
            let a = choose|a: u32| #[trigger] holds_only_of(p, a);
            assert(p(found[0]));
            assert(p(found[1]));
        }
    }
}

/// Some of the first `n` listed targets sits at `a` and is reached publicly
/// from one of the listed sources.
spec fn listed_downcast(
    ns: Seq<RttiSubobject>,
    targets: Seq<usize>,
    sources: Seq<usize>,
    n: int,
    a: u32,
) -> bool {
    exists|j: int, k: int|
        #![trigger targets[j], sources[k]]
        0 <= j < n && 0 <= k < sources.len() && ns[targets[j] as int].object == a
            && path_is_public(ns, targets[j] as int, sources[k] as int)
}

/// Some of the first `n` listed targets sits at `a` and is a public base of
/// the most-derived object.
spec fn listed_crosscast(ns: Seq<RttiSubobject>, targets: Seq<usize>, n: int, a: u32) -> bool {
    exists|j: int|
        #![trigger targets[j]]
        0 <= j < n && ns[targets[j] as int].public_from_root && ns[targets[j] as int].object == a
}

/// Whether `v` lists `x`, by a scan.
fn lists(v: &Vec<u32>, x: u32) -> (r: bool)
    ensures
        r == v@.contains(x),
{
    let mut i: usize = 0;
    while i < v.len()
        invariant
            0 <= i <= v.len(),
            forall|k: int| 0 <= k < i ==> v@[k] != x,
        decreases v.len() - i,
    {
        if v[i] == x {
            return true;
        }
        i = i + 1;
    }
    false
}

/// Appends `x` to a list of distinct values unless it is listed already.
fn push_distinct(v: &mut Vec<u32>, x: u32)
    requires
        old(v)@.no_duplicates(),
    ensures
        final(v)@.no_duplicates(),
        forall|a: u32| #[trigger] final(v)@.contains(a) <==> (old(v)@.contains(a) || a == x),
{
    if !lists(v, x) {
        let ghost before = v@;
        v.push(x);
        proof {
            assert forall|k1: int, k2: int| 0 <= k1 < k2 < v.len() implies v@[k1] != v@[k2] by {
                if k2 == v.len() - 1 {
                    assert(before.contains(v@[k1]));
                } else {
                    assert(before[k1] != before[k2]);
                }
            }
            assert forall|a: u32| #[trigger] v@.contains(a) <==> (before.contains(a) || a == x) by {
                if before.contains(a) {
                    let k = choose|k: int| 0 <= k < before.len() && before[k] == a;
                    assert(v@[k] == a);
                }
                if a == x {
                    assert(v@[before.len() as int] == x);
                }
                if v@.contains(a) {
                    let k = choose|k: int| 0 <= k < v.len() && v@[k] == a;
                    if k < before.len() {
                        assert(before[k] == a);
                    }
                }
            }
        }
    }
}

/// Resolves `dynamic_cast` over a decoded hierarchy, given for each node
/// whether its type is the source type (`src_matches`) and whether it is
/// the destination type (`dst_matches`): the source subobject is a node at
/// `src_object` of the source type; the result is the unambiguous
/// destination-type subobject reached by a public downcast, or else by a
/// public cross-cast, and `None` where there is none or several.
pub fn rtti_cast_by_matches(
    nodes: &[RttiSubobject],
    src_object: u32,
    src_matches: &[bool],
    dst_matches: &[bool],
) -> (r: Option<u32>)
    requires
        parents_precede(nodes@),
        src_matches@.len() == nodes@.len(),
        dst_matches@.len() == nodes@.len(),
    ensures
        r == rtti_cast_result(nodes@, src_object, src_matches@, dst_matches@),
{
    let ghost ns = nodes@;
    let ghost sm = src_matches@;
    let ghost dm = dst_matches@;
    let mut sources: Vec<usize> = Vec::new();
    let mut i: usize = 0;
    while i < nodes.len()
        invariant
            ns == nodes@,
            sm == src_matches@,
            dm == dst_matches@,
            sm.len() == ns.len(),
            dm.len() == ns.len(),
            0 <= i <= nodes.len(),
            forall|j: int|
                0 <= j < sources.len() ==> is_cast_source(ns, src_object, sm,
                    #[trigger] sources@[j] as int,
                ),
            forall|k: int|
                0 <= k < i && is_cast_source(ns, src_object, sm, k)
                    ==> sources@.contains(k as usize),
        decreases nodes.len() - i,
    {
        let node = nodes[i];
        let ghost before = sources@;
        if node.object == src_object && src_matches[i] {
            sources.push(i);
        }
        proof {
            assert forall|k: int|
                0 <= k < i + 1 && is_cast_source(ns, src_object, sm,
                    k,
                ) implies sources@.contains(k as usize) by {
                if k < i {
                    let j = choose|j: int| 0 <= j < before.len() && before[j] == k as usize;
                    assert(sources@[j] == k as usize);
                } else {
                    assert(sources@[before.len() as int] == i);
                }
            }
        }
        i = i + 1;
    }
    if sources.len() == 0 {
        assert forall|s: int| !#[trigger] is_cast_source(ns, src_object, sm, s) by {
            if is_cast_source(ns, src_object, sm, s) {
                assert(sources@.contains(s as usize));
            }
        }
        return None;
    }
    assert(is_cast_source(ns, src_object, sm, sources@[0] as int));
    let mut targets: Vec<usize> = Vec::new();
    let mut i: usize = 0;
    while i < nodes.len()
        invariant
            ns == nodes@,
            sm == src_matches@,
            dm == dst_matches@,
            sm.len() == ns.len(),
            dm.len() == ns.len(),
            0 <= i <= nodes.len(),
            forall|j: int|
                0 <= j < targets.len() ==> is_cast_target(ns, dm,
                    #[trigger] targets@[j] as int,
                ),
            forall|k: int|
                0 <= k < i && is_cast_target(ns, dm, k) ==> targets@.contains(
                    k as usize,
                ),
        decreases nodes.len() - i,
    {
        let ghost before = targets@;
        if dst_matches[i] {
            targets.push(i);
        }
        proof {
            assert forall|k: int|
                0 <= k < i + 1 && is_cast_target(ns, dm,
                    k,
                ) implies targets@.contains(k as usize) by {
                if k < i {
                    let j = choose|j: int| 0 <= j < before.len() && before[j] == k as usize;
                    assert(targets@[j] == k as usize);
                } else {
                    assert(targets@[before.len() as int] == i);
                }
            }
        }
        i = i + 1;
    }
    // Destination-type subobjects that some source reaches publicly.
    let mut downcast_targets: Vec<u32> = Vec::new();
    let mut ti: usize = 0;
    while ti < targets.len()
        invariant
            ns == nodes@,
            parents_precede(ns),
            0 <= ti <= targets.len(),
            forall|j: int|
                0 <= j < targets.len() ==> is_cast_target(ns, dm,
                    #[trigger] targets@[j] as int,
                ),
            downcast_targets@.no_duplicates(),
            forall|a: u32| #[trigger]
                downcast_targets@.contains(a) <==> listed_downcast(
                    ns,
                    targets@,
                    sources@,
                    ti as int,
                    a,
                ),
        decreases targets.len() - ti,
    {
        let target = targets[ti];
        assert(is_cast_target(ns, dm, targets@[ti as int] as int));
        let mut reached = false;
        let mut si: usize = 0;
        while si < sources.len()
            invariant
                ns == nodes@,
                parents_precede(ns),
                0 <= si <= sources.len(),
                reached <==> exists|k: int|
                    0 <= k < si && path_is_public(ns, target as int, #[trigger] sources@[k] as int),
            decreases sources.len() - si,
        {
            if rtti_path_is_public(nodes, target, sources[si]) {
                reached = true;
            }
            si = si + 1;
        }
        let ghost before = downcast_targets@;
        let address = nodes[target].object;
        if reached {
            push_distinct(&mut downcast_targets, address);
        }
        proof {
            assert forall|a: u32| #[trigger] downcast_targets@.contains(a) <==> listed_downcast(
                ns,
                targets@,
                sources@,
                ti + 1,
                a,
            ) by {
                if before.contains(a) {
                    let (j, k) = choose|j: int, k: int|
                        #![trigger targets@[j], sources@[k]]
                        0 <= j < ti && 0 <= k < sources.len() && ns[targets@[j] as int].object == a
                            && path_is_public(ns, targets@[j] as int, sources@[k] as int);
                    assert(0 <= j < ti + 1 && 0 <= k < sources.len() && ns[targets@[j] as int].object
                        == a && path_is_public(ns, targets@[j] as int, sources@[k] as int));
                }
                if downcast_targets@.contains(a) && !before.contains(a) {
                    let k = choose|k: int|
                        0 <= k < si && path_is_public(ns, target as int, #[trigger] sources@[k] as int);
                    assert(0 <= ti < ti + 1 && 0 <= k < sources.len() && ns[targets@[ti as int] as int].object
                        == a && path_is_public(ns, targets@[ti as int] as int, sources@[k] as int));
                }
                if listed_downcast(ns, targets@, sources@, ti + 1, a) {
                    let (j, k) = choose|j: int, k: int|
                        #![trigger targets@[j], sources@[k]]
                        0 <= j < ti + 1 && 0 <= k < sources.len() && ns[targets@[j] as int].object == a
                            && path_is_public(ns, targets@[j] as int, sources@[k] as int);
                    if j < ti {
                        assert(listed_downcast(ns, targets@, sources@, ti as int, a));
                    } else {
                        assert(path_is_public(ns, target as int, sources@[k] as int));
                        assert(reached);
                    }
                }
            }
        }
        ti = ti + 1;
    }
    let ghost down = |a: u32| downcast_address(ns, src_object, sm, dm, a);
    proof {
        assert forall|a: u32| #[trigger] down(a) <==> downcast_targets@.contains(a) by {
            if down(a) {
                let (t, s) = choose|t: int, s: int|
                    #![trigger is_cast_target(ns, dm, t), is_cast_source(ns, src_object, sm, s)]
                    is_cast_target(ns, dm, t) && ns[t].object == a
                        && is_cast_source(ns, src_object, sm, s) && path_is_public(
                        ns,
                        t,
                        s,
                    );
                assert(targets@.contains(t as usize));
                assert(sources@.contains(s as usize));
                let j = choose|j: int| 0 <= j < targets.len() && targets@[j] == t as usize;
                let k = choose|k: int| 0 <= k < sources.len() && sources@[k] == s as usize;
                assert(0 <= j < targets.len() && 0 <= k < sources.len() && ns[targets@[j] as int].object
                    == a && path_is_public(ns, targets@[j] as int, sources@[k] as int));
                assert(listed_downcast(ns, targets@, sources@, targets.len() as int, a));
            }
            if downcast_targets@.contains(a) {
                let (j, k) = choose|j: int, k: int|
                    #![trigger targets@[j], sources@[k]]
                    0 <= j < targets.len() && 0 <= k < sources.len() && ns[targets@[j] as int].object
                        == a && path_is_public(ns, targets@[j] as int, sources@[k] as int);
                assert(is_cast_target(ns, dm, targets@[j] as int));
                assert(is_cast_source(ns, src_object, sm, sources@[k] as int));
            }
        }
    }
    if downcast_targets.len() != 0 {
        proof {
            lemma_sole_address(downcast_targets@, down);
            assert(down(downcast_targets@[0]));
            assert(exists|a: u32| #[trigger]
                downcast_address(ns, src_object, sm, dm, a));
            assert(sole_address(down) == sole_address(
                |a: u32| downcast_address(ns, src_object, sm, dm, a),
            ));
        }
        if downcast_targets.len() == 1 {
            return Some(downcast_targets[0]);
        } else {
            return None;
        }
    }
    assert forall|a: u32| !#[trigger] downcast_address(ns, src_object, sm, dm, a) by {
        assert(!down(a));
    }
    // No downcast: a cross-cast needs the source to be a public base.
    let mut source_is_public = false;
    let mut si: usize = 0;
    while si < sources.len()
        invariant
            ns == nodes@,
            0 <= si <= sources.len(),
            forall|j: int|
                0 <= j < sources.len() ==> is_cast_source(ns, src_object, sm,
                    #[trigger] sources@[j] as int,
                ),
            source_is_public <==> exists|k: int|
                0 <= k < si && ns[#[trigger] sources@[k] as int].public_from_root,
        decreases sources.len() - si,
    {
        assert(is_cast_source(ns, src_object, sm, sources@[si as int] as int));
        if nodes[sources[si]].public_from_root {
            source_is_public = true;
        }
        si = si + 1;
    }
    proof {
        if source_is_public {
            let k = choose|k: int| 0 <= k < si && ns[#[trigger] sources@[k] as int].public_from_root;
            assert(is_cast_source(ns, src_object, sm, sources@[k] as int));
        } else {
            assert forall|s: int|
                !(#[trigger] is_cast_source(ns, src_object, sm, s)
                    && ns[s].public_from_root) by {
                if is_cast_source(ns, src_object, sm, s) {
                    assert(sources@.contains(s as usize));
                    let k = choose|k: int| 0 <= k < sources.len() && sources@[k] == s as usize;
                    assert(ns[sources@[k] as int].public_from_root == ns[s].public_from_root);
                }
            }
        }
    }
    if !source_is_public {
        return None;
    }
    let mut public_targets: Vec<u32> = Vec::new();
    let mut ti: usize = 0;
    while ti < targets.len()
        invariant
            ns == nodes@,
            0 <= ti <= targets.len(),
            forall|j: int|
                0 <= j < targets.len() ==> is_cast_target(ns, dm,
                    #[trigger] targets@[j] as int,
                ),
            public_targets@.no_duplicates(),
            forall|a: u32| #[trigger]
                public_targets@.contains(a) <==> listed_crosscast(ns, targets@, ti as int, a),
        decreases targets.len() - ti,
    {
        let target = targets[ti];
        assert(is_cast_target(ns, dm, targets@[ti as int] as int));
        let ghost before = public_targets@;
        if nodes[target].public_from_root {
            push_distinct(&mut public_targets, nodes[target].object);
        }
        proof {
            assert forall|a: u32| #[trigger] public_targets@.contains(a) <==> listed_crosscast(
                ns,
                targets@,
                ti + 1,
                a,
            ) by {
                if before.contains(a) {
                    let j = choose|j: int|
                        #![trigger targets@[j]]
                        0 <= j < ti && ns[targets@[j] as int].public_from_root
                            && ns[targets@[j] as int].object == a;
                    assert(0 <= j < ti + 1 && ns[targets@[j] as int].public_from_root
                        && ns[targets@[j] as int].object == a);
                }
                if public_targets@.contains(a) && !before.contains(a) {
                    assert(0 <= ti < ti + 1 && ns[targets@[ti as int] as int].public_from_root
                        && ns[targets@[ti as int] as int].object == a);
                }
                if listed_crosscast(ns, targets@, ti + 1, a) {
                    let j = choose|j: int|
                        #![trigger targets@[j]]
                        0 <= j < ti + 1 && ns[targets@[j] as int].public_from_root
                            && ns[targets@[j] as int].object == a;
                    if j < ti {
                        assert(listed_crosscast(ns, targets@, ti as int, a));
                    }
                }
            }
        }
        ti = ti + 1;
    }
    let ghost cross = |a: u32| crosscast_address(ns, dm, a);
    proof {
        assert forall|a: u32| #[trigger] cross(a) <==> public_targets@.contains(a) by {
            if cross(a) {
                let t = choose|t: int|
                    #[trigger] is_cast_target(ns, dm, t) && ns[t].public_from_root
                        && ns[t].object == a;
                assert(targets@.contains(t as usize));
                let j = choose|j: int| 0 <= j < targets.len() && targets@[j] == t as usize;
                assert(0 <= j < targets.len() && ns[targets@[j] as int].public_from_root
                    && ns[targets@[j] as int].object == a);
                assert(listed_crosscast(ns, targets@, targets.len() as int, a));
            }
            if public_targets@.contains(a) {
                let j = choose|j: int|
                    #![trigger targets@[j]]
                    0 <= j < targets.len() && ns[targets@[j] as int].public_from_root
                        && ns[targets@[j] as int].object == a;
                assert(is_cast_target(ns, dm, targets@[j] as int));
            }
        }
        if public_targets.len() > 0 {
            lemma_sole_address(public_targets@, cross);
        } else {
            assert forall|a: u32| !#[trigger] cross(a) by {
                assert(!public_targets@.contains(a));
            }
        }
        assert(sole_address(cross) == sole_address(
            |a: u32| crosscast_address(ns, dm, a),
        ));
    }
    if public_targets.len() == 1 {
        Some(public_targets[0])
    } else {
        None
    }
}

/// The answers of `same_type` for the source type: for each node at
/// `src_object`, whether its type is `src_type` (nodes elsewhere are not
/// asked about).
pub open spec fn source_answers<F: Fn(u32, u32) -> bool>(
    same_type: F,
    nodes: Seq<RttiSubobject>,
    src_object: u32,
    src_type: u32,
) -> Seq<bool> {
    Seq::new(nodes.len(), |i: int| nodes[i].object == src_object && type_matches(same_type, nodes[i].type_info, src_type))
}

/// The answers of `same_type` for the destination type: for each node,
/// whether its type is `dst_type`.
pub open spec fn target_answers<F: Fn(u32, u32) -> bool>(
    same_type: F,
    nodes: Seq<RttiSubobject>,
    dst_type: u32,
) -> Seq<bool> {
    Seq::new(nodes.len(), |i: int| type_matches(same_type, nodes[i].type_info, dst_type))
}

/// Resolves `dynamic_cast` over a decoded hierarchy, comparing types with
/// `same_type`: the source subobject is the node at `src_object` of type
/// `src_type`; the result is the unambiguous destination-type subobject
/// reached by a public downcast, or else by a public cross-cast, and `None`
/// where there is none or several (as [rtti_cast_by_matches] says of the
/// comparisons' answers).
pub fn rtti_cast_from_subobjects<F: Fn(u32, u32) -> bool>(
    nodes: &[RttiSubobject],
    src_type: u32,
    src_object: u32,
    dst_type: u32,
    same_type: F,
) -> (r: Option<u32>)
    requires
        parents_precede(nodes@),
        forall|x: u32, y: u32| same_type.requires((x, y)),
        answers_consistently(same_type),
    ensures
        r == rtti_cast_result(
            nodes@,
            src_object,
            source_answers(same_type, nodes@, src_object, src_type),
            target_answers(same_type, nodes@, dst_type),
        ),
{
    let mut src_matches: Vec<bool> = Vec::new();
    let mut dst_matches: Vec<bool> = Vec::new();
    let mut i: usize = 0;
    while i < nodes.len()
        invariant
            i <= nodes@.len(),
            forall|x: u32, y: u32| same_type.requires((x, y)),
            answers_consistently(same_type),
            src_matches@ =~= source_answers(same_type, nodes@, src_object, src_type).subrange(0, i as int),
            dst_matches@ =~= target_answers(same_type, nodes@, dst_type).subrange(0, i as int),
        decreases nodes.len() - i,
    {
        let node = nodes[i];
        let is_source = node.object == src_object && ask_same_type(&same_type, node.type_info, src_type);
        src_matches.push(is_source);
        dst_matches.push(ask_same_type(&same_type, node.type_info, dst_type));
        i = i + 1;
    }
    assert(src_matches@ =~= source_answers(same_type, nodes@, src_object, src_type));
    assert(dst_matches@ =~= target_answers(same_type, nodes@, dst_type));
    rtti_cast_by_matches(nodes, src_object, src_matches.as_slice(), dst_matches.as_slice())
}


// === Guard variables for static initialisation ===

/// What `__cxa_guard_acquire` leaves behind and returns: where the guard
/// byte reads nonzero the static is initialised and the answer is 0; where
/// it reads zero the byte is set to 1 (marking the initialisation as
/// under way) and the answer is 1; a guard outside the heap cannot be read,
/// and the access fails.
pub open spec fn guard_acquire_outcome(old: MemView, new: MemView, guard: u32, r: Result<i32, &str>) -> bool {
    if !readable(old, guard as int, 1) {
        r is Err && new == old
    } else if bytes_of(old, guard as int, 1)[0] != 0 {
        r == Ok::<i32, &str>(0) && new == old
    } else {
        r == Ok::<i32, &str>(1) && new == with_bytes(old, guard as int, seq![1u8])
    }
}

/// What writing the guard byte `b` does: the byte is written where the
/// guard lies in the heap; otherwise nothing is, and the access fails.
pub open spec fn guard_write_outcome(old: MemView, new: MemView, guard: u32, b: u8, r: Result<(), &str>) -> bool {
    if readable(old, guard as int, 1) {
        r is Ok && new == with_bytes(old, guard as int, seq![b])
    } else {
        r is Err && new == old
    }
}

/// `__cxa_guard_acquire`: returns 1 if the guarded static still needs its
/// initialiser (marking it as under way) and 0 if it has run.
pub fn cxa_guard_acquire(mem: &mut Mem, guard: u32) -> (r: Result<i32, &'static str>)
    requires
        old(mem).wf(),
    ensures
        final(mem).wf(),
        guard_acquire_outcome(old(mem)@, final(mem)@, guard, r),
{
    let initialized = mem.read_bytes(guard, 1)?;
    if initialized[0] != 0 {
        Ok(0)
    } else {
        let one: [u8; 1] = [1];
        assert(one@ =~= seq![1u8]);
        match mem.write_bytes(guard, &one) {
            Ok(()) => Ok(1),
            Err(e) => Err(e),
        }
    }
}

/// `__cxa_guard_release`: marks the guarded static as initialised.
pub fn cxa_guard_release(mem: &mut Mem, guard: u32) -> (r: Result<(), &'static str>)
    requires
        old(mem).wf(),
    ensures
        final(mem).wf(),
        guard_write_outcome(old(mem)@, final(mem)@, guard, 1, r),
{
    let one: [u8; 1] = [1];
    assert(one@ =~= seq![1u8]);
    mem.write_bytes(guard, &one)
}

/// `__cxa_guard_abort`: marks the guarded static as not initialised, so the
/// next acquire runs the initialiser again.
pub fn cxa_guard_abort(mem: &mut Mem, guard: u32) -> (r: Result<(), &'static str>)
    requires
        old(mem).wf(),
    ensures
        final(mem).wf(),
        guard_write_outcome(old(mem)@, final(mem)@, guard, 0, r),
{
    let zero: [u8; 1] = [0];
    assert(zero@ =~= seq![0u8]);
    mem.write_bytes(guard, &zero)
}

// === Exception storage ===

/// Size of the fake `__cxa_exception` header that precedes thrown objects.
pub const CXA_EXCEPTION_HEADER_SIZE: u32 = 0x60;

/// The pointer `__cxa_allocate_exception` returns for a block at `b`: just
/// past the header, or null where that is not a 32-bit address.
pub open spec fn exception_pointer(b: u32) -> u32 {
    if b + CXA_EXCEPTION_HEADER_SIZE <= u32::MAX {
        (b + CXA_EXCEPTION_HEADER_SIZE) as u32
    } else {
        0
    }
}

/// `__cxa_allocate_exception`: allocates room for the thrown object behind
/// an exception header and returns a pointer to the object, or null where
/// the size overflows or the heap has no room for it.
pub fn cxa_allocate_exception(mem: &mut Mem, thrown_size: u32) -> (r: u32)
    requires
        old(mem).wf(),
    ensures
        final(mem).wf(),
        thrown_size + CXA_EXCEPTION_HEADER_SIZE > u32::MAX ==> r == 0 && final(mem)@ == old(mem)@,
        thrown_size + CXA_EXCEPTION_HEADER_SIZE <= u32::MAX ==> match alloc_place(
            old(mem)@,
            thrown_size + CXA_EXCEPTION_HEADER_SIZE,
        ) {
            None => r == 0 && final(mem)@ == old(mem)@,
            Some(b) => r == exception_pointer(b) && final(mem)@ == after_alloc(
                old(mem)@,
                thrown_size + CXA_EXCEPTION_HEADER_SIZE,
            ),
        },
{
    let total_size = match CXA_EXCEPTION_HEADER_SIZE.checked_add(thrown_size) {
        Some(t) => t,
        None => {
            return 0;
        },
    };
    let block = mem.alloc_zeroed(total_size);
    if block == 0 {
        return 0;
    }
    match block.checked_add(CXA_EXCEPTION_HEADER_SIZE) {
        Some(p) => p,
        None => 0,
    }
}

/// Releases the storage of a thrown object that `__cxa_allocate_exception`
/// handed out; any other pointer is left alone.
pub fn free_exception_storage(mem: &mut Mem, thrown: u32)
    requires
        old(mem).wf(),
    ensures
        final(mem).wf(),
        ({
            let base = thrown - CXA_EXCEPTION_HEADER_SIZE;
            if base >= 0 && old(mem)@.live.contains_key(base as u32) {
                final(mem)@ == (MemView { live: old(mem)@.live.remove(base as u32), ..old(mem)@ })
            } else {
                final(mem)@ == old(mem)@
            }
        }),
{
    let base = match thrown.checked_sub(CXA_EXCEPTION_HEADER_SIZE) {
        Some(b) => b,
        None => {
            return ;
        },
    };
    if mem.allocation_size(base).is_some() {
        mem.free(base);
    }
}

// === Run-away exception detection ===

/// Most consecutive throws from one place before the thread is given up.
pub const THROW_LOOP_LIMIT: u32 = 512;

/// Counts consecutive throws of one kind, to notice a guest stuck in an
/// exception loop.
pub struct ThrowLoopDetector {
    last_key: Vec<u8>,
    same_key_count: u32,
}

impl ThrowLoopDetector {
    /// The key of the latest throw.
    pub closed spec fn last_key(&self) -> Seq<u8> {
        self.last_key@
    }

    /// How many throws in a row had that key.
    pub closed spec fn count(&self) -> u32 {
        self.same_key_count
    }

    /// A detector that has seen no throw.
    pub fn new() -> (r: Self)
        ensures
            r.last_key() == Seq::<u8>::empty(),
            r.count() == 0,
    {
        ThrowLoopDetector { last_key: Vec::new(), same_key_count: 0 }
    }

    /// Records a throw with `key` and returns how many throws in a row,
    /// this one included, had that key (the count wraps as a `u32`).
    pub fn note_exception_throw(&mut self, key: &[u8]) -> (r: u32)
        ensures
            final(self).last_key() == key@,
            final(self).count() == r,
            r == (if old(self).last_key() != key@ {
                1u32
            } else if old(self).count() == u32::MAX {
                0u32
            } else {
                (old(self).count() + 1) as u32
            }),
    {
        if bytes_equal(self.last_key.as_slice(), key) {
            self.same_key_count = self.same_key_count.wrapping_add(1);
            self.same_key_count
        } else {
            self.last_key = slice_to_vec(key);
            self.same_key_count = 1;
            1
        }
    }
}

/// A copy of `s` as a vector.
fn slice_to_vec(s: &[u8]) -> (r: Vec<u8>)
    ensures
        r@ == s@,
{
    let mut v: Vec<u8> = Vec::new();
    let mut i: usize = 0;
    while i < s.len()
        invariant
            0 <= i <= s.len(),
            v@ == s@.subrange(0, i as int),
        decreases s.len() - i,
    {
        v.push(s[i]);
        i = i + 1;
        assert(v@ =~= s@.subrange(0, i as int));
    }
    assert(s@.subrange(0, s.len() as int) =~= s@);
    v
}

// === atexit / finalize ===

/// A destructor registered with `__cxa_atexit`: the function, its argument
/// and the DSO handle it belongs to.
pub type AtExitHandler = (u32, u32, u32);

/// The destructors registered with `__cxa_atexit`, in registration order.
pub struct AtExitRegistry {
    handlers: Vec<AtExitHandler>,
}

/// Whether a handler belongs to the DSO handle `d` (`d == 0` means every
/// handler).
pub open spec fn finalized_by(d: u32) -> spec_fn(AtExitHandler) -> bool {
    |h: AtExitHandler| d == 0 || h.2 == d
}

/// Whether a handler does not belong to `d`.
pub open spec fn kept_by(d: u32) -> spec_fn(AtExitHandler) -> bool {
    |h: AtExitHandler| !(d == 0 || h.2 == d)
}

impl AtExitRegistry {
    /// The registered handlers, oldest first.
    pub closed spec fn handlers(&self) -> Seq<AtExitHandler> {
        self.handlers@
    }

    /// An empty registry.
    pub fn new() -> (r: Self)
        ensures
            r.handlers() == Seq::<AtExitHandler>::empty(),
    {
        AtExitRegistry { handlers: Vec::new() }
    }

    /// `__cxa_atexit`: registers `func(p)` to run when the DSO `d` is
    /// finalised. Returns 0.
    pub fn cxa_atexit(&mut self, func: u32, p: u32, d: u32) -> (r: i32)
        ensures
            final(self).handlers() == old(self).handlers().push((func, p, d)),
            r == 0,
    {
        self.handlers.push((func, p, d));
        0
    }

    /// `__cxa_finalize`: takes out the handlers of the DSO `d` (all of them
    /// where `d` is null) and returns them in the order they are to run,
    /// newest first; the others stay in order.
    pub fn cxa_finalize(&mut self, d: u32) -> (to_run: Vec<AtExitHandler>)
        ensures
            final(self).handlers() == old(self).handlers().filter(kept_by(d)),
            to_run@ == old(self).handlers().filter(finalized_by(d)).reverse(),
    {
        let ghost hs = self.handlers@;
        let mut kept: Vec<AtExitHandler> = Vec::new();
        let mut taken: Vec<AtExitHandler> = Vec::new();
        let mut i: usize = 0;
        while i < self.handlers.len()
            invariant
                hs == self.handlers@,
                0 <= i <= hs.len(),
                kept@ == hs.subrange(0, i as int).filter(kept_by(d)),
                taken@ == hs.subrange(0, i as int).filter(finalized_by(d)),
            decreases hs.len() - i,
        {
            let h = self.handlers[i];
            proof {
                let pre = hs.subrange(0, i as int);
                let next = hs.subrange(0, i + 1);
                assert(next.drop_last() =~= pre);
                assert(next.last() == h);
                reveal(Seq::filter);
            }
            if d == 0 || h.2 == d {
                taken.push(h);
            } else {
                kept.push(h);
            }
            i = i + 1;
        }
        assert(hs.subrange(0, hs.len() as int) =~= hs);
        self.handlers = kept;
        let mut to_run: Vec<AtExitHandler> = Vec::new();
        let mut j: usize = taken.len();
        while j > 0
            invariant
                0 <= j <= taken.len(),
                to_run@ == taken@.subrange(j as int, taken.len() as int).reverse(),
            decreases j,
        {
            j = j - 1;
            to_run.push(taken[j]);
            assert(to_run@ =~= taken@.subrange(j as int, taken.len() as int).reverse());
        }
        assert(taken@.subrange(0, taken.len() as int) =~= taken@);
        to_run
    }
}

} // verus!

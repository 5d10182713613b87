//! Handling of Objective-C objects: the registry that ties each guest
//! object to its host-side state and reference count. Objects live in the
//! 32-bit guest memory; each starts with its 4-byte class pointer.
use crate::mem::{
    after_alloc, alloc_place, bytes_of, readable, with_bytes, GuestUSize, Mem, MemView,
};
use std::collections::HashMap;
use vstd::bytes::{spec_u32_from_le_bytes, spec_u32_to_le_bytes};
use vstd::prelude::*;

verus! {

/// A guest object pointer.
#[allow(non_camel_case_types)]
pub type id = u32;

/// A guest class pointer.
pub type Class = u32;

/// The null object.
#[allow(non_upper_case_globals)]
pub const nil: id = 0;

/// The guest layout every object starts with: its class pointer.
#[allow(non_camel_case_types)]
#[derive(Clone, Copy, Debug)]
pub struct objc_object {
    pub isa: Class,
}

/// Size of `objc_object` in guest memory: the 4-byte class pointer.
pub const OBJC_OBJECT_SIZE: GuestUSize = 4;

/// The host object of a plain guest object, with no state of its own.
#[derive(Clone, Copy, Debug, PartialEq, Eq)]
pub struct TrivialHostObject;

/// What the host keeps for a guest object: nothing, a class (with the size
/// of its instances), or state of another kind, known by a tag.
#[derive(Clone, Copy, Debug, PartialEq, Eq)]
pub enum HostObject {
    Trivial(TrivialHostObject),
    Class { instance_size: GuestUSize },
    Other { kind: u64 },
}

/// A registered object: its host object and its reference count (`None`
/// for static objects, which are never freed).
#[derive(Clone, Copy, Debug, PartialEq, Eq)]
pub struct HostObjectEntry {
    pub host_object: HostObject,
    pub refcount: Option<u32>,
}

/// The registry of guest objects.
pub struct ObjC {
    objects: HashMap<id, HostObjectEntry>,
    weak_slots: Vec<u32>,
}

/// The size of an instance of `class` in `objects`: the class's instance
/// size where it is a registered class, else the size of a bare object.
pub open spec fn instance_size_of(objects: Map<id, HostObjectEntry>, class: Class) -> GuestUSize {
    if class != nil && objects.contains_key(class) && objects[class].host_object is Class {
        objects[class].host_object->instance_size
    } else {
        OBJC_OBJECT_SIZE
    }
}

impl ObjC {
    /// The registered objects.
    pub closed spec fn objects(&self) -> Map<id, HostObjectEntry> {
        self.objects@
    }

    /// The guest addresses of the `__weak` variables registered so far.
    pub closed spec fn weak_slots(&self) -> Seq<u32> {
        self.weak_slots@
    }

    /// Reference counts are never zero, and nil is never registered.
    pub closed spec fn wf(&self) -> bool {
        &&& forall|o: id| #[trigger]
            self.objects@.contains_key(o) ==> (self.objects@[o].refcount matches Some(n) ==> n
                >= 1)
        &&& !self.objects@.contains_key(nil)
    }

    /// An empty registry.
    pub fn new() -> (r: Self)
        ensures
            r.wf(),
            r.objects() == Map::<id, HostObjectEntry>::empty(),
            r.weak_slots() == Seq::<u32>::empty(),
    {
        ObjC { objects: HashMap::new(), weak_slots: Vec::new() }
    }

    /// The class of `object` (nil for nil): the pointer its first word
    /// holds.
    pub fn read_isa(object: id, mem: &Mem) -> (r: Result<Class, &'static str>)
        requires
            mem.wf(),
        ensures
            object == nil ==> r == Ok::<Class, &str>(nil),
            object != nil ==> (r is Ok <==> readable(mem@, object as int, 4)),
            object != nil ==> (r matches Ok(c) ==> c == spec_u32_from_le_bytes(
                bytes_of(mem@, object as int, 4),
            )),
    {
        if object == nil {
            return Ok(nil);
        }
        mem.read_u32(object)
    }

    /// Registers a host object for `object`.
    fn insert_entry(&mut self, object: id, entry: HostObjectEntry)
        requires
            old(self).wf(),
            object != nil,
            entry.refcount matches Some(n) ==> n >= 1,
        ensures
            final(self).wf(),
            final(self).objects() == old(self).objects().insert(object, entry),
            final(self).weak_slots() == old(self).weak_slots(),
    {
        self.objects.insert(object, entry);
        proof {
            assert forall|o: id| #[trigger] self.objects@.contains_key(o) implies (
            self.objects@[o].refcount matches Some(n) ==> n >= 1) by {
                if o != object {
                    assert(old(self).objects@.contains_key(o));
                }
            }
        }
    }

    /// Allocates an object of `instance_size` bytes of class `isa` with
    /// `host_object` and `refcount`; nil where guest memory is exhausted.
    fn alloc_object_inner(
        &mut self,
        isa: Class,
        instance_size: GuestUSize,
        host_object: HostObject,
        mem: &mut Mem,
        refcount: Option<u32>,
    ) -> (r: id)
        requires
            old(self).wf(),
            old(mem).wf(),
            refcount matches Some(n) ==> n >= 1,
        ensures
            final(self).wf(),
            final(mem).wf(),
            final(self).weak_slots() == old(self).weak_slots(),
            allocated_object(
                old(self).objects(),
                old(mem)@,
                isa,
                instance_size,
                HostObjectEntry { host_object, refcount },
                final(self).objects(),
                final(mem)@,
                r,
            ),
    {
        let ghost before = mem@;
        let ptr = mem.alloc_zeroed(instance_size);
        if ptr == 0 {
            return nil;
        }
        proof {
            crate::mem::lemma_block_size(instance_size as int);
            assert(mem@ == after_alloc(before, instance_size as int));
            assert(mem@.heap.len() == before.heap.len() + crate::mem::block_size(instance_size as int));
            assert(readable(mem@, ptr as int, 4));
        }
        let w = mem.write_u32(ptr, isa);
        assert(w is Ok);
        self.insert_entry(ptr, HostObjectEntry { host_object, refcount });
        ptr
    }

    /// Allocates an object of class `isa` (sized as the class says) with
    /// `host_object` and a reference count of 1; nil exactly where guest
    /// memory has no room for it.
    pub fn alloc_object(&mut self, isa: Class, host_object: HostObject, mem: &mut Mem) -> (r: id)
        requires
            old(self).wf(),
            old(mem).wf(),
        ensures
            final(self).wf(),
            final(mem).wf(),
            final(self).weak_slots() == old(self).weak_slots(),
            allocated_object(
                old(self).objects(),
                old(mem)@,
                isa,
                instance_size_of(old(self).objects(), isa),
                HostObjectEntry { host_object, refcount: Some(1) },
                final(self).objects(),
                final(mem)@,
                r,
            ),
    {
        let instance_size = self.class_instance_size(isa);
        self.alloc_object_inner(isa, instance_size, host_object, mem, Some(1))
    }

    /// Allocates a bare object of class `isa` with `host_object` that is
    /// never freed; nil exactly where guest memory has no room for it.
    pub fn alloc_static_object(&mut self, isa: Class, host_object: HostObject, mem: &mut Mem) -> (r:
        id)
        requires
            old(self).wf(),
            old(mem).wf(),
        ensures
            final(self).wf(),
            final(mem).wf(),
            final(self).weak_slots() == old(self).weak_slots(),
            allocated_object(
                old(self).objects(),
                old(mem)@,
                isa,
                OBJC_OBJECT_SIZE,
                HostObjectEntry { host_object, refcount: None },
                final(self).objects(),
                final(mem)@,
                r,
            ),
    {
        self.alloc_object_inner(isa, OBJC_OBJECT_SIZE, host_object, mem, None)
    }

    /// Registers `host_object` for an object the guest laid out itself
    /// (never freed). Nil is ignored.
    pub fn register_static_object(&mut self, guest_object: id, host_object: HostObject)
        requires
            old(self).wf(),
        ensures
            final(self).wf(),
            final(self).weak_slots() == old(self).weak_slots(),
            guest_object == nil ==> final(self).objects() == old(self).objects(),
            guest_object != nil ==> final(self).objects() == old(self).objects().insert(
                guest_object,
                HostObjectEntry { host_object, refcount: None },
            ),
    {
        if guest_object == nil {
            return ;
        }
        self.insert_entry(guest_object, HostObjectEntry { host_object, refcount: None });
    }

    /// The host object of `object`, if it is registered.
    pub fn get_host_object(&self, object: id) -> (r: Option<HostObject>)
        ensures
            r == (if object != nil && self.objects().contains_key(object) {
                Some(self.objects()[object].host_object)
            } else {
                None::<HostObject>
            }),
    {
        if object == nil {
            return None;
        }
        match self.objects.get(&object) {
            Some(entry) => Some(entry.host_object),
            None => None,
        }
    }

    /// The reference count of `object`: 1 for nil, unregistered and static
    /// objects.
    pub fn get_refcount(&self, object: id) -> (r: u32)
        requires
            self.wf(),
        ensures
            r == refcount_of(self.objects(), object),
            r >= 1,
    {
        if object == nil {
            return 1;
        }
        match self.objects.get(&object) {
            Some(entry) => match entry.refcount {
                Some(n) => n,
                None => 1,
            },
            None => 1,
        }
    }

    /// Retains `object`: its reference count goes up by one, unless it is
    /// nil, unregistered, static, or at the largest count.
    pub fn increment_refcount(&mut self, object: id)
        requires
            old(self).wf(),
        ensures
            final(self).wf(),
            final(self).weak_slots() == old(self).weak_slots(),
            final(self).objects() == retained(old(self).objects(), object),
    {
        if object == nil {
            return ;
        }
        let entry = match self.objects.get(&object) {
            Some(e) => *e,
            None => {
                return ;
            },
        };
        if let Some(n) = entry.refcount {
            if n < u32::MAX {
                self.insert_entry(object, HostObjectEntry { refcount: Some(n + 1), ..entry });
            }
        }
    }

    /// Releases `object`: its reference count goes down by one. Returns
    /// `true` where that was the last reference (the count is then dropped
    /// and the caller deallocates the object); nil, unregistered and
    /// static objects are left alone.
    #[must_use]
    pub fn decrement_refcount(&mut self, object: id) -> (r: bool)
        requires
            old(self).wf(),
        ensures
            final(self).wf(),
            final(self).weak_slots() == old(self).weak_slots(),
            r == is_last_reference(old(self).objects(), object),
            final(self).objects() == released(old(self).objects(), object),
    {
        if object == nil {
            return false;
        }
        let entry = match self.objects.get(&object) {
            Some(e) => *e,
            None => {
                return false;
            },
        };
        match entry.refcount {
            Some(n) => {
                assert(self.objects@.contains_key(object));
                if n == 1 {
                    self.insert_entry(object, HostObjectEntry { refcount: None, ..entry });
                    true
                } else {
                    self.insert_entry(object, HostObjectEntry { refcount: Some(n - 1), ..entry });
                    false
                }
            },
            None => false,
        }
    }

    /// The size in bytes (including the `isa` pointer) of an instance of
    /// `class`: what its class host object says, or the size of a bare
    /// object where it has none.
    pub fn class_instance_size(&self, class: Class) -> (r: GuestUSize)
        ensures
            r == instance_size_of(self.objects(), class),
    {
        match self.get_host_object(class) {
            Some(HostObject::Class { instance_size }) => instance_size,
            _ => OBJC_OBJECT_SIZE,
        }
    }

    /// `NSCopyObject`: a new object of the same class, `extra_bytes`
    /// larger, holding a byte-for-byte copy of `object`'s instance (the
    /// extra bytes zero), with a trivial host object and a reference count
    /// of 1 (a shallow copy: no object it points to is retained). Nil for
    /// nil; an error, with nothing changed, where the instance cannot be
    /// read or guest memory has no room for the copy.
    pub fn object_copy(&mut self, object: id, extra_bytes: GuestUSize, mem: &mut Mem) -> (r: Result<
        id,
        &'static str,
    >)
        requires
            old(self).wf(),
            old(mem).wf(),
        ensures
            final(self).wf(),
            final(mem).wf(),
            final(self).weak_slots() == old(self).weak_slots(),
            r is Err ==> final(mem)@ == old(mem)@ && final(self).objects() == old(self).objects(),
            object == nil ==> r == Ok::<id, &str>(nil) && final(mem)@ == old(mem)@
                && final(self).objects() == old(self).objects(),
            object != nil ==> match copy_plan(old(self).objects(), old(mem)@, object, extra_bytes) {
                None => r is Err,
                Some((p, size, total)) => r == Ok::<id, &str>(p) && final(self).objects()
                    == old(self).objects().insert(
                    p,
                    HostObjectEntry {
                        host_object: HostObject::Trivial(TrivialHostObject),
                        refcount: Some(1),
                    },
                ) && final(mem)@ == with_bytes(
                    after_alloc(old(mem)@, total as int),
                    p as int,
                    bytes_of(old(mem)@, object as int, size as int),
                ),
            },
    {
        if object == nil {
            return Ok(nil);
        }
        let isa = Self::read_isa(object, mem)?;
        let instance_size = self.class_instance_size(isa);
        let total_size = instance_size.saturating_add(extra_bytes);
        let src_bytes = mem.read_bytes(object, instance_size)?;
        let ghost before = mem@;
        let new_object = mem.alloc_zeroed(total_size);
        if new_object == 0 {
            return Err("no room in guest memory for the copy");
        }
        proof {
            crate::mem::lemma_block_size(total_size as int);
            assert(mem@ == after_alloc(before, total_size as int));
            assert(mem@.heap.len() == before.heap.len() + crate::mem::block_size(total_size as int));
            assert(readable(mem@, new_object as int, src_bytes@.len() as int));
        }
        let w = mem.write_bytes(new_object, src_bytes.as_slice());
        assert(w is Ok);
        self.insert_entry(
            new_object,
            HostObjectEntry {
                host_object: HostObject::Trivial(TrivialHostObject),
                refcount: Some(1),
            },
        );
        Ok(new_object)
    }

    /// Registers the `__weak` variable at `slot`: when the object it holds
    /// is deallocated, it is set to nil.
    pub fn register_weak_slot(&mut self, slot: u32)
        requires
            old(self).wf(),
        ensures
            final(self).wf(),
            final(self).objects() == old(self).objects(),
            final(self).weak_slots() == old(self).weak_slots().push(slot),
    {
        self.weak_slots.push(slot);
    }

    /// Sets to nil every registered `__weak` variable that holds `object`.
    fn zero_weak_references_for(&self, object: id, mem: &mut Mem)
        requires
            old(mem).wf(),
        ensures
            final(mem).wf(),
            final(mem)@ == weak_cleared(old(mem)@, self.weak_slots(), object),
    {
        let mut k: usize = 0;
        while k < self.weak_slots.len()
            invariant
                k <= self.weak_slots@.len(),
                mem.wf(),
                mem@ == weak_cleared(old(mem)@, self.weak_slots@.subrange(0, k as int), object),
            decreases self.weak_slots@.len() - k,
        {
            let slot = self.weak_slots[k];
            let ghost before = mem@;
            match mem.read_u32(slot) {
                Ok(v) => {
                    if v == object {
                        let _ = mem.write_u32(slot, 0);
                    }
                },
                Err(_) => {},
            }
            proof {
                let pre = self.weak_slots@.subrange(0, k + 1);
                assert(pre.drop_last() =~= self.weak_slots@.subrange(0, k as int));
                assert(pre.last() == slot);
            }
            k = k + 1;
        }
        assert(self.weak_slots@.subrange(0, k as int) =~= self.weak_slots@);
    }

    /// Deallocates `object`: every registered `__weak` variable that holds
    /// it is set to nil, it is unregistered and, where it was registered,
    /// its guest block is freed. Nil is ignored.
    pub fn dealloc_object(&mut self, object: id, mem: &mut Mem)
        requires
            old(self).wf(),
            old(mem).wf(),
        ensures
            final(self).wf(),
            final(mem).wf(),
            final(self).weak_slots() == old(self).weak_slots(),
            final(self).objects() == old(self).objects().remove(object),
            object == nil ==> final(mem)@ == old(mem)@,
            object != nil ==> {
                let cleared = weak_cleared(old(mem)@, old(self).weak_slots(), object);
                final(mem)@ == (MemView { live: if old(self).objects().contains_key(object) {
                    cleared.live.remove(object)
                } else {
                    cleared.live
                }, ..cleared })
            },
    {
        if object == nil {
            assert(old(self).objects() =~= old(self).objects().remove(object));
            return ;
        }
        self.zero_weak_references_for(object, mem);
        match self.objects.remove(&object) {
            Some(_) => {
                let _ = mem.free(object);
            },
            None => {
                assert(old(self).objects() =~= old(self).objects().remove(object));
            },
        }
        proof {
            assert forall|o: id| #[trigger] self.objects@.contains_key(o) implies (
            self.objects@[o].refcount matches Some(n) ==> n >= 1) by {
                assert(old(self).objects@.contains_key(o));
            }
        }
    }
}

/// The reference count of `object` in `objects`: 1 for nil, unregistered
/// and static objects.
pub open spec fn refcount_of(objects: Map<id, HostObjectEntry>, object: id) -> u32 {
    if object != nil && objects.contains_key(object) && objects[object].refcount is Some {
        objects[object].refcount.unwrap()
    } else {
        1
    }
}

/// What allocating an object of `instance_size` bytes and class `isa` with
/// `entry` leaves behind and returns: where guest memory has room, the
/// block at the end of the heap, zeroed but for its first word, which is
/// `isa`, registered with `entry`; otherwise nil and nothing changed.
pub open spec fn allocated_object(
    objects: Map<id, HostObjectEntry>,
    mem: MemView,
    isa: Class,
    instance_size: GuestUSize,
    entry: HostObjectEntry,
    new_objects: Map<id, HostObjectEntry>,
    new_mem: MemView,
    r: id,
) -> bool {
    match alloc_place(mem, instance_size as int) {
        None => r == nil && new_mem == mem && new_objects == objects,
        Some(p) => {
            &&& r == p
            &&& r != nil
            &&& new_objects == objects.insert(p, entry)
            &&& new_mem == with_bytes(
                after_alloc(mem, instance_size as int),
                p as int,
                spec_u32_to_le_bytes(isa),
            )
        },
    }
}

/// Where copying `object` (with `extra` bytes more) goes, if it can: the
/// new block, the instance size and the size allocated. It cannot where
/// the class pointer or the instance cannot be read, or the heap has no
/// room for the copy.
pub open spec fn copy_plan(objects: Map<id, HostObjectEntry>, mem: MemView, object: id, extra: GuestUSize) -> Option<
    (u32, GuestUSize, GuestUSize),
> {
    if !readable(mem, object as int, 4) {
        None
    } else {
        let isa = spec_u32_from_le_bytes(bytes_of(mem, object as int, 4));
        let size = instance_size_of(objects, isa);
        let total = size.saturating_add(extra);
        if !readable(mem, object as int, size as int) {
            None
        } else {
            match alloc_place(mem, total as int) {
                None => None,
                Some(p) => Some((p, size, total)),
            }
        }
    }
}

/// The memory after setting to nil each of the `__weak` variables at
/// `slots`, in order, that holds `object` (a slot outside the heap is
/// passed over).
pub open spec fn weak_cleared(mem: MemView, slots: Seq<u32>, object: id) -> MemView
    decreases slots.len(),
{
    if slots.len() == 0 {
        mem
    } else {
        let m = weak_cleared(mem, slots.drop_last(), object);
        let s = slots.last();
        if readable(m, s as int, 4) && spec_u32_from_le_bytes(bytes_of(m, s as int, 4)) == object {
            with_bytes(m, s as int, spec_u32_to_le_bytes(0))
        } else {
            m
        }
    }
}

/// Whether `object` is counted: registered with a reference count.
pub open spec fn is_counted(objects: Map<id, HostObjectEntry>, object: id) -> bool {
    object != nil && objects.contains_key(object) && objects[object].refcount is Some
}

/// The registry after retaining `object`: a counted object below the
/// largest count gains a reference; anything else stays.
pub open spec fn retained(objects: Map<id, HostObjectEntry>, object: id) -> Map<id, HostObjectEntry> {
    if is_counted(objects, object) && objects[object].refcount.unwrap() < u32::MAX {
        objects.insert(
            object,
            HostObjectEntry {
                refcount: Some((objects[object].refcount.unwrap() + 1) as u32),
                ..objects[object]
            },
        )
    } else {
        objects
    }
}

/// Whether releasing `object` drops its last reference.
pub open spec fn is_last_reference(objects: Map<id, HostObjectEntry>, object: id) -> bool {
    object != nil && objects.contains_key(object) && objects[object].refcount == Some(1u32)
}

/// The registry after releasing `object`: a counted object loses a
/// reference, and its count is dropped with the last one.
pub open spec fn released(objects: Map<id, HostObjectEntry>, object: id) -> Map<id, HostObjectEntry> {
    if is_counted(objects, object) {
        let e = objects[object];
        let n = e.refcount.unwrap();
        objects.insert(
            object,
            HostObjectEntry {
                refcount: if n == 1 {
                    None
                } else {
                    Some((n - 1) as u32)
                },
                ..e
            },
        )
    } else {
        objects
    }
}

/// Retaining a counted object and then releasing it gives back the
/// registry it had, and the release is not its last reference (below the
/// largest count, where a retain cannot add a reference).
pub proof fn law_retain_then_release(objects: Map<id, HostObjectEntry>, object: id)
    requires
        is_counted(objects, object),
        objects[object].refcount.unwrap() >= 1,
        objects[object].refcount.unwrap() < u32::MAX,
    ensures
        released(retained(objects, object), object) == objects,
        !is_last_reference(retained(objects, object), object),
        refcount_of(retained(objects, object), object) == refcount_of(objects, object) + 1,
{
    let r = retained(objects, object);
    assert(released(r, object) =~= objects);
}

/// A release that is not the last one keeps the object counted, with one
/// reference fewer; the last one leaves it uncounted.
pub proof fn law_release_counts_down(objects: Map<id, HostObjectEntry>, object: id)
    requires
        is_counted(objects, object),
        objects[object].refcount.unwrap() >= 1,
    ensures
        is_last_reference(objects, object) ==> !is_counted(released(objects, object), object),
        !is_last_reference(objects, object) ==> is_counted(released(objects, object), object)
            && refcount_of(released(objects, object), object) == refcount_of(objects, object) - 1,
{
}

} // verus!

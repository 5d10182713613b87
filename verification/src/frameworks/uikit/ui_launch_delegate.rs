//! UIKit's private launch delegate, `TCUILaunchDelegate`: one shared
//! instance, made on first use and never freed.
use crate::mem::Mem;
use crate::objc::objects::{
    allocated_object, id, Class, HostObject, HostObjectEntry, ObjC, TrivialHostObject, OBJC_OBJECT_SIZE,
};
use vstd::prelude::*;

verus! {

/// The shared instance, once made.
pub struct State {
    shared_instance: Option<id>,
}

impl State {
    pub closed spec fn instance(&self) -> Option<id> {
        self.shared_instance
    }

    /// No instance yet.
    pub fn new() -> (r: Self)
        ensures
            r.instance() is None,
    {
        State { shared_instance: None }
    }

    /// `+[TCUILaunchDelegate sharedInstance]`: the instance made on the
    /// first call, a static object of `class` that is never freed.
    pub fn shared_instance(&mut self, objc: &mut ObjC, class: Class, mem: &mut Mem) -> (r: id)
        requires
            old(objc).wf(),
            old(mem).wf(),
        ensures
            final(objc).wf(),
            final(mem).wf(),
            match old(self).instance() {
                Some(i) => r == i && final(self).instance() == Some(i) && final(objc).objects()
                    == old(objc).objects() && final(mem)@ == old(mem)@,
                None => final(self).instance() == Some(r) && allocated_object(
                    old(objc).objects(),
                    old(mem)@,
                    class,
                    OBJC_OBJECT_SIZE,
                    HostObjectEntry { host_object: HostObject::Trivial(TrivialHostObject), refcount: None },
                    final(objc).objects(),
                    final(mem)@,
                    r,
                ),
            },
    {
        if let Some(instance) = self.shared_instance {
            return instance;
        }
        let instance = objc.alloc_static_object(class, HostObject::Trivial(TrivialHostObject), mem);
        self.shared_instance = Some(instance);
        instance
    }
}

} // verus!

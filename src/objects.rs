//! Objective-C objects and their host-side bookkeeping.
//!
//! Every object has two linked representations: an `objc_object` header in
//! guest memory, which keeps the ABI that guest code expects, and a
//! `HostObjectEntry` in host memory, which holds the state that only the host
//! implementation reads (the host payload and the reference count). Classes
//! and metaclasses are objects too, with a static lifetime.

use crate::mem::{objc_object, Mem};
use std::collections::HashMap;
use std::collections::hash_map::Entry;
use vstd::prelude::*;

verus! {

broadcast use vstd::std_specs::hash::group_hash_axioms;

/// Handle of an object: the guest address of its header.
#[allow(non_camel_case_types)]
pub type id = u32;

/// Handle of a class (classes are objects too).
pub type Class = u32;

/// The null object handle.
#[allow(non_upper_case_globals)]
pub const nil: id = 0;

/// Empty host payload, used by `[NSObject alloc]`.
#[derive(Clone, Copy, Debug, PartialEq, Eq, Structural)]
pub struct TrivialHostObject;

/// Host payload of a class whose private state is a single counter.
#[derive(Clone, Copy, Debug, PartialEq, Eq, Structural)]
pub struct CounterHostObject {
    pub counter: u64,
}

/// Type-erased host payload: one variant for each kind of host state.
#[derive(Clone, Copy, Debug, PartialEq, Eq, Structural)]
pub enum AnyHostObject {
    Trivial(TrivialHostObject),
    Counter(CounterHostObject),
}

/// A concrete host payload type, with checked conversions from and to the
/// type-erased `AnyHostObject`.
pub trait HostObject: Sized {
    /// The payload of type `Self` held by `any`, if `any` holds one.
    spec fn from_any(any: AnyHostObject) -> Option<Self>;

    /// `self`, type-erased.
    spec fn to_any(self) -> AnyHostObject;

    /// Erase the type of a payload.
    fn into_any(self) -> (r: AnyHostObject)
        ensures
            r == self.to_any(),
            Self::from_any(r) == Some(self),
    ;

    /// A payload converted to the type-erased form converts back to itself.
    proof fn lemma_from_to_any(x: Self)
        ensures
            Self::from_any(x.to_any()) == Some(x),
    ;

    /// Checked downcast of a shared reference.
    fn downcast_ref(any: &AnyHostObject) -> (r: Option<&Self>)
        ensures
            match r {
                Some(x) => Self::from_any(*any) == Some(*x),
                None => Self::from_any(*any).is_none(),
            },
    ;

    /// Checked downcast of a mutable reference. Writes through the result
    /// land in the type-erased payload.
    fn downcast_mut(any: &mut AnyHostObject) -> (r: Option<&mut Self>)
        ensures
            match r {
                Some(x) => {
                    &&& Self::from_any(*old(any)) == Some(*x)
                    &&& *final(any) == (*final(x)).to_any()
                },
                None => {
                    &&& Self::from_any(*old(any)).is_none()
                    &&& *final(any) == *old(any)
                },
            },
    ;
}

impl HostObject for TrivialHostObject {
    proof fn lemma_from_to_any(x: Self) {
    }

    open spec fn from_any(any: AnyHostObject) -> Option<Self> {
        match any {
            AnyHostObject::Trivial(t) => Some(t),
            _ => None,
        }
    }

    open spec fn to_any(self) -> AnyHostObject {
        AnyHostObject::Trivial(self)
    }

    fn into_any(self) -> (r: AnyHostObject) {
        AnyHostObject::Trivial(self)
    }

    fn downcast_ref(any: &AnyHostObject) -> (r: Option<&Self>) {
        match any {
            AnyHostObject::Trivial(t) => Some(t),
            _ => None,
        }
    }

    fn downcast_mut(any: &mut AnyHostObject) -> (r: Option<&mut Self>) {
        match any {
            AnyHostObject::Trivial(t) => Some(t),
            _ => None,
        }
    }
}

impl HostObject for CounterHostObject {
    proof fn lemma_from_to_any(x: Self) {
    }

    open spec fn from_any(any: AnyHostObject) -> Option<Self> {
        match any {
            AnyHostObject::Counter(c) => Some(c),
            _ => None,
        }
    }

    open spec fn to_any(self) -> AnyHostObject {
        AnyHostObject::Counter(self)
    }

    fn into_any(self) -> (r: AnyHostObject) {
        AnyHostObject::Counter(self)
    }

    fn downcast_ref(any: &AnyHostObject) -> (r: Option<&Self>) {
        match any {
            AnyHostObject::Counter(c) => Some(c),
            _ => None,
        }
    }

    fn downcast_mut(any: &mut AnyHostObject) -> (r: Option<&mut Self>) {
        match any {
            AnyHostObject::Counter(c) => Some(c),
            _ => None,
        }
    }
}

/// Why an operation on the object table was refused. Each variant carries the
/// handle concerned.
#[derive(Clone, Copy, Debug, PartialEq, Eq, Structural)]
pub enum ObjcError {
    /// The handle has no table entry (use after free, or a corrupted handle);
    /// or, when a static object is registered, the handle has no live block
    /// in guest memory.
    UnknownObject(id),
    /// Retain or release of an object that is not reference-counted, or
    /// deallocation of a static-lifetime object.
    StaticLifetimeViolation(id),
    /// Deallocation of an object that no table entry holds any more.
    DoubleFree(id),
    /// Deallocation of an object whose count is still positive.
    PrematureDeallocation(id),
    /// The payload is not of the requested type.
    TypeMismatch(id),
    /// The handle already has a table entry.
    DuplicateRegistration(id),
    /// The reference count would exceed its largest value.
    RefcountOverflow(id),
}

/// Host-side record of one object.
///
/// `refcount` is `Some(n)`, with `n >= 1`, while the object is
/// reference-counted and alive with `n` owners. It is `None` for a
/// static-lifetime object (`static_lifetime` is then set) and for a
/// reference-counted object whose last owner released it and which now waits
/// to be deallocated.
#[derive(Clone, Copy, Debug, PartialEq, Eq, Structural)]
pub struct HostObjectEntry {
    pub host_object: AnyHostObject,
    pub refcount: Option<u32>,
    pub static_lifetime: bool,
}

impl HostObjectEntry {
    pub open spec fn wf(self) -> bool {
        match self.refcount {
            Some(n) => n >= 1 && !self.static_lifetime,
            None => true,
        }
    }
}

/// One retain (`retain` set) or release (`retain` clear) applied to a count:
/// the new count and the call's answer, or `None` where the call is refused.
/// A retain adds an owner and answers `false`; it is refused on no count and
/// on the largest count. A release of the last owner leaves no count and
/// answers `true`; any other release removes an owner and answers `false`;
/// it is refused on no count.
pub open spec fn count_step(rc: Option<u32>, retain: bool) -> Option<(Option<u32>, bool)> {
    match rc {
        None => None,
        Some(n) => if retain {
            if n == u32::MAX {
                None
            } else {
                Some((Some((n + 1) as u32), false))
            }
        } else if n == 1 {
            Some((None, true))
        } else {
            Some((Some((n - 1) as u32), false))
        },
    }
}

/// Every entry of `m` is well formed.
pub open spec fn table_wf(m: Map<id, HostObjectEntry>) -> bool {
    forall|o: id| #[trigger] m.contains_key(o) ==> m[o].wf()
}

/// Storing a well-formed entry keeps a table well formed.
proof fn lemma_insert_keeps_wf(m: Map<id, HostObjectEntry>, k: id, e: HostObjectEntry)
    requires
        table_wf(m),
        e.wf(),
    ensures
        table_wf(m.insert(k, e)),
{
    assert forall|o: id| #[trigger] m.insert(k, e).contains_key(o) implies m.insert(k, e)[o].wf() by {
        if o != k {
            assert(m.contains_key(o));
        }
    }
}

/// Removing an entry keeps a table well formed.
proof fn lemma_remove_keeps_wf(m: Map<id, HostObjectEntry>, k: id)
    requires
        table_wf(m),
    ensures
        table_wf(m.remove(k)),
{
    assert forall|o: id| #[trigger] m.remove(k).contains_key(o) implies m.remove(k)[o].wf() by {
        assert(m.contains_key(o));
    }
}

/// The object table: host bookkeeping of every object, keyed by handle.
pub struct ObjC {
    objects: HashMap<id, HostObjectEntry>,
}

impl View for ObjC {
    type V = Map<id, HostObjectEntry>;

    closed spec fn view(&self) -> Map<id, HostObjectEntry> {
        self.objects@
    }
}

impl ObjC {
    /// Every entry is well formed.
    pub open spec fn wf(&self) -> bool {
        table_wf(self@)
    }

    /// Every object of the table has a live block in `mem`. Every operation
    /// of the table keeps this, and `alloc_object` relies on it to hand out a
    /// fresh handle.
    pub open spec fn tracked_by(&self, mem: &Mem) -> bool {
        forall|o: id| #[trigger] self@.contains_key(o) ==> mem@.contains_key(o)
    }

    /// The table's objects are exactly the live blocks of `mem`. Allocation
    /// and deallocation keep this. A block that is made elsewhere (a class
    /// written by the loader) stands outside it until `register_static_object`
    /// gives it its entry.
    pub open spec fn mirrors(&self, mem: &Mem) -> bool {
        forall|o: id| #[trigger] self@.contains_key(o) <==> mem@.contains_key(o)
    }

    /// An empty table.
    pub fn new() -> (r: ObjC)
        ensures
            r.wf(),
            r@ == Map::<id, HostObjectEntry>::empty(),
    {
        ObjC { objects: HashMap::new() }
    }

    /// Read the all-important `isa`.
    pub fn read_isa(object: id, mem: &Mem) -> (r: Class)
        requires
            mem.wf(),
            mem@.contains_key(object),
        ensures
            r == mem@[object].isa,
    {
        mem.read(object).isa
    }

    /// Write the all-important `isa`.
    pub fn write_isa(object: id, isa: Class, mem: &mut Mem)
        requires
            old(mem).wf(),
            old(mem)@.contains_key(object),
        ensures
            final(mem).wf(),
            final(mem).has_room_spec() == old(mem).has_room_spec(),
            final(mem)@ == old(mem)@.insert(object, objc_object { isa }),
    {
        mem.write(object, objc_object { isa })
    }

    /// The entry of `object`, if it has one.
    pub fn lookup(&self, object: id) -> (r: Option<&HostObjectEntry>)
        ensures
            match r {
                Some(e) => self@.contains_key(object) && *e == self@[object],
                None => !self@.contains_key(object),
            },
    {
        self.objects.get(&object)
    }

    /// Allocate a guest object of class `isa` and give it a table entry with
    /// the given count. Fails, leaving both sides as they were, if the new
    /// block's address already has an entry.
    fn alloc_object_inner(
        &mut self,
        isa: Class,
        host_object: AnyHostObject,
        mem: &mut Mem,
        refcount: Option<u32>,
    ) -> (r: Result<id, ObjcError>)
        requires
            old(self).wf(),
            old(mem).wf(),
            old(mem).has_room_spec(),
            refcount == Some(1u32) || refcount.is_none(),
        ensures
            final(self).wf(),
            final(mem).wf(),
            old(self).tracked_by(old(mem)) ==> r is Ok && final(self).tracked_by(final(mem)),
            old(self).mirrors(old(mem)) ==> final(self).mirrors(final(mem)),
            match r {
                Ok(h) => {
                    &&& h != nil
                    &&& !old(mem)@.contains_key(h)
                    &&& !old(self)@.contains_key(h)
                    &&& final(mem)@ == old(mem)@.insert(h, objc_object { isa })
                    &&& final(self)@ == old(self)@.insert(
                        h,
                        (HostObjectEntry { host_object, refcount, static_lifetime: refcount.is_none() }),
                    )
                },
                Err(e) => {
                    &&& e is DuplicateRegistration
                    &&& old(self)@.contains_key(e->DuplicateRegistration_0)
                    &&& final(self)@ == old(self)@
                    &&& final(mem)@ == old(mem)@
                },
            },
    {
        let ptr = mem.alloc_and_write(objc_object { isa });
        if self.objects.contains_key(&ptr) {
            proof {
                assert(old(self)@.contains_key(ptr));
                if old(self).tracked_by(old(mem)) {
                    assert(old(mem)@.contains_key(ptr));
                    assert(false);
                }
            }
            mem.free(ptr);
            proof {
                assert(mem@ =~= old(mem)@);
            }
            return Err(ObjcError::DuplicateRegistration(ptr));
        }
        let entry = HostObjectEntry { host_object, refcount, static_lifetime: refcount.is_none() };
        self.objects.insert(ptr, entry);
        proof {
            lemma_insert_keeps_wf(old(self)@, ptr, self@[ptr]);
            if old(self).tracked_by(old(mem)) {
                assert forall|o: id| #[trigger] self@.contains_key(o) implies mem@.contains_key(o) by {
                    if o != ptr {
                        assert(old(self)@.contains_key(o));
                    }
                }
            }
            if old(self).mirrors(old(mem)) {
                assert forall|o: id| #[trigger] self@.contains_key(o) <==> mem@.contains_key(o) by {
                    if o != ptr {
                        assert(old(self)@.contains_key(o) <==> old(mem)@.contains_key(o));
                    }
                }
            }
        }
        Ok(ptr)
    }

    /// Allocate a reference-counted object (like `[NSObject alloc]`) and
    /// associate it with its host payload. The new object has one owner.
    pub fn alloc_object(&mut self, isa: Class, host_object: AnyHostObject, mem: &mut Mem) -> (r:
        Result<id, ObjcError>)
        requires
            old(self).wf(),
            old(mem).wf(),
            old(mem).has_room_spec(),
        ensures
            final(self).wf(),
            final(mem).wf(),
            old(self).tracked_by(old(mem)) ==> r is Ok && final(self).tracked_by(final(mem)),
            old(self).mirrors(old(mem)) ==> final(self).mirrors(final(mem)),
            match r {
                Ok(h) => {
                    &&& h != nil
                    &&& !old(mem)@.contains_key(h)
                    &&& !old(self)@.contains_key(h)
                    &&& final(mem)@ == old(mem)@.insert(h, objc_object { isa })
                    &&& final(self)@ == old(self)@.insert(
                        h,
                        (HostObjectEntry { host_object, refcount: Some(1u32), static_lifetime: false }),
                    )
                },
                Err(e) => {
                    &&& e is DuplicateRegistration
                    &&& old(self)@.contains_key(e->DuplicateRegistration_0)
                    &&& final(self)@ == old(self)@
                    &&& final(mem)@ == old(mem)@
                },
            },
    {
        self.alloc_object_inner(isa, host_object, mem, Some(1u32))
    }

    /// Allocate a static-lifetime object (a class, for example) and associate
    /// it with its host payload. It is never retained, released or
    /// deallocated.
    pub fn alloc_static_object(&mut self, isa: Class, host_object: AnyHostObject, mem: &mut Mem) -> (r:
        Result<id, ObjcError>)
        requires
            old(self).wf(),
            old(mem).wf(),
            old(mem).has_room_spec(),
        ensures
            final(self).wf(),
            final(mem).wf(),
            old(self).tracked_by(old(mem)) ==> r is Ok && final(self).tracked_by(final(mem)),
            old(self).mirrors(old(mem)) ==> final(self).mirrors(final(mem)),
            match r {
                Ok(h) => {
                    &&& h != nil
                    &&& !old(mem)@.contains_key(h)
                    &&& !old(self)@.contains_key(h)
                    &&& final(mem)@ == old(mem)@.insert(h, objc_object { isa })
                    &&& final(self)@ == old(self)@.insert(
                        h,
                        (HostObjectEntry { host_object, refcount: None, static_lifetime: true }),
                    )
                },
                Err(e) => {
                    &&& e is DuplicateRegistration
                    &&& old(self)@.contains_key(e->DuplicateRegistration_0)
                    &&& final(self)@ == old(self)@
                    &&& final(mem)@ == old(mem)@
                },
            },
    {
        self.alloc_object_inner(isa, host_object, mem, None)
    }

    /// Associate a host payload with a static-lifetime guest object that was
    /// created elsewhere (a class, for example). The object must have a live
    /// block in `mem`.
    pub fn register_static_object(
        &mut self,
        guest_object: id,
        host_object: AnyHostObject,
        mem: &Mem,
    ) -> (r: Result<(), ObjcError>)
        requires
            old(self).wf(),
            mem.wf(),
        ensures
            final(self).wf(),
            old(self).tracked_by(mem) ==> final(self).tracked_by(mem),
            !mem@.contains_key(guest_object) ==> r == Err::<(), ObjcError>(
                ObjcError::UnknownObject(guest_object),
            ) && final(self)@ == old(self)@,
            mem@.contains_key(guest_object) && old(self)@.contains_key(guest_object) ==> r == Err::<
                (),
                ObjcError,
            >(ObjcError::DuplicateRegistration(guest_object)) && final(self)@ == old(self)@,
            mem@.contains_key(guest_object) && !old(self)@.contains_key(guest_object) ==> r is Ok
                && final(self)@ == old(self)@.insert(
                guest_object,
                (HostObjectEntry { host_object, refcount: None, static_lifetime: true }),
            ),
    {
        if !mem.is_live(guest_object) {
            return Err(ObjcError::UnknownObject(guest_object));
        }
        if self.objects.contains_key(&guest_object) {
            return Err(ObjcError::DuplicateRegistration(guest_object));
        }
        let entry = HostObjectEntry { host_object, refcount: None, static_lifetime: true };
        self.objects.insert(guest_object, entry);
        proof {
            lemma_insert_keeps_wf(old(self)@, guest_object, self@[guest_object]);
            if old(self).tracked_by(mem) {
                assert forall|o: id| #[trigger] self@.contains_key(o) implies mem@.contains_key(o) by {
                    if o != guest_object {
                        assert(old(self)@.contains_key(o));
                    }
                }
            }
        }
        Ok(())
    }

    /// The host payload of `object`, if the object exists.
    pub fn get_host_object(&self, object: id) -> (r: Option<&AnyHostObject>)
        ensures
            match r {
                Some(h) => self@.contains_key(object) && *h == self@[object].host_object,
                None => !self@.contains_key(object),
            },
    {
        match self.objects.get(&object) {
            Some(entry) => Some(&entry.host_object),
            None => None,
        }
    }

    /// The host payload of `object`, downcast to `T`.
    pub fn borrow<T: HostObject>(&self, object: id) -> (r: Result<&T, ObjcError>)
        ensures
            match r {
                Ok(v) => {
                    &&& self@.contains_key(object)
                    &&& T::from_any(self@[object].host_object) == Some(*v)
                },
                Err(e) => e == if self@.contains_key(object) {
                    ObjcError::TypeMismatch(object)
                } else {
                    ObjcError::UnknownObject(object)
                },
            },
            self@.contains_key(object) && T::from_any(self@[object].host_object) is Some ==> r is Ok,
    {
        match self.objects.get(&object) {
            None => Err(ObjcError::UnknownObject(object)),
            Some(entry) => match T::downcast_ref(&entry.host_object) {
                Some(v) => Ok(v),
                None => Err(ObjcError::TypeMismatch(object)),
            },
        }
    }

    /// The host payload of `object`, downcast to `T`, for writing. What is
    /// written through the result becomes the object's payload.
    pub fn borrow_mut<T: HostObject>(&mut self, object: id) -> (r: Result<&mut T, ObjcError>)
        requires
            old(self).wf(),
        ensures
            match r {
                Ok(v) => {
                    &&& old(self)@.contains_key(object)
                    &&& T::from_any(old(self)@[object].host_object) == Some(*v)
                    &&& final(self)@ == old(self)@.insert(
                        object,
                        (HostObjectEntry { host_object: (*final(v)).to_any(), ..old(self)@[object] }),
                    )
                },
                Err(e) => {
                    &&& final(self)@ == old(self)@
                    &&& e == if old(self)@.contains_key(object) {
                        ObjcError::TypeMismatch(object)
                    } else {
                        ObjcError::UnknownObject(object)
                    }
                },
            },
            old(self)@.contains_key(object) && T::from_any(old(self)@[object].host_object) is Some
                ==> r is Ok,
            final(self)@.dom() == old(self)@.dom(),
            final(self).wf(),
    {
        match self.objects.entry(object) {
            Entry::Occupied(occupied) => {
                let entry = occupied.into_mut();
                match T::downcast_mut(&mut entry.host_object) {
                    Some(v) => Ok(v),
                    None => Err(ObjcError::TypeMismatch(object)),
                }
            },
            Entry::Vacant(_) => Err(ObjcError::UnknownObject(object)),
        }
    }

    /// Add one owner to a reference-counted object.
    pub fn increment_refcount(&mut self, object: id) -> (r: Result<(), ObjcError>)
        requires
            old(self).wf(),
        ensures
            final(self).wf(),
            !old(self)@.contains_key(object) ==> r == Err::<(), ObjcError>(
                ObjcError::UnknownObject(object),
            ) && final(self)@ == old(self)@,
            old(self)@.contains_key(object) ==> match count_step(old(self)@[object].refcount, true) {
                Some((c, _)) => r is Ok && final(self)@ == old(self)@.insert(
                    object,
                    (HostObjectEntry { refcount: c, ..old(self)@[object] }),
                ),
                None => final(self)@ == old(self)@ && r == Err::<(), ObjcError>(
                    if old(self)@[object].refcount is None {
                        ObjcError::StaticLifetimeViolation(object)
                    } else {
                        ObjcError::RefcountOverflow(object)
                    },
                ),
            },
            final(self)@.dom() == old(self)@.dom(),
    {
        let entry = match self.objects.get(&object) {
            Some(e) => *e,
            None => return Err(ObjcError::UnknownObject(object)),
        };
        let n = match entry.refcount {
            Some(n) => n,
            None => return Err(ObjcError::StaticLifetimeViolation(object)),
        };
        if n == u32::MAX {
            return Err(ObjcError::RefcountOverflow(object));
        }
        self.objects.insert(object, HostObjectEntry { refcount: Some(n + 1), ..entry });
        proof {
            lemma_insert_keeps_wf(old(self)@, object, self@[object]);
        }
        Ok(())
    }

    /// Remove one owner from a reference-counted object. `Ok(true)` means
    /// that this was the last owner: the object now waits for deallocation,
    /// which the caller must drive (send it the `dealloc` message).
    pub fn decrement_refcount(&mut self, object: id) -> (r: Result<bool, ObjcError>)
        requires
            old(self).wf(),
        ensures
            final(self).wf(),
            !old(self)@.contains_key(object) ==> r == Err::<bool, ObjcError>(
                ObjcError::UnknownObject(object),
            ) && final(self)@ == old(self)@,
            old(self)@.contains_key(object) ==> match count_step(old(self)@[object].refcount, false) {
                Some((c, last)) => r == Ok::<bool, ObjcError>(last) && final(self)@ == old(self)@.insert(
                    object,
                    (HostObjectEntry { refcount: c, ..old(self)@[object] }),
                ),
                None => final(self)@ == old(self)@ && r == Err::<bool, ObjcError>(
                    ObjcError::StaticLifetimeViolation(object),
                ),
            },
            final(self)@.dom() == old(self)@.dom(),
    {
        let entry = match self.objects.get(&object) {
            Some(e) => *e,
            None => return Err(ObjcError::UnknownObject(object)),
        };
        let n = match entry.refcount {
            Some(n) => n,
            None => return Err(ObjcError::StaticLifetimeViolation(object)),
        };
        let last = n == 1;
        if last {
            self.objects.insert(object, HostObjectEntry { refcount: None, ..entry });
        } else {
            self.objects.insert(object, HostObjectEntry { refcount: Some(n - 1), ..entry });
        }
        proof {
            lemma_insert_keeps_wf(old(self)@, object, self@[object]);
        }
        Ok(last)
    }

    /// Deallocate an object whose last owner released it: remove its entry,
    /// drop its host payload and free its guest block.
    pub fn dealloc_object(&mut self, object: id, mem: &mut Mem) -> (r: Result<(), ObjcError>)
        requires
            old(self).wf(),
            old(mem).wf(),
        ensures
            final(self).wf(),
            final(mem).wf(),
            final(mem).has_room_spec() == old(mem).has_room_spec(),
            old(self).tracked_by(old(mem)) ==> final(self).tracked_by(final(mem)),
            old(self).mirrors(old(mem)) ==> final(self).mirrors(final(mem)),
            !old(self)@.contains_key(object) ==> r == Err::<(), ObjcError>(
                ObjcError::DoubleFree(object),
            ),
            old(self)@.contains_key(object) ==> r == (match old(self)@[object].refcount {
                Some(_) => Err::<(), ObjcError>(ObjcError::PrematureDeallocation(object)),
                None => if old(self)@[object].static_lifetime {
                    Err::<(), ObjcError>(ObjcError::StaticLifetimeViolation(object))
                } else {
                    Ok::<(), ObjcError>(())
                },
            }),
            r is Ok ==> final(self)@ == old(self)@.remove(object) && final(mem)@ == old(mem)@.remove(
                object,
            ),
            r is Err ==> final(self)@ == old(self)@ && final(mem)@ == old(mem)@,
    {
        let entry = match self.objects.get(&object) {
            Some(e) => *e,
            None => return Err(ObjcError::DoubleFree(object)),
        };
        if entry.refcount.is_some() {
            return Err(ObjcError::PrematureDeallocation(object));
        }
        if entry.static_lifetime {
            return Err(ObjcError::StaticLifetimeViolation(object));
        }
        self.objects.remove(&object);
        mem.free(object);
        proof {
            lemma_remove_keeps_wf(old(self)@, object);
            if old(self).tracked_by(old(mem)) {
                assert forall|o: id| #[trigger] self@.contains_key(o) implies mem@.contains_key(o) by {
                    assert(old(self)@.contains_key(o));
                }
            }
            if old(self).mirrors(old(mem)) {
                assert forall|o: id| #[trigger] self@.contains_key(o) <==> mem@.contains_key(o) by {
                    if o != object {
                        assert(old(self)@.contains_key(o) <==> old(mem)@.contains_key(o));
                    }
                }
            }
        }
        Ok(())
    }
}

} // verus!

use objc_core::mem::Mem;
use objc_core::objects::{
    nil, AnyHostObject, CounterHostObject, HostObject, ObjC, ObjcError, TrivialHostObject,
};

fn counter(counter: u64) -> AnyHostObject {
    CounterHostObject { counter }.into_any()
}

fn trivial() -> AnyHostObject {
    TrivialHostObject.into_any()
}

#[test]
fn alloc_object_starts_with_one_owner_and_its_class() {
    let mut mem = Mem::new();
    let mut objc = ObjC::new();
    let class = objc.alloc_static_object(nil, trivial(), &mut mem).unwrap();
    let obj = objc.alloc_object(class, trivial(), &mut mem).unwrap();
    assert_ne!(obj, nil);
    assert_ne!(obj, class);
    assert_eq!(objc.lookup(obj).unwrap().refcount, Some(1));
    assert!(!objc.lookup(obj).unwrap().static_lifetime);
    assert_eq!(ObjC::read_isa(obj, &mem), class);
    assert_eq!(ObjC::read_isa(class, &mem), nil);
}

#[test]
fn write_isa_is_read_back() {
    let mut mem = Mem::new();
    let mut objc = ObjC::new();
    let obj = objc.alloc_object(0x40, trivial(), &mut mem).unwrap();
    ObjC::write_isa(obj, 0x80, &mut mem);
    assert_eq!(ObjC::read_isa(obj, &mem), 0x80);
}

#[test]
fn handles_are_distinct() {
    let mut mem = Mem::new();
    let mut objc = ObjC::new();
    let a = objc.alloc_object(1, trivial(), &mut mem).unwrap();
    let b = objc.alloc_object(1, trivial(), &mut mem).unwrap();
    let c = objc.alloc_static_object(1, trivial(), &mut mem).unwrap();
    assert_ne!(a, b);
    assert_ne!(b, c);
    assert_ne!(a, c);
}

#[test]
fn n_retains_need_n_plus_one_releases() {
    let mut mem = Mem::new();
    let mut objc = ObjC::new();
    let obj = objc.alloc_object(1, trivial(), &mut mem).unwrap();
    for _ in 0..4 {
        objc.increment_refcount(obj).unwrap();
    }
    assert_eq!(objc.lookup(obj).unwrap().refcount, Some(5));
    for _ in 0..4 {
        assert_eq!(objc.decrement_refcount(obj), Ok(false));
    }
    assert_eq!(objc.decrement_refcount(obj), Ok(true));
    assert_eq!(objc.lookup(obj).unwrap().refcount, None);
    assert_eq!(
        objc.decrement_refcount(obj),
        Err(ObjcError::StaticLifetimeViolation(obj))
    );
}

#[test]
fn interleaved_retains_and_releases_signal_once() {
    let mut mem = Mem::new();
    let mut objc = ObjC::new();
    let obj = objc.alloc_object(1, trivial(), &mut mem).unwrap();
    objc.increment_refcount(obj).unwrap();
    assert_eq!(objc.decrement_refcount(obj), Ok(false));
    objc.increment_refcount(obj).unwrap();
    objc.increment_refcount(obj).unwrap();
    assert_eq!(objc.decrement_refcount(obj), Ok(false));
    assert_eq!(objc.decrement_refcount(obj), Ok(false));
    assert_eq!(objc.decrement_refcount(obj), Ok(true));
}

#[test]
fn static_objects_refuse_retain_and_release() {
    let mut mem = Mem::new();
    let mut objc = ObjC::new();
    let class = objc.alloc_static_object(0, trivial(), &mut mem).unwrap();
    assert_eq!(
        objc.increment_refcount(class),
        Err(ObjcError::StaticLifetimeViolation(class))
    );
    assert_eq!(
        objc.decrement_refcount(class),
        Err(ObjcError::StaticLifetimeViolation(class))
    );
    assert_eq!(objc.lookup(class).unwrap().refcount, None);
}

#[test]
fn static_objects_refuse_deallocation() {
    let mut mem = Mem::new();
    let mut objc = ObjC::new();
    let class = objc.alloc_static_object(0, trivial(), &mut mem).unwrap();
    assert_eq!(
        objc.dealloc_object(class, &mut mem),
        Err(ObjcError::StaticLifetimeViolation(class))
    );
    assert!(objc.lookup(class).is_some());
    assert!(mem.is_live(class));
}

#[test]
fn premature_deallocation_is_refused() {
    let mut mem = Mem::new();
    let mut objc = ObjC::new();
    let obj = objc.alloc_object(1, trivial(), &mut mem).unwrap();
    objc.increment_refcount(obj).unwrap();
    assert_eq!(
        objc.dealloc_object(obj, &mut mem),
        Err(ObjcError::PrematureDeallocation(obj))
    );
    assert_eq!(objc.decrement_refcount(obj), Ok(false));
    assert_eq!(
        objc.dealloc_object(obj, &mut mem),
        Err(ObjcError::PrematureDeallocation(obj))
    );
    assert_eq!(objc.decrement_refcount(obj), Ok(true));
    assert_eq!(objc.dealloc_object(obj, &mut mem), Ok(()));
    assert!(objc.lookup(obj).is_none());
    assert!(!mem.is_live(obj));
}

#[test]
fn second_deallocation_is_a_double_free() {
    let mut mem = Mem::new();
    let mut objc = ObjC::new();
    let obj = objc.alloc_object(1, trivial(), &mut mem).unwrap();
    assert_eq!(objc.decrement_refcount(obj), Ok(true));
    assert_eq!(objc.dealloc_object(obj, &mut mem), Ok(()));
    assert_eq!(
        objc.dealloc_object(obj, &mut mem),
        Err(ObjcError::DoubleFree(obj))
    );
}

#[test]
fn unknown_objects_are_refused() {
    let mut objc = ObjC::new();
    let h = 0x1234;
    assert_eq!(objc.increment_refcount(h), Err(ObjcError::UnknownObject(h)));
    assert_eq!(objc.decrement_refcount(h), Err(ObjcError::UnknownObject(h)));
    assert_eq!(
        objc.borrow::<TrivialHostObject>(h).err(),
        Some(ObjcError::UnknownObject(h))
    );
    assert_eq!(
        objc.borrow_mut::<TrivialHostObject>(h).err(),
        Some(ObjcError::UnknownObject(h))
    );
    assert!(objc.get_host_object(h).is_none());
    assert!(objc.lookup(nil).is_none());
}

#[test]
fn downcast_to_wrong_type_is_a_mismatch() {
    let mut mem = Mem::new();
    let mut objc = ObjC::new();
    let obj = objc.alloc_object(1, counter(7), &mut mem).unwrap();
    assert_eq!(
        objc.borrow::<TrivialHostObject>(obj).err(),
        Some(ObjcError::TypeMismatch(obj))
    );
    assert_eq!(
        objc.borrow_mut::<TrivialHostObject>(obj).err(),
        Some(ObjcError::TypeMismatch(obj))
    );
    assert_eq!(objc.borrow::<CounterHostObject>(obj).unwrap().counter, 7);
    let plain = objc.alloc_object(1, trivial(), &mut mem).unwrap();
    assert_eq!(
        objc.borrow::<CounterHostObject>(plain).err(),
        Some(ObjcError::TypeMismatch(plain))
    );
    assert_eq!(
        objc.borrow::<TrivialHostObject>(plain).ok(),
        Some(&TrivialHostObject)
    );
}

#[test]
fn writes_through_borrow_mut_are_read_back() {
    let mut mem = Mem::new();
    let mut objc = ObjC::new();
    let obj = objc.alloc_object(1, counter(1), &mut mem).unwrap();
    objc.borrow_mut::<CounterHostObject>(obj).unwrap().counter += 41;
    assert_eq!(objc.borrow::<CounterHostObject>(obj).unwrap().counter, 42);
    assert_eq!(objc.get_host_object(obj), Some(&counter(42)));
    assert_eq!(objc.lookup(obj).unwrap().refcount, Some(1));
}

#[test]
fn counter_object_lifecycle() {
    let mut mem = Mem::new();
    let mut objc = ObjC::new();
    let a = objc.alloc_object(1, counter(0), &mut mem).unwrap();
    objc.increment_refcount(a).unwrap();
    objc.increment_refcount(a).unwrap();
    assert_eq!(objc.lookup(a).unwrap().refcount, Some(3));
    objc.borrow_mut::<CounterHostObject>(a).unwrap().counter = 5;
    assert_eq!(objc.borrow::<CounterHostObject>(a).unwrap().counter, 5);
    assert_eq!(objc.decrement_refcount(a), Ok(false));
    assert_eq!(objc.decrement_refcount(a), Ok(false));
    assert_eq!(objc.decrement_refcount(a), Ok(true));
    assert_eq!(objc.dealloc_object(a, &mut mem), Ok(()));
    assert!(objc.lookup(a).is_none());
}

#[test]
fn register_static_twice_is_a_duplicate() {
    let mut mem = Mem::new();
    let mut objc = ObjC::new();
    let class = mem.alloc_and_write(objc_core::mem::objc_object { isa: 0 });
    assert_eq!(objc.register_static_object(class, trivial(), &mem), Ok(()));
    assert_eq!(
        objc.register_static_object(class, counter(3), &mem),
        Err(ObjcError::DuplicateRegistration(class))
    );
    assert_eq!(objc.get_host_object(class), Some(&trivial()));
    assert_eq!(objc.lookup(class).unwrap().refcount, None);
    assert!(objc.lookup(class).unwrap().static_lifetime);
}

#[test]
fn registering_a_handle_without_a_block_is_refused() {
    let mut mem = Mem::new();
    let mut objc = ObjC::new();
    let first = objc_core::mem::FIRST_ADDRESS;
    assert_eq!(
        objc.register_static_object(first, trivial(), &mem),
        Err(ObjcError::UnknownObject(first))
    );
    assert!(objc.lookup(first).is_none());
    let obj = objc.alloc_object(1, trivial(), &mut mem).unwrap();
    assert_eq!(obj, first);
    assert_eq!(objc.lookup(obj).unwrap().refcount, Some(1));
}

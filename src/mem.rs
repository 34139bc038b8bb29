//! A minimal model of guest memory, holding fixed-layout object headers.
//!
//! Every live block holds one `objc_object` header: a single word naming the
//! object's class. Blocks are handed out by a bump allocator, so an address
//! is never live twice at the same time.

use std::collections::HashMap;
use vstd::prelude::*;

verus! {

broadcast use vstd::std_specs::hash::group_hash_axioms;

/// Guest address of a block.
pub type GuestAddress = u32;

/// Size in bytes of one object header (one pointer-sized word).
pub const BLOCK_SIZE: u32 = 4;

/// Lowest address handed out, so that the null address is never live.
pub const FIRST_ADDRESS: u32 = 0x1000;

/// Memory layout of a minimal Objective-C object: the `isa` word, which names
/// the object's class, at offset zero.
#[allow(non_camel_case_types)]
#[derive(Clone, Copy, Debug, PartialEq, Eq, Structural)]
pub struct objc_object {
    pub isa: u32,
}

/// The guest address space, as far as object headers go.
pub struct Mem {
    blocks: HashMap<u32, objc_object>,
    next: u32,
}

impl View for Mem {
    type V = Map<u32, objc_object>;

    closed spec fn view(&self) -> Map<u32, objc_object> {
        self.blocks@
    }
}

impl Mem {
    /// Well-formedness: every live block lies below the allocation cursor,
    /// and the null address is never live.
    pub closed spec fn wf(&self) -> bool {
        &&& FIRST_ADDRESS <= self.next
        &&& forall|a: u32| #[trigger]
            self.blocks@.contains_key(a) ==> FIRST_ADDRESS <= a && a < self.next
    }

    /// There is room for one more block.
    pub closed spec fn has_room_spec(&self) -> bool {
        self.next <= u32::MAX - BLOCK_SIZE
    }

    /// An empty address space.
    pub fn new() -> (r: Mem)
        ensures
            r.wf(),
            r@ == Map::<u32, objc_object>::empty(),
            r.has_room_spec(),
    {
        Mem { blocks: HashMap::new(), next: FIRST_ADDRESS }
    }

    /// Whether another block can be allocated.
    pub fn has_room(&self) -> (r: bool)
        ensures
            r == self.has_room_spec(),
    {
        self.next <= u32::MAX - BLOCK_SIZE
    }

    /// Whether `addr` is the address of a live block.
    pub fn is_live(&self, addr: u32) -> (r: bool)
        requires
            self.wf(),
        ensures
            r == self@.contains_key(addr),
    {
        self.blocks.contains_key(&addr)
    }

    /// Allocate a fresh block and write `value` into it.
    pub fn alloc_and_write(&mut self, value: objc_object) -> (r: u32)
        requires
            old(self).wf(),
            old(self).has_room_spec(),
        ensures
            final(self).wf(),
            r != 0,
            !old(self)@.contains_key(r),
            final(self)@ == old(self)@.insert(r, value),
    {
        let addr = self.next;
        self.blocks.insert(addr, value);
        self.next = self.next + BLOCK_SIZE;
        addr
    }

    /// Read the header of a live block.
    pub fn read(&self, addr: u32) -> (r: objc_object)
        requires
            self.wf(),
            self@.contains_key(addr),
        ensures
            r == self@[addr],
    {
        *self.blocks.get(&addr).unwrap()
    }

    /// Overwrite the header of a live block.
    pub fn write(&mut self, addr: u32, value: objc_object)
        requires
            old(self).wf(),
            old(self)@.contains_key(addr),
        ensures
            final(self).wf(),
            final(self).has_room_spec() == old(self).has_room_spec(),
            final(self)@ == old(self)@.insert(addr, value),
    {
        self.blocks.insert(addr, value);
    }

    /// Free a block. Freeing an address that is not live changes nothing.
    pub fn free(&mut self, addr: u32)
        requires
            old(self).wf(),
        ensures
            final(self).wf(),
            final(self).has_room_spec() == old(self).has_room_spec(),
            final(self)@ == old(self)@.remove(addr),
    {
        self.blocks.remove(&addr);
    }
}

} // verus!

//! Laws of the object lifecycle, stated over the contracts of `ObjC` and
//! proved from them.

use crate::mem::objc_object;
use crate::mem::Mem;
use crate::objects::{count_step, id, AnyHostObject, Class, HostObject, HostObjectEntry, ObjC};
use vstd::prelude::*;

verus! {

/// One step of a retain/release sequence: `true` is a retain, `false` a
/// release.
pub open spec fn delta(op: bool) -> int {
    if op {
        1
    } else {
        -1
    }
}

/// Count after replaying `ops` on an entry whose count is `rc`, one
/// `count_step` per call (the step that the contracts of
/// `increment_refcount` and `decrement_refcount` state), and the number of
/// calls that answered `true`. A refused call leaves the count as it was.
pub open spec fn replay(rc: Option<u32>, ops: Seq<bool>) -> (Option<u32>, nat)
    decreases ops.len(),
{
    if ops.len() == 0 {
        (rc, 0)
    } else {
        let rest = ops.subrange(1, ops.len() as int);
        match count_step(rc, ops[0]) {
            None => replay(rc, rest),
            Some((next, last)) => {
                let (r, k) = replay(next, rest);
                (r, if last {
                    k + 1
                } else {
                    k
                })
            },
        }
    }
}

/// Starting from `count` owners, every prefix of `ops` leaves at least one
/// owner and no more than the count can hold.
pub open spec fn stays_owned(count: int, ops: Seq<bool>) -> bool
    decreases ops.len(),
{
    ops.len() == 0 || {
        let next = count + delta(ops[0]);
        &&& 1 <= next <= u32::MAX
        &&& stays_owned(next, ops.subrange(1, ops.len() as int))
    }
}

/// Owners added minus owners removed by `ops`.
pub open spec fn balance(ops: Seq<bool>) -> int
    decreases ops.len(),
{
    if ops.len() == 0 {
        0
    } else {
        delta(ops[0]) + balance(ops.subrange(1, ops.len() as int))
    }
}

/// While owners remain, no release answers `true` and the count is the
/// number of outstanding owners.
pub proof fn lemma_no_signal_while_owned(n: u32, ops: Seq<bool>)
    requires
        n >= 1,
        stays_owned(n as int, ops),
    ensures
        replay(Some(n), ops) == (Some((n + balance(ops)) as u32), 0nat),
        1 <= n + balance(ops) <= u32::MAX,
    decreases ops.len(),
{
    if ops.len() > 0 {
        let rest = ops.subrange(1, ops.len() as int);
        let next = (n + delta(ops[0])) as u32;
        lemma_no_signal_while_owned(next, rest);
        assert(count_step(Some(n), ops[0]) == Some((Some(next), false)));
    }
}

/// A sequence of retains and releases on a reference-counted object, in
/// which the allocation counts as the first owner: exactly one release
/// answers `true`, and it is the one that removes the last owner. So after
/// `k` retains, the object takes `k + 1` releases before one answers
/// `true`, and the object is then pending deallocation.
pub proof fn lemma_release_signals_once(n: u32, ops: Seq<bool>)
    requires
        n >= 1,
        stays_owned(n as int, ops),
        n + balance(ops) == 1,
    ensures
        replay(Some(n), ops.push(false)) == (None::<u32>, 1nat),
        replay(Some(n), ops).1 == 0,
    decreases ops.len(),
{
    lemma_no_signal_while_owned(n, ops);
    if ops.len() == 0 {
        let s = ops.push(false);
        assert(s.subrange(1, s.len() as int) =~= Seq::<bool>::empty());
        assert(s[0] == false);
        assert(balance(ops) == 0);
        assert(count_step(Some(n), false) == Some((None::<u32>, true)));
        assert(replay(None::<u32>, Seq::<bool>::empty()) == (None::<u32>, 0nat));
    } else {
        let s = ops.push(false);
        let rest = ops.subrange(1, ops.len() as int);
        let next = (n + delta(ops[0])) as u32;
        assert(s.subrange(1, s.len() as int) =~= rest.push(false));
        assert(s[0] == ops[0]);
        lemma_release_signals_once(next, rest);
        assert(count_step(Some(n), ops[0]) == Some((Some(next), false)));
    }
}

/// A freshly allocated object starts with one owner and reads back the
/// class it was allocated with. When every entry of the table has a live
/// block (as `ObjC::new` and every operation of `ObjC` keep it),
/// `alloc_object` succeeds; its result `h` then has the entry that this law
/// describes and `read_isa(h)` returns `isa`.
pub proof fn lemma_alloc_starts_owned(
    objc: ObjC,
    mem: Mem,
    after: Map<id, HostObjectEntry>,
    mem_after: Map<u32, objc_object>,
    h: id,
    isa: Class,
    host_object: AnyHostObject,
)
    requires
        objc.tracked_by(&mem),
        after == objc@.insert(
            h,
            (HostObjectEntry { host_object, refcount: Some(1u32), static_lifetime: false }),
        ),
        mem_after == mem@.insert(h, objc_object { isa }),
    ensures
        after.contains_key(h),
        after[h].refcount == Some(1u32),
        !after[h].static_lifetime,
        mem_after.contains_key(h),
        mem_after[h].isa == isa,
{
}

/// An empty table is tracked by any memory, so the precondition of the
/// success clause of `alloc_object` holds from the start.
pub proof fn lemma_empty_table_is_tracked(objc: ObjC, mem: Mem)
    requires
        objc@ == Map::<id, HostObjectEntry>::empty(),
    ensures
        objc.tracked_by(&mem),
{
}

/// A new table and a new guest memory hold the same objects (none), so the
/// one-entry-per-live-block invariant holds from the start and, by the
/// contracts of allocation and deallocation, after every such call.
pub proof fn lemma_new_table_mirrors_new_memory(objc: ObjC, mem: Mem)
    requires
        objc@ == Map::<id, HostObjectEntry>::empty(),
        mem@ == Map::<u32, objc_object>::empty(),
    ensures
        objc.mirrors(&mem),
        objc.tracked_by(&mem),
{
}

/// Every entry keeps a live block when the table gains no handle and memory
/// loses no block: so retain, release, `borrow_mut`
/// (which keep the table's handles) and `write_isa` (which keeps the live
/// blocks) preserve what `alloc_object` needs to succeed.
pub proof fn lemma_tracked_by_monotone(before: ObjC, after: ObjC, mem: Mem, mem_after: Mem)
    requires
        before.tracked_by(&mem),
        after@.dom().subset_of(before@.dom()),
        mem@.dom().subset_of(mem_after@.dom()),
    ensures
        after.tracked_by(&mem_after),
{
    assert forall|o: id| #[trigger] after@.contains_key(o) implies mem_after@.contains_key(o) by {
        assert(before@.dom().contains(o));
        assert(mem@.contains_key(o));
        assert(mem@.dom().contains(o));
    }
}

/// A static-lifetime entry of a well-formed table has no count, so retain
/// and release refuse it with `StaticLifetimeViolation`.
pub proof fn lemma_static_never_counted(table: Map<id, HostObjectEntry>, o: id)
    requires
        table.contains_key(o),
        table[o].wf(),
        table[o].static_lifetime,
    ensures
        table[o].refcount is None,
{
}

/// The release of the last owner makes the entry deallocatable: it answers
/// `true` and leaves the entry with no count and no static lifetime, which
/// is what `dealloc_object` asks; after it, the handle has no entry. While
/// owners remain, the count is `Some` and `dealloc_object` refuses it.
pub proof fn lemma_dealloc_after_last_release(table: Map<id, HostObjectEntry>, o: id)
    requires
        table.contains_key(o),
        table[o].wf(),
        table[o].refcount is Some,
    ensures
        table[o].refcount == Some(1u32) ==> {
            let after = table.insert(o, HostObjectEntry { refcount: None, ..table[o] });
            &&& count_step(Some(1u32), false) == Some((None::<u32>, true))
            &&& after[o].refcount is None
            &&& !after[o].static_lifetime
            &&& !after.remove(o).contains_key(o)
        },
        !table[o].static_lifetime,
{
}

/// What is written through `borrow_mut` is what a later `borrow` of the
/// same type reads: the entry's payload becomes `v.to_any()`, from which the
/// downcast to `T` gives back `v`.
pub proof fn lemma_payload_write_then_read<T: HostObject>(
    table: Map<id, HostObjectEntry>,
    o: id,
    v: T,
)
    requires
        table.contains_key(o),
    ensures
        ({
            let after = table.insert(o, HostObjectEntry { host_object: v.to_any(), ..table[o] });
            after.contains_key(o) && T::from_any(after[o].host_object) == Some(v)
        }),
{
    T::lemma_from_to_any(v);
}

/// A payload downcasts only to its own type: a counter payload is no
/// trivial one, and the reverse.
pub proof fn lemma_downcast_checks_type(any: AnyHostObject)
    ensures
        crate::objects::TrivialHostObject::from_any(any) is Some
            <==> crate::objects::CounterHostObject::from_any(any) is None,
{
}

} // verus!

//! Object-model core of an Objective-C runtime emulated on top of a guest
//! address space: guest-visible object headers, host-side bookkeeping,
//! reference counting and typed access to host payloads.

pub mod mach_o;
pub mod mem;
pub mod laws;
pub mod objects;

//! Verified building blocks of a small teaching operating system: page-table
//! entries and an SV39 page table, file-descriptor tables, heap allocators,
//! memory primitives, lock state machines, a green-thread scheduler and
//! hand-written futures.

pub mod pte;
pub mod sv39;
pub mod fd_table;
pub mod atomic_counter;
pub mod bump_allocator;
pub mod free_list_allocator;
pub mod mem_primitives;
pub mod rwlock;
pub mod green_threads;
pub mod futures;
pub mod work;

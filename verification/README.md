# oscamp

Verified building blocks of a small teaching operating system, written in
Verus.

`src/` is the verified library:

- `pte`: RISC-V SV39 page-table entries (build, decode, permission checks).
- `sv39`: a three-level SV39 page table with 4 KiB pages and 2 MiB
  superpages; the walk is the specification of `translate`, and the effect of
  `map_page` / `map_superpage` on every translation is proved.
- `fd_table`: a file-descriptor table that reuses the smallest closed fd.
- `bump_allocator`, `free_list_allocator`: heap allocators over an address
  range (alignment, bounds, first fit, reuse of freed blocks). The free-list
  allocator tracks its live blocks and proves that they stay inside the
  region and never overlap, whether carved fresh or taken from the list.
- `mem_primitives`: memcpy, memset, overlapping memmove, strlen, strcmp on
  byte slices.
- `atomic_counter`: a counter on one atomic word.
- `rwlock`: the state word of a writer-priority read-write lock and its
  transitions, with mutual exclusion proved.
- `green_threads`: round-robin scheduling decisions for green threads.
- `futures`: countdown and yield-once futures as poll-by-poll state machines.
- `work`: the per-item work handed to threads and tasks.

`app/` holds what runs around the library: threads, channels, child
processes, C entry points over raw pointers, `GlobalAlloc` and lock types,
`Future` impls, tokio tasks, and the riscv64 context switch.

`tests/` exercises the library on concrete values.

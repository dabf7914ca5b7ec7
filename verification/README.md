# nmm

A memory-management core whose logic is verified with Verus, with the workspace tools that
ship beside it.

## Layout

- `src/` is the verified library. Every executable function carries a `requires` / `ensures`
  contract that Verus proves.
  - Addresses, pages and frames: `arch`, `addr`, `align`, `primitives`, `index`,
    `accessor` (building and taking apart virtual addresses), `table` (page-table entries).
  - Allocation bitmaps: `bits`, `bitptr`, `bitmap` (set, clear, search, first-fit
    allocation), `alloc_state` (the scanning state machine).
  - Memory managers: `walker` (the boot-time memory-map walker), `managers` (virtual and
    physical memory managers), `provider` (where the frames of a mapping come from).
  - Paging decisions: `fragment` (splitting ranges into the largest aligned pages),
    `translate` (what page-table entries say an address maps to, which parent tables can be
    freed, one step of copying mappings), `kernel_map` (the kernel's address-space layout),
    `mem` (flags, errors, layouts, address-space state).
  - Workspace tools: `meta` and `resolve` (resolving `cargo metadata` into packages), `pci`
    (parsing the PCI id database and laying it out in binary form).
- `tests/` holds the tests, run against the compiled library.
- `app/` is the program around the library: it runs `cargo metadata`, parses its JSON, fetches
  and writes the PCI id database, and keeps the process-wide address-space state. Verus does not
  see it.

Reading and writing live page tables, loading the page-table root and flushing the TLB are
hardware work. They stand in neither `src/` nor `app/`; `src/` holds the decisions that such
code takes on the values it reads.

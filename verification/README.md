# kernel

The logic of a small hobby kernel, written in Verus and verified: the
capability registry and cap tables, the service loader and its bootstrap
ceremony, the brokers, IPC endpoints and the interim bridge, pipes and file
descriptors, the block layer, sector cache and a minimal ext2 volume, the
buddy frame allocator and frame-backed executable images, demand paging
and mmap decisions, ELF parsing, load
plans and relocation, signed-executable manifests, the framebuffer and
desktop rendering, and the boot gate that collects the subsystem checks.

- `src/` is the verified library. Each public function states in its
  contract what it returns and how it changes the state it is given; the
  laws that span several calls are public proof functions (`lemma_*`).
- `tests/` exercise the library on concrete values.
- `app/` is the boot driver: port and memory I/O, the serial console and the
  main loop. It hands plain values to the library and is not verified.

Two outside crates are called from the library behind trusted items whose
contracts are stated in their doc comments: `crossbeam-queue` (the mouse
event queue) and `ed25519-dalek` (signature checks).

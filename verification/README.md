# touchhle

The core of an emulator for iPhone OS apps, written in Verus: the parts that
decide things are verified against contracts, the parts that touch the host
are kept apart.

## Layout

- `src/` is the verified library.
  - `mem.rs` is the 32-bit guest memory (a flat address space with a bump
    allocator); `objc/` builds Objective-C objects and weak references on
    it, and the semaphores and C++ ABI services keep their guest objects
    there.
  - `mem64.rs` is the 64-bit guest memory: a sorted list of disjoint
    mappings with permissions, and the allocator on top of it;
    `mem64_laws.rs` states what reads give back of writes and copies.
  - `mach_o64.rs` and `mach_o64/` load ARM64 Mach-O images: the header
    checks, the dyld opcode tables, the chained fixups, the segments, the
    symbol table and the entry point.
  - `options.rs` and `options/` read command-line options (which option an
    argument names, and whether its value is well-formed) and the per-app
    options file.
  - `gdb.rs` and `gdb/` are the GDB remote protocol: packet framing and
    the reply to each request.
  - `libc/`, `frameworks/`, `gles/` hold the emulated system services
    whose rules can be stated: semaphores, C++ ABI guards and casts,
    `stat`, `getpwnam`, movie demuxing, touch bookkeeping, GL state.
- `tests/` runs the library on concrete inputs.
- `app/` is the host side: files, sockets, threads, floating-point input
  handling and the outside crates' I/O. It calls the library and performs
  what the library decides.

Where the library calls the `mach_object` crate, the call stands behind a
small trusted wrapper whose contract says what the crate returns; everything
around the call is verified.

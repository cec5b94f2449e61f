# mmtk_julia

The rules by which a Julia runtime and an MMTk-style garbage collector understand each other,
written in Verus: where the references of an object are, how large it is, which roots a thread has,
how slots are read and written, and what a write barrier tells the collector.

- `src/` is the verified library. It works on an image of memory, not on raw pointers. The numbers
  that depend on how the runtime was compiled (field offsets, sizes, small type tags) are data in
  `JuliaAbi`, `SmallTags` and `KnownTypes`.
- `src/julia_mlir/` is the binding for compiled programs that run without the runtime.
- `tests/` runs the library on small heaps.
- `app/` is the rest of a process: raw memory, the C interface in both directions, and the core of
  the collector behind a trait, which the program links in.

A scan is a list of steps for each object (`object_steps`), which `traversal` takes: a step either
reports a slot, or hands on an address. An address in the main or in the large-object space is
reported; any other address that may be an object is scanned in place, once in every collection.
The roots in the frames of shadow stacks are reported with the addresses of their own slots, wherever
the stack lies.

One function of the standard library is trusted and not proved: `String::from_utf8_lossy`, which
turns the bytes of a symbol into text.

# fulgur_wasi

The verified core of the WASI bindings for the fulgur HTML-to-PDF engine.
A host (wazero, wasmtime, ...) loads the module and talks to it over a small
C ABI: it reserves regions to pass bytes in and out, and reads the message of
the last failed call.

- `src/memory.rs`: a model of the memory shared with the host: bytes
  addressed by offset, with a table of live regions (first-fit placement,
  offset 0 never handed out, regions never overlap, none longer than
  `isize::MAX`), and the packed `(ptr << 32) | len` results.
- `src/error.rs`: the last-error slot and the copy of its message into that
  memory.
- `src/options.rs`: engine options and page-size names.
- `src/engine.rs`: engine state, the handle table over `slab::Slab`,
  partial-override configuration and the builder calls a render makes.
- `app/`: the `extern "C"` exports. The memory model is laid over one
  buffer allocated once, so an address given to the host is the buffer's
  address plus the model's offset. `app/` also holds the serde shape of the
  options and the calls into fulgur itself (font decoding, margins in
  points, rendering).

# interner

A pool of interned strings, verified with Verus.

- `src/` is the verified library. `pool.rs` stores each distinct content once,
  in a slot that never changes, with a one-byte marker per slot that caches
  whether the content holds a NUL byte. `intern.rs` is the `Copy` handle of a
  slot; `cstr.rs` the handle whose content is known to be NUL-free, and its
  error; `order.rs` orders handles by the bytes of their contents; `bytes.rs`
  and `text.rs` hold the byte and text facts these rest on.
- `app/` puts one pool behind a process-wide lock and gives the handles the
  std formatting, serde and pyo3 traits.

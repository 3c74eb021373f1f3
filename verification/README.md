# cutile

Host-side logic of a tile-kernel runtime: tensor metadata, partitions and their
launch grids, launch checks, launch plans and their cache, and the decisions that
expand a kernel module.

- `src/` is the library. Every function states its result in a contract that
  Verus proves; properties that relate several functions are public proof
  functions.
- `tests/` runs the library on concrete values.
- `app/` is the ordinary Rust around it: driver calls, locks and shared handles,
  process-wide registries, and token streams.

What the library takes on trust are the calls that leave it: the hashes of
`rustc-hash` and `sha2`, the case conversion of `convert_case` and of `str`, and
the handle count of `Arc`. Each stands in one small function whose documentation
says what is claimed of the call.

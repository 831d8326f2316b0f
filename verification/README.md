# norted

Decisions of the Norted server, verified with Verus: which runtime serves a model, what a load, a
stop or a request does to the backends, how downloads queue, what a removal may remove, and what the
commands show and refuse.

- `src/` is the verified library. Each module states its types, their models and the contracts of its
  functions; public proof functions named `law_…` state what holds across several of them. What is
  taken from outside crates without proof stands in `src/outside.rs` and `src/hashing.rs`.
- `tests/` runs the library on concrete values.
- `app/` is the program around the library: processes, files, the network and the terminal. It hands
  the library plain values and carries out what the library decides. It needs the `norted_core`,
  `norted_engine_*` and `norted_tui` crates beside those of `Cargo.toml`.

# sim_foundation

Verified foundation crates of the SIM runtime: cancellation lifetimes,
layered library configuration, conformance receipts and support graphs,
the cookbook recipe engine, host-port and platform-time models, the feature
index, and the index vault.

- `src/` is the library, verified by Verus. Functions state what they
  return in `requires`/`ensures` contracts; the card projections, whose
  result is an opaque kernel value made by the context's factory, state
  what they hand to it through the exact `*_card_spec` contracts instead.
  Calls into `sim-kernel`, `sim-table-core` and `sha2` go through small
  trusted wrappers whose contracts are documented where they are declared.
- `tests/` runs the library on concrete inputs.
- `app/` is the runtime glue Verus does not see: directory walks and file
  reads, shared cancellation for async tasks, host ports bound in kernel
  environments, platform-time bindings and kernel shape reports.

# aaos

A runtime for software agents, with its decisions verified by Verus.

- `src/` is the library: the registry of agents, their life cycle and
  supervision, the scheduling of calls of the model, plans and their execution,
  the memory of conversations, and the tools that agents call. What each
  function does is stated in its contract and proved.
- `app/` is the runtime around it: files, programs, the network, the clock, and
  the tasks that agents run in.
- `tests/` runs the library on concrete values.

The library decides and the runtime acts. Where a decision needs something that
only the runtime can find out (whether a capability permits a path, what a
program printed, what the model answered), the library takes it as an argument.

Outside crates are called from the library through small wrappers whose
contracts are believed: `serde_json` writes and reads JSON, `uuid` identities,
`chrono` dates, `sha2` digests, `reqwest` takes addresses apart, and `dashmap`
holds what is shared.

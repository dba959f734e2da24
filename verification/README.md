# mlua-isle

Thread-isolated Lua VMs with cancellation, pools and structured tasks, with
the logic verified in Verus.

A Lua VM cannot cross threads, so it is confined to one and takes requests
over a channel. Long-running Lua code is interrupted through a cancellation
token that the VM's debug hook looks at. Coroutine requests and the tasks they
spawn form a tree of scopes; a request resolves only after everything it
started has ended.

- `src/` decides: which tokens a cancel reaches, when a scope may close and
  by when, when the hook checks for a cancel and yields, what error a raised
  Lua value becomes, which VM a pool hands out. Every function has a contract,
  and the promises that span functions are the `law_*` proof functions.
- `app/` performs: it runs the threads, sends over the channels, polls the
  futures, and keeps the state of a VM in its app data.
- `tests/` runs the library against a real Lua VM.

What is believed without proof stands in `src/lua.rs`, and next to its only
users in `src/hub.rs` (what a hook is told and answers) and `src/runtime.rs`
(durations).

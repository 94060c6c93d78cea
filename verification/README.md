# xharness

The decision core of the XHarness agent host, written in Verus: every
function in `src/` carries a contract and is proved against it.

- `interaction` — the structured user-question tool: request validation,
  the per-interaction draft/resolve/cancel state machine.
- `jobs` — the background job registry as a state machine: per-owner
  capacity, reservations, ids, bounded output buffers, kill and shutdown.
- `process`, `utf8tail` — bounded stream capture that never splits a UTF-8
  scalar, capture-worker outcomes, and the credential-name scrubber.
- `statecheck` — the host/agent turn decision table and its named profiles.
- `state`, `models`, `restore` — permission presets, model routes and the
  route registry, restore reports.
- `titles`, `autotitle` — title validation, excerpts, the conversation
  sample and the decisions of one automatic title step.
- `sessions`, `subagents`, `workspaces`, `wire` — session listing, search
  and history pages; fork cuts and child records; child-session navigation;
  workspace mutations and restore-time attachment; wire helpers (slash
  commands, directory names, stream ids, fingerprints).
- `lifecycle`, `selection`, `queue`, `prompt` — the decisions of the
  session-create, model-selection, queue-update and prompt-admission
  requests, each taken before the request's own I/O.
- `guard` — the read-only latch of a turn whose question was deferred.

Each module states its laws as `law_*` proof functions.

Not here: the settings processor (JSON merge and set/unset paths over
namespaces whose type, validator and model-namespace name the host does not
define), the agent runtime and its model catalog, the settings namespace
catalog, and the projection of stored session events to the web (their
event and usage types live in session and core crates that are not part of
this build).

`app/` is ordinary Rust around the library: the async job registry front
(locks, hooks, broadcasts), Unix process supervision (spawn, signals, pipe
draining) and JSON at the wire.

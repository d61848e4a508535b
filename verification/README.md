# er_character_scale

Verified decision logic of a character-scale mod for Elden Ring: which cloth
and collision work runs on a frame, whose cloth a character owns, which
render sources native writeback selected, how scale rules resolve, and when
shared cloth resources may be scaled.

`src/` is the library, verified with Verus:

- `schedule` — per-frame refresh, transition-queue and binding-audit rules.
- `owner_scope` — cloth owner routes of a character, read through a word reader.
- `render_scale` — render-source masks captured from native writeback data.
- `config` — rule validation and scale resolution.
- `effects` — the player's scale from special effects, and its clamp.
- `local_pass` — the integer control of a cloth local-dimension pass, as a
  step function.
- `aabb_pass` — the counting and retry control of a collision-box pass.
- `step_json` — the `ordered_steps` member of a capture report.
- `retry` — bounded capture and collision-box retries.
- `dimension` — progress of a chunked dimension transition.
- `shared` — grouping of consumers that share cloth resources, span merging.
- `shared_fields` — canonical original baselines of fields shared between
  cloth resources.
- `connect` — connection through chains of links, the model the grouping is
  stated against.
- `field_spans` — writable field spans of a dimension object.
- `identity` — layout identity of captured objects: roots, pointers and
  bounded native arrays, read again before reuse.
- `topology` — the cloth simulations a character reaches through its
  owner routes.
- `memory` — the per-thread permission cache of one memory operation.
- `ordered_step` — ordering rules of a recorded cloth solver step.
- `bytes` — little-endian reads from byte buffers.

`app/` holds what the library leaves to its callers: configuration files
(TOML through serde), operating-system memory queries and the log file (both Windows-only), and the
floating-point conversions. `tests/` exercises the library.

The mod's drivers are not included: the DLL entry point and task thread,
the per-frame passes that read and write game memory (the local-dimension
and collision-box passes whose decisions `local_pass` and `aabb_pass`
make, the shared-resource preparation, the ragdoll and capsule scalers),
the hooks and the probes. They depend on the game's type bindings and
hooking crates and on runtime modules that are not part of this project's
source; nothing in `app/` runs the pass state machines.

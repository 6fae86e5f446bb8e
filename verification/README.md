# openzax

The decision logic of the OpenZax assistant (the terminal agent, its
planner and memory, the skill marketplace, signing, enterprise access
control and the MCP client) as a library verified with Verus, and the
`openzax` command around it.

## Layout

- `src/` is the verified library. Every public function states in its
  `ensures` what it returns or changes, over spec functions, `Seq`, `Set`
  and the views of the library's types. Laws that relate several calls
  (what a replay gives back of a recording, that two generators with one
  seed draw the same numbers, the ban after the third violation, the role
  hierarchy, and others) are public proof functions beside the code they
  speak of.
- Calls into outside crates (serde_json, chrono, uuid, sha2, hmac, base64,
  ed25519-dalek) stand in small `#[verifier::external_body]` wrappers whose
  doc comments say what their contracts claim of the outside code.
- `app/` is the program: argument handling, the terminal loop, file,
  process and network I/O. It hands the library plain values and performs
  the actions the library decides. The only decisions it keeps are those
  made in floating point (model scores and the order of the fallback
  chain, retry delays, budget fractions, averages and costs, in
  `app/scoring.rs`), which Verus does not reason about.
- `tests/` runs the library on concrete values.

## Modules

- `agent`, `context`, `prompt`, `llm`, `routing`: the agent's tool loop,
  context assembly within a token budget, prompts, local models and model
  routing.
- `planner`, `plan_order`, `delegation`, `deterministic`, `selfhealing`:
  plans and their execution order (also for steps that share children),
  sub-agents, seeded generation and replay of recordings, retries.
- `market`, `market_api`, `scanner`, `signing`, `codec`: skill packages,
  their review, their signatures and the key registry.
- `auth`, `rbac`, `compliance`, `organization`, `fleet`, `orchestration`:
  sessions, roles and permissions, audit rules, seats, endpoint fleets and
  cloud tasks.
- `mcp`: the MCP client's requests, headers and transports, the mock
  server and the inspection steps.
- `cli`, `keys`, `sidebar`, `layout`, `text`, `update`, `clock`: the
  command's own decisions, the terminal interface's state machine and side
  panel, text layout, upgrades, and the clock and identifier sources.

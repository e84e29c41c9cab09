# crabot

A company-shaped multi-agent runtime: a domain model (company, departments, sessions,
task graphs, events), a capability registry, skills and slash commands, a session and
event store with replay, and the decisions agents make between the replies of a
language model. The library is written in Verus, and each function carries a contract
that Verus proves.

Layout:

- `src/` — the verified library.
  - `domain`, `plugins`, `mcp`, `registry`, `skills`, `runtime`: the model, capabilities,
    slash commands, and the default plan.
  - `store`, `replay`, `service`: sessions, event logs, configurations, replay frames,
    and the service that ties the runtime to the store.
  - `agent`, `carbot`: what agents send to and read from the model, the requirement
    values a tree of agents shares, the planner's rounds and the tool caller's steps.
  - `tooling`, `beans`, `naming`: tool schemas, factories that build values by name,
    and how tool functions are named and typed.
  - `index`, `text`, `clock`: ordered collections by name, text helpers, and the two
    readings of the outside world (fresh ids and the time).
- `tests/` — tests of the library.
- `app/` — the program: the HTTP API (axum), the agent loop that talks to an
  OpenAI-compatible service, the tools and their registry, and performance scores.

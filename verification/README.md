# guigu

The rules of a runtime for AI agents, verified with [Verus](https://github.com/verus-lang/verus).

An agent answers prompts: it asks a model, runs the tools that the model calls for, and goes on
until there is nothing left to do. Several agents can share a session as its lanes, a session is
kept in a file, and agents are reached over connections.

## Layout

- `src/` is the library. Everything in it is proved against its contract.
  - `message`, `event`, `provider`, `tool`, `agent`: what is said, reported and asked for.
  - `context`, `compactor`: how much a request may hold, what is cut and what is summarised.
  - `runtime`: commands, turns, tool calls and the loop of an agent, one step at a time.
  - `session`: the tree of a session, its log and its lanes.
  - `server`, `remote`: the registry of a server, its requests, and the two ends of a connection.
  - `plugin`: plugins, their hooks and the tools that they bring.
  - `tools`, `file_lock`, `paths`: the tools that come with the runtime and what they share.
  - `json`, `schema`, `text`, `ordered`, `collections`: what the rest is built on.
- `app/` is ordinary Rust around the library: tasks, files, processes, sockets and the JSON forms
  of the types.
- `tests/` runs the library on examples.

## How the library is driven

What has to wait for something does not wait in the library. A run of an agent, a stream, a
connection or the start of a lane is a value with steps: each step says what to do next, and is
answered with what came of it. The contracts say what each step does for every answer, and the
laws (public proof functions whose names begin with `law_`) say what holds over several of them.

What is taken from other crates and from `std` without proof stands in functions marked
`external_body`, each with a contract and a comment that says what is relied on.

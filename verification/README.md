# llm_harness

A verified core for an LLM agent harness and the coding agent built on it:
session trees, context building, compaction, the turn loop's decisions,
skills and prompt templates, tool output formatting, settings and the
command line's decisions. The functions under `src/` carry contracts that
Verus checks, except the small trusted wrappers around std, `uuid`,
`chrono`, `serde_json`, `regex` and `globset` (marked
`#[verifier::external_body]`), whose contracts are believed, not proved.

Layout of `src/`:

- `types`, `errors`, `events`, `text`, `chars`: messages, content blocks,
  errors, provider events, and verified string helpers.
- `session`, `store`, `tree`, `branch_laws`, `repo`: session entries, the
  entry store of one session (append, cursor, leaves, paths, deletion), the
  branching session API, laws about paths and branches, and a repository of
  sessions (create, open, list, delete, fork).
- `compaction`: token estimates, cut points, file operations, the summary
  request and the compaction entry, with laws on where a cut lands.
- `agent_loop`, `turn`, `stream`, `convert`: retry policy, tool-call
  grouping and hook outcomes, the per-turn state machine, the streaming
  accumulator, and the conversion of messages for the provider.
- `agent`, `harness`: the agent's and the harness's state and the decisions
  of a run; the I/O around them lives in `app/`.
- `skills`, `prompt`, `context`, `tools`, `settings`, `cli`: skill and template
  parsing, the system prompt, project context files, tool formatting and
  search, layered settings, and the plan of a command-line run.

`app/` holds the program: file and network I/O, the provider client, the
terminal loop, and serde copies of the library's types.

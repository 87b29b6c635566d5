# session

The verified core of an agent session runner: the decisions a coding
agent's run loop makes between provider turns, and the text logic of its
tools, written in Verus with contracts over mathematical models and proved.

- `src/` is the library. Each module holds one part of the runner:
  - the loop's decisions: `turn` (doom-loop guard, recorded blocks,
    compaction retries, what follows a turn or a tool batch), `drain` and
    `inputs` (queued and steered input), `execute` (tool-call budgets and
    gates), `subagent`, `sidecar`, `llm_stream` (one streamed provider
    call), `run_entry` (the edges of a run), `event` (session events and
    their server-sent-event form);
  - skills: `latent`, `skill_context`, `skill_resolve`;
  - tools: `bash`, `timeout`, `bg` (the background-process registry),
    `read`, `edit`, `ls`, `glob`, `grep`, `search`, `plan`, `question`,
    `computer_use`, `chrome`, `research`, `serp`, `serp_parse`,
    `image_data`, `cli_tool`;
  - shared pieces: `text`, `web`, `streamline`, `steer_gate`,
    `tool_guard`, `dedup`, `idmap`, `strmap`.
  Calls into `url`, `base64`, `scraper` and std's case mapping and path
  handling go through small wrappers whose contracts are trusted; every
  other function is verified.
- `app/` is ordinary Rust around the library: spawning processes,
  background supervisors, file walks, JSON, the Chrome process, and the
  async plumbing of a provider call.
- `tests/` exercise the library with the real outside crates linked.

Laws that span functions stand in `src/` as public proof functions, for
example `event::sse_roundtrip`, `streamline::streamline_is_idempotent`,
`research::merge_is_bounded_and_duplicate_free` and the steer-gate laws.

# slimcode

A coding-agent command line for the Bailian (DashScope) OpenAI-compatible
endpoint: a prompt runs an agent loop with seven tools (`read`, `write`,
`edit`, `bash`, `grep`, `find`, `ls`), streams the transcript, and keeps
sessions as JSONL logs.

## Layout

- `src/` — the library, verified with Verus:
  - `text` — character-sequence helpers and their definitions;
  - `commands` — the command registry, lookup, prefix prediction and the
    fuzzy matcher;
  - `ai` — the provider configuration, the message and wire models, SSE
    framing, chunk-to-delta mapping, usage accounting and the interruptible
    read rule;
  - `agent` — reassembling a reply from deltas, the run state machine, the
    text `edit` engine and line windows;
  - `app` — configuration precedence and the `config.toml` merge, session
    naming and metadata, the system prompt, context compaction (estimate,
    threshold, kept tail, the summarization request and the new history),
    what each append writes to the append-only session log, log replay and
    the session quota;
  - `cli` — argument parsing and the launch rule, the REPL's line rule, the
    command routing of the terminal UI, how a failed turn closes the log,
    the text transcript, and the replay of a loaded history as transcript
    items.
- `tests/` — tests of the library.
- `app/` — the program: arguments and environment, files, the HTTP client,
  the tools, the loops that perform what the library decides.

# agent_config

The logic of a small toolkit that configures AI coding agents, written in
Verus and proved against its contracts:

- `shell` — a quote-aware splitter of shell command lines into segments of
  words, specified as a state machine (`lex`), with laws on well-formedness,
  quoting and separators.
- `footgun` — detection of the ripgrep `rg -rn` footgun and the refusal
  decision of the PreToolUse hook.
- `format_hook`, `grill`, `pane` — the decisions of the other hooks: when a
  formatted command replaces the proposed one, when a grilling session
  starts and with which skill, and the label of the terminal pane.
- `installer` — backup names for displaced files, path joining, the links
  that wire an agent, and the steps that make sure a tool is installed.
- `payload` — reading string fields of a hook's JSON payload (through
  `serde_json`).
- `text`, `decimal` — character classes, string helpers, decimal numerals.

`app/` is the command-line front end: stdin, environment, file system,
processes and JSON output. `tests/` runs the library on concrete values.

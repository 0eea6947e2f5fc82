# crab_code

The decision logic of Crab Code, an agentic coding command line that works
with any model provider, written as a Verus library: every function in
`src/` carries a `requires` / `ensures` contract that Verus proves.

## Layout

- `src/` — the verified library. Among its parts:
  - permissions: rule parsing (`rule_parser`), tool-filter and path globs
    (`permission_filter`, `glob`), allow/ask/deny rules and their
    inheritance (`permission_rules`, `permission_inherit`, `policy`,
    `permission_mode`, `auto_mode`, `permission_prompt`);
  - the agent loop's decisions: error recovery and context compaction
    (`recovery`, `error_class`), tool results and streaming assembly
    (`tool_results`), hooks (`hook`, `hook_config`);
  - bookkeeping: tasks, background jobs, plugins, the event bus and its
    filters (`task`, `job`, `plugin_registry`, `event_bus`, `event_filter`);
  - project tooling: project detection, dependency manifests, line
    statistics, content search, `CRAB.md` collection, `.gitignore`
    maintenance, incremental hashing, diffs (`project_detect`,
    `dependency_scan`, `file_stats`, `grep`, `crab_md`, `gitignore`,
    `incremental_hash`, `diff`);
  - settings: the settings model, key and value completion and the JSON
    Schema of `settings.json` (`settings`, `completion`, `settings_schema`).
- `tests/` — tests of the library on concrete values.
- `app/` — the `crab` command line: it reads directories, files and the
  environment, hands plain values to the library and prints the results.

Calls into outside crates (`regex`, `globset`, `similar`, `toml`,
`serde_json`) stand behind small trusted wrappers whose doc comments say
what their contracts claim of the outside code.

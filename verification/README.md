# muthr

A zero-trust orchestrator for local AI on Apple Silicon: it runs inference
engines on the host, keeps agent runtimes in per-project containers, and
serves MCP and search endpoints from a services container.

## Layout

- `src/` is the library, written in Verus. Each public function states in
  its contract what it returns, and the `law_*` proof functions state what
  holds across calls: the sandbox naming and mounts, network isolation,
  the session retry, the audit records, the bundle check, URL round trips,
  the order of starting the services, and more.
  - `config`, `engine`, `preset`, `runtime_config`, `model`: configuration,
    engine presets, runtime choice and the opencode runtime configuration.
  - `sandbox`, `workspace`, `session`, `containers`, `audit`, `status`:
    project sandboxes, from the workspace path to the session and its audit
    events.
  - `services`, `download`, `setup`, `theme`, `cli`, `ui`: the services
    containers, Hugging Face downloads, setup, themes and menus.
  - `text`, `number`, `json`, `kv`, `order`: strings, numbers, JSON values,
    key/value maps and sorting.
- `app/` is the program: command-line parsing, files, processes, the
  network and the terminal. It asks the library what to do and does it.
- `tests/` runs the library on concrete inputs.

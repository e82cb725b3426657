# winassoc

Rule-based routing of Windows file associations and URL protocols: a small
shim is registered once as the handler, and each launch is matched against the
rules of `config.toml` (path glob, host, URL pattern, modifier keys; the first
rule that matches wins) to pick the application that opens the target.

## Layout

- `src/` — the library, written in Verus and verified: parsing of targets,
  the routing engine, configuration validation, environment expansion, the
  settings model (apps, routes, rules, candidates), the registration plan and
  a model of the registry that it is checked against, the unregistration
  plan, the registry doctor, backup and restore decisions, the fallback after
  a failed launch, and the launch log format.
  Public proof functions (`law_*`) state the properties that hold across
  operations (for example, that applying the registration plan twice changes
  nothing more, or that removing an added route gives back the first state).
- `tests/` — ordinary Rust tests of the library.
- `app/` — the program around it: the command line, file and registry I/O,
  Windows API calls, and the launch of the chosen application.

The glob matching itself is done by the `globset` crate; the library calls it
through one trusted wrapper whose contract names its result.

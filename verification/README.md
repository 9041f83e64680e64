# dsh-desktop

A desktop launcher for a local web service (the DeepSeek Harness web UI):
it starts the service on launch, watches it, shows its interface in a
window, offers package updates and stops the service on exit.

- `src/` is the verified library (Verus): the launcher's decisions and the
  texts it builds from plain values, with contracts over mathematical models.
  Messages that wrap an I/O error, and the I/O itself, stay in `app/`.
  - `version`: splitting and ordering version strings, with the order laws.
  - `manager`: the record of the service and its transitions (start, watch,
    stop, restart, navigation), with the watcher's laws.
  - `update`: version checks, one update at a time, update messages, reading
    versions from JSON.
  - `health`: the health request, the HTTP reply check, the health verdict.
  - `paths`: Windows verbatim prefixes, the deployment-directory guard, the
    data directory, deployment markers, runtime selection.
  - `service`: port plan, address, command lines, log lines.
  - `runtime`: where node and the service's entry point are looked for,
    environment overrides first.
  - `log`: the tail of the log.
  - `text`: character-level helpers (splitting, lines, trimming, decimals).
- `app/` is the Tauri shell around it: processes, sockets, files, windows
  and events.
- `tests/` runs the library on concrete values.

## Environment

| Variable | Meaning |
| --- | --- |
| `DSH_HOME` | the service's data directory, `~/.dsh` by default |
| `DSH_NODE_BIN` | overrides the node executable (for debugging) |
| `DSH_ENTRY` | overrides the service's entry point `bin.js` (for debugging) |

Other variables, such as API keys, are passed to the service unchanged and
are neither stored nor logged.

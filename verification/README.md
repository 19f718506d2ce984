# gdkit

A Godot toolkit for MCP clients: run Godot projects, check GDScript, run tests, import assets, export
builds, and look up the installed engine's API, over stdio or authenticated HTTP.

The library in `src/` holds the rules of it, with contracts that Verus proves. The program in `app/`
starts processes, reads files, reads socket addresses and speaks MCP; it asks the library what to run
and hands the outcomes back to be worded.

| Module | What it settles |
| --- | --- |
| `text`, `path` | Text operations and Windows paths, as functions on characters. |
| `process` | Cutting output into lines, the bounded capture, when a command is complete. |
| `testrun` | Which test command a project calls for, and the verdict on a run. |
| `export` | Reading `export_presets.cfg`, choosing preset and output, the artifact check. |
| `docs`, `cache` | The API reference: queries, rendering, and which copy serves a lookup. |
| `settings`, `config` | Persisted settings, the data directory, and what wins over what. |
| `http` | The transport, and the bearer gate. |
| `session`, `storage` | The registry of runs, and temporary directories. |
| `server` | What each tool hands to the engine, and what it reports. |

Public proof functions named `law_...` state what holds of the library as a whole.

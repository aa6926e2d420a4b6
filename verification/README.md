# h4_engine

A memory-scanning engine for inspecting and changing the memory of another
process: byte patterns with wildcards, scans for values and pointers,
iterative narrowing of candidates, heuristic discovery of game variables, a
small command terminal and the decisions of its front end.

- `src/` is the library, written and proved with Verus. Everything that
  decides something is there: pattern parsing and matching, the region walk
  that drives a scan, the differential filter, the discovery pass, the
  terminal's commands and the pulse test, the process categories, the
  debug console and the front end's filters. Each public function states
  its result in its contract; the laws that relate several calls are public
  proof functions.
- `app/` performs what the library asks for on Windows: opening a process,
  querying its regions, reading and writing its memory, listing processes,
  and the files of the front end (settings, profiles, status texts, console
  exports).
- `tests/` runs the library on concrete values, including simulated
  processes for the region walks and discovery passes.

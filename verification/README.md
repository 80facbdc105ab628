# mimir

The verified core of a desktop music library and player.

`src/` is a Verus library: every function states its behaviour in
`requires`/`ensures` and is proved. It holds the decisions of the
application: the transport and playlist state machines, search-query
shaping, tag parsing and file-name heuristics, sidecar lookup, cover
selection, the Folders view (matching files to rows, flattening and
sorting the tree), the scanner's change keys and tallies, tag-edit
statements, migration planning, log rotation and UTC timestamps.
Public `law_*` proof functions state properties that span calls.

`app/` is ordinary Rust around it: the SQLite store (`rusqlite`,
`r2d2`), directory walking (`walkdir`), watching (`notify`), tag reading
(`lofty`), decoding (`symphonia`), resampling (`rubato`), the logger's file
I/O, and, behind the `output` feature, playback (`rodio`, `cpal`).
Floating-point DSP (gain, EQ, resampling) lives there too.

The store's migration scripts are read at start-up from
`$MIMIR_MIGRATIONS_DIR` (default: `migrations/` beside the package).

# colgrep

Semantic code search: the decisions behind the `search`, `init`, `status` and
`clear` commands, written in Rust and proved with Verus.

`src/` is the library. Every function states in its contract what it returns,
and Verus checks that it does.

- `query`: from a regular expression and a query to the text that is searched
  for by meaning
- `matcher`: which lines of a unit a pattern is found in
- `subset`: narrowing a search by directories, files and patterns
- `ranking`: merging, ranking, selecting and listing results
- `display`: what is shown of results
- `session`: from an index that may be stale, damaged or in use to one that can
  be searched
- `search`: what is searched, and what comes of searching several paths
- `listing`: help for a path that does not exist
- `maintenance`: building and clearing indexes
- `paths`, `parts`, `state`, `settings`: where indexes are kept, paths by their
  components, the state beside an index, and the settings
- `text`, `lists`: texts and sequences

What the library takes on trust of `regex`, `xxhash-rust`, `dirs` and the
standard library is stated beside the call, with a comment that names the
function.

`app/` holds the commands: files, locks, printing, and the calls to the search
engine, which is handed to them as a trait. `tests/` runs the library.

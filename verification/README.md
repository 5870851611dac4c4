# hiera

Demand-driven loading and path-aware navigation for hierarchical spatial
data, verified with Verus.

- `src/loader.rs`: byte ranges, fetch messages, shallow expansions, load
  outcomes, and the `Loader` trait (item types and item identity).
- `src/navigator.rs`: the navigation core. A `Cursor` is a path of
  `(item, state)` pairs from the root; `Navigator::root_cursor` starts one,
  `Cursor::begin_expand` with `PendingExpansion` builds the children of a
  cursor one derived state at a time, `Cursor::parent` walks back up, and
  `Cursor::siblings_among` picks the siblings. The laws of the library are
  the `law_*` proof functions at the end of the file.
- `src/reader.rs`: the `Reader` trait.
- `app/lib.rs`: the asynchronous runtime: the `AsyncLoader` operations, the
  state-derivation callbacks, and `AsyncNavigator`, which awaits each source
  operation and hands its result to the core.
- `tests/`: tests of the core on a small in-memory hierarchy.

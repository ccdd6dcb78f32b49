# sloposcope

A desktop viewer of the dependency graph of the files that a change touches, for Git and
Jujutsu repositories. The library under `src/` holds its logic, written in Verus with
contracts that Verus proves:

- `graph`: nodes, edges and the graph; finalizing (dangling edges, self loops and
  duplicates dropped), restricting to a change set, resolving edge targets to node ids,
  building the graph from parsed files, and the updates made when a watched file changes.
- `parser`: the grammars, and turning tree-sitter query matches into a file node and its
  edges; the `Parser` trait and the query-driven `PluggableParser`.
- `languages`: the table of supported languages, their extensions, grammars, kinds and
  queries.
- `update`: parsing the changed files for a build, and bringing the files that the
  watcher saw change back into the graph.
- `vcs`, `jj`: reading the output of `git` and `jj` (logs, branches and bookmarks, changed
  files, diffs), paging through history, choosing the engine and the command arguments.
- `changes`: the map from changed file to status, with distinct keys.
- `session`: the settings, the graph cache, the refresh plan after a repository change,
  the file watcher's classification of events and its batching queue.
- `text`: the string operations the rest is written with, specified over `Seq<char>`.

`app/` is the Tauri program around the library: process and file I/O, the watcher thread,
the commands of the front end and the serialisable copies of the library's types.

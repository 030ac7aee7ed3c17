# path_server

A language server that offers path intellisense: completion of file paths
as they are typed, links on the paths written in a document, and navigation
to their targets.

The library under `src/` holds what the server decides, each function with a
contract that Verus proves:

- `parser/` — path candidates in a line of text (`line`, `inline`), the
  strings of a document (`extract`), read from its syntax tree per language
  (`syntax/ts_*`) or, without a tree, from its quoted runs.
- `document` — documents, their changes, and the conversion between byte
  offsets and (line, UTF-16 column) positions.
- `completion`, `config` — where to look for completions and which offers
  to keep.
- `resolver` — path tokens of a document, their overlap, the tokens shown
  under the highlight settings and the token under a cursor.
- `path_resolver` — completion of a typed path against the workspace roots.
- `text` — character widths, byte offsets and string helpers.
- `fs`, `workspace`, `client`, `error`, `version` — URIs and paths, the
  server's state, the client, errors, and release versions.

`app/` is the server binary: the protocol, file system access and logging
around the library.

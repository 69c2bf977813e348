# traversal-core

Finds traversal tags in text: `[traverse-tgt: NAME]` marks a target and
`[traverse-lnk: NAME]` a link to it. The library is verified with Verus.

- `src/tag_syntax.rs`: the tag grammar, stated over characters, and the search of a line
  for its first tag, proved to report the leftmost match with greedy repetition.
- `src/tags.rs`: tag locations filed by name (`TagIndex`, `TagList`) and the lists that
  parallel workers hand in (`CombinedTagList`).
- `src/registry.rs`: all tags of a scan in two flat tables.
- `src/report.rs`: the lines that the command line tool prints.
- `src/lsp.rs`: the log lines and the request and notification decisions of the language
  server.
- `app/`: the command line tool and the language server around the library: the directory
  walk, file search, threads and the protocol connection.

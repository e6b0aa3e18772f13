# code_graph_tools

The tools of a code-graph server, written and proved in Verus.

A code graph holds the symbols of a code base and how they relate: calls,
includes, inheritance. The tools list, search and sum up symbols, follow calls
and includes, find cycles, orphans and couplings, draw diagrams, and analyze a
code base in the background. They answer in compact JSON, in pages whose text is
held to a size, or with a message that says what is wrong with the request.

- `src/` is the library. Each function states what it answers for every input,
  over mathematical models of texts, lists and JSON values, and Verus proves it.
  Public proof functions state what holds of several functions together: that
  all pages together are the whole list and resume where they were cut, that only
  changed files are parsed again, that a running job is never replaced, that a
  record's file can be read off its id, that the distance between names is the
  least number of edits.
- `app/` is the server around the library: locks, threads, files and the
  protocol. The graph engine, the language plugins and the configuration are
  traits there.
- `tests/` runs the library on concrete values, with a small graph in memory.

What is taken from other crates is little and marked in the sources: the JSON
text of a string (`serde_json`), the protocol's result type (`rmcp`), the sending
half of a channel (`tokio`), and from the standard library the wall clock, the
last part of a path, lower case, and the quoting of a string.

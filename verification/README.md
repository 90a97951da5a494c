# distributed_doc_system

A shared-document system: nodes keep documents with version counters and
settle concurrent writes by a fixed rule (a write based on the current
version is taken; a write that competes with the current content wins when
its client id comes first in lexicographic order).

- `src/` is the verified library (Verus):
  - `document`: the document, its write rule and the laws of that rule;
  - `documents`: the simpler model guarded by the version alone;
  - `repository`: the documents of a node, listing by name, creation,
    writes with history entries, documents received from other nodes;
  - `node`: the storage node that judges writes announced on the network;
  - `web`: the web interface's view of the documents and its version labels;
  - `client`: the command language of the command-line client;
  - `store`: the keyed store behind the three collections;
  - `text`: string order, decimal text, dot-separated labels;
  - `ids`: the random document ids.
- `tests/` runs the library on concrete values.
- `app/` holds the programs: HTTP, network and terminal I/O around the
  library.

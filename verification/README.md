# rust-indexer

The rules of a local-first code indexer, verified with Verus: how collections
are named, what the local vector store holds, how an indexing run decides what
to do next, and what its results and refusals say.

## Layout

- `src/` is the library. Every item is verified; what is believed without proof
  is marked `external_body` or `assume_specification` and says which outside
  function it stands for.
  - `path`, `text`, `encoding`: Unix paths as bytes, text helpers, and the
    SHA-256, hexadecimal and JSON functions that come from outside crates.
  - `vectordb`: collection names and their scoping, the local store and its
    files, ranking, and the choice between the local store and a Milvus server.
  - `engine`: a run as a state machine (`control`), what holds of every run
    (`history`), its data and reports (`indexer`), the comparison with a manifest
    and the provenance record (`manifest`), batches and embedding.
  - `api`: the indexer that callers hold.
  - `report`: what the command line prints.
- `tests/` runs the library on concrete values and scenarios.
- `app/` is the command line around it: files, sockets, threads and floating
  point.

## How a run works

`api::Indexer::index` or `update` begins a run. The run asks one thing of its
host at a time (`IndexRun::ask`); the host does it and reports back
(`IndexRun::advance`), which also says what becomes of the status record on
disk. When nothing is asked any more, `IndexRun::finish` tells what was done or
why the run was refused or failed.

A refused run has changed nothing. An update never rebuilds. A run never writes
to another vector backend than the recorded one. These and other promises are
the public proof functions whose names start with `law_`.

# neuralnet

A multimodal neural-network library whose logic is verified with Verus: the functions in
`src/` carry `requires`/`ensures` contracts that Verus proves, except for a few small
trusted wrappers (marked `#[verifier::external_body]`, plus one `assume_specification`)
around calls into `std::path`, `std::hash`, UTF-8 decoding, `csv` and `libp2p`, whose
contracts are taken on trust from those libraries' documentation and sources. The laws of
the library (round trips of the file formats, the invariants of its tables and queues, the
permutations of its data loader) are stated and proved as proof functions.

## Layout

- `src/` — the verified library.
  - `text.rs`, `collections.rs`: text helpers with exact specifications, an
    insertion-ordered string map with unique keys.
  - `brain/`: the transaction-log and snapshot-bundle framing, snapshot paths, node
    metadata, the query-score cache, the background writers' state, brain decisions.
  - `cnn/`: the data loader and its shuffling, label grouping, image samples and their
    augmentations, classifier configuration and snapshot checks, micro-batch planning,
    the coalescing prediction queue, evaluation and training tallies.
  - `distributed/`: execution policy, errors, the libp2p transport's configuration
    checks and swarm loop, the peer table and the swarm registry.
  - `rag/`: document import from files, directories and CSV.
  - `tensor/`: backend selection and capabilities, tensor shapes and the checks of each
    operation, image-to-tensor reordering, the binary tensor format.
- `tests/` — tests of the library.
- `app/` — the process-facing side: environment settings, file and network I/O, threads,
  and the floating-point parts that the verified library does not hold: the CPU tensor
  operations, the feature extractor, the augmentation pipeline and the prediction plumbing
  around the coalescing queue. The trained classifier, the multimodal brain and its dumps
  are not part of this crate.

The outside crates are called through small trusted wrappers whose contracts state what the
crates document: `csv` for reading CSV, `libp2p` for parsing multiaddresses and peer ids.

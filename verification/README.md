# vless_harvester

Collects VLESS proxy links from a list of sources, keeps each usable node once, tests the nodes
through a local client, and writes two lists of what passed: all of it, and a short one with
limits on its length and on each provider's share.

The library in `src/` holds the rules, each proved against its contract:

- `vless_collector`, `harvest`, `report`: which links are usable nodes and how they are written,
  how they are deduplicated by fingerprint, and what is reported of each source.
- `config_builder`, `json`: the client configuration for a node.
- `stages`, `utils`, `schedule`: the test of a node as a state machine, the decisions of each
  stage, and when a run is due.
- `finalizer`: names, flags, ranking and the short list.
- `node`: how a node is written, and which nodes read back as they were written.
- `link`, `encoding`, `ledger`: the URL, Base64, percent-encoding and concurrent map crates, as
  the library relies on them.
- `text`, `order`, `params`, `speed`, `config`: the vocabulary of the above.

The program in `app/` does the input and output: it downloads, dials, starts the client, looks
addresses up and writes files. The rules above it asks of the library; its own are when to try
again: it waits for the network, replaces a database only when the new one is written, and looks
at the age of the last result once a minute. Speeds travel as the bit patterns of doubles; only
the program computes with them.

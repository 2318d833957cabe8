# txbase

The verified core of a small dBASE-centred database, written in Verus.

`src/` holds the logic with its contracts and proofs:

- `replication/`: the single-authority replication log (entries, follower
  progress, snapshots, transport pages, sidecar framing, error texts) and the follower's
  HTTP protocol (base URLs, request heads, response framing, retry schedule,
  the catch-up run as a state machine).
- `query/`: filter and join request validation, join cardinality and key
  grouping, the execution of a direct join (executor choice by cost, nested,
  hash, index-probe and merge pairs, the join filter, the row bound and the
  projection) and of a join pipeline stage by stage, row-at-a-time nested,
  index and merge joins, record filters (given the scalar order of JSON
  values), the conditions that index paths answer, query plans and their
  costs, record order under a sort, field paths and projections, physical
  and sorted result pages with their cursors, and record streams.
- `join_strategy.rs`: the choice of a physical join strategy from costs.
- `server.rs`: request routing.

Each `laws.rs` states, and proves, properties that span several functions.

`app/` is the host side that Verus does not see: the JSON documents with
their serde derives, query documents, error messages, the TCP side of the
HTTP client, a replica over a catalog host (which commits the entries that
the library accepts), the conversion of JSON records for joins with the
numbering of join keys by their JSON text, and record streams with their
async, threaded and bounded adapters.

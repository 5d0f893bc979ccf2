# OxideDB

OxideDB is a Couchbase-compatible document database. This crate holds its logic, verified with
Verus: what the code does is stated in contracts, and the contracts are proved.

- `src/cluster` — the partition map and its rebalancing, the cluster manager, failover, the election
  of the orchestrator, the consensus on configuration changes (Chronicle) and durable writes.
- `src/memcached` — the memcached binary protocol: packets, SASL/SCRAM, key-value and sub-document
  requests.
- `src/dcp` — streams of changes and the replication to other nodes.
- `src/fts` — full-text search: analysis, the inverted index, queries, ranking and highlighting.
- `src/auth`, `src/audit` — users, roles and permissions; the audit log.
- `src/api` — what the REST services answer.
- `src/tasks.rs`, `src/config.rs`, `src/error.rs` — settings, background tasks and errors.
- `src/text.rs`, `src/json.rs`, `src/strmap.rs` and the like — texts, JSON values and maps that the
  rest is built on.
- `src/clock.rs`, `src/crypto.rs`, `src/snappy.rs`, `src/unicode.rs` — calls into other crates and the
  standard library, with what is taken for granted of them.

What is proved of several functions together stands in proof functions whose names begin with `law_`.

`app/` is the server around the library: the command line, HTTP and TCP, floating-point scores, and a
store that keeps documents in memory. `tests/` runs the library on examples.

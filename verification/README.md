# cst

A replica of a replicated set of strings, verified with Verus.

- `src/node.rs`: the replica (`Node`), its operations and their abstract
  semantics (`NodeView::process`), and the laws of the replica: the log
  numbers its entries 1, 2, ..., logs only operations that changed the data,
  and replaying it rebuilds the data.
- `src/log.rs`: the operation log and its entries.
- `src/cluster.rs`: the decisions of the benchmark launcher (run mode, key
  owners, first client id, the request of each client round).
- `src/keys.rs`: the key slots of the nodes, kept in an `intmap::IntMap`.
- `app/`: the programs: a walk-through of one replica, and the febft
  benchmarks that drive the library.
- `tests/`: tests of the library on concrete values.

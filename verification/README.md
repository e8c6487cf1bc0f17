# nomad-lite

A small distributed job scheduler. Nodes form a cluster with Raft, keep one replicated log of
commands, and hand jobs out to workers, which run them in Docker containers.

- `src/` is the library, verified with Verus: the Raft state machine and its messages, the job
  queue and the assignment of jobs, the worker's decisions, the services, the dashboard's rules,
  and what the command line parses and prints.
- `src/raft/cluster.rs` models a whole cluster from the transitions of its nodes, and
  `src/raft/cluster_laws.rs` states what holds of it in every run: one leader in a term, matching
  logs, and committed commands that stay.
- `src/raft/storage_laws.rs` states what a node reads back of all that was ever written to its
  store, and `src/raft/saving_laws.rs` that a node which writes what is due after every step finds
  its state again after a crash.
- `app/` is the program around it: arguments, sockets, files, RocksDB, Docker.
- `tests/` runs the library, with clusters on a simulated clock.

What the library takes from outside (the clock, random numbers, identifiers, time formats, JSON
numbers) stands behind small functions in `clock`, `ids`, `text`, `raft::timer`, `raft::storage` and
`worker::executor`, each with a contract that says what is believed of it.

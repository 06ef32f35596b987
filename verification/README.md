# disttest

A suite of tests for a replicated key/value store and for the algorithms behind one: ranges and leases
on a single node, a cluster under partitions, kills and bad links, and then elections, log replication,
Paxos, atomic commitment and sagas as small programs that answer command lines.

`src/` is the part that decides, verified with Verus: what every test demands, what a reference model of
each algorithm does, which seeded runs are drawn and what must come of them, when to wait and when to give
up. `app/` is the part that acts: it talks to nodes, clusters and programs through three traits and hands
what it saw to the library. `tests/` runs the library on concrete values.

| module | what it holds |
| --- | --- |
| `text`, `json`, `etcd`, `names`, `quorum` | decimal text and lists, compact JSON, base64 and key ranges, sets and tables of names, majorities |
| `check` | a check: what was demanded, what was seen, and whether it holds |
| `prim`, `steps` | scripted conversations with a program, and runs of steps with known answers |
| `claims` | demands on the facts that a driver wrote down |
| `cluster` | who leads, when to give up, which faults go on which links, whether anything is lost |
| `draw` | draws from the seeded generator |
| `examples`, `stages` | the worked examples, and one module for every stage |

The laws of the models (one vote for each term, nothing committed is taken back, a chosen value is final,
participants never split, a compensated saga undoes exactly what it did, and so on) are public proof
functions beside the models.

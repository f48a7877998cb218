# onepipeline

A task graph runs continuously: its nodes are dispatched as their dependencies settle,
each dispatch is an agent graph in a directory or in a version-control session, and what
every producer says is merged into one store of events. This crate holds the rules of
such a run as a library whose every function is verified with Verus, and, under `app/`,
the ordinary Rust that touches the host for it.

## The library

| Module | What it decides |
| --- | --- |
| `plan`, `validate`, `cycle`, `steps`, `crossdag` | what a plan must be, and the order of a node's steps |
| `graph`, `status` | what each node's status derives to, and how a graph settles |
| `event`, `journal`, `merge` | what a run's store holds, what of it is lost, and the order its streams merge in |
| `ledger` | a run's files, what an append cuts away first, its ownership lock, and its registry of dispatches |
| `filter`, `glob` | which events a reader asked for, and what a launch config says of them |
| `executor`, `controls` | where a dispatch runs, and the environment it is given |
| `lifecycle`, `land` | the attempts at a lifecycle node, its publication, and landings outside a run |
| `hooks` | the command a run fires once when it ends |
| `maintenance`, `schedule` | when worktree pools are swept, and what a sweep is recorded as |
| `note`, `instruction`, `findings` | what a planner and a worker tell each other |
| `freespace`, `loopstats` | what a view says of the host and of the loop |
| `text`, `json`, `record`, `names`, `agentgraph`, `error` | what the others are written in |

Contracts are stated over spec functions of plain values: sequences of characters, maps
by name, and models of each type. Promises that span functions are public proof functions
whose names begin with `law_`.

Calls into other crates stand in small functions whose contracts are taken on trust; each
says which function it calls and what it claims of it.

## The binary

`app/` parses arguments, reads and writes files, starts processes, and asks the
version-control library to do its work. It hands the library plain values and does what
the library answers.

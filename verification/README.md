# gmap

The history of a Git repository: which commits lie in a range of time, and how many lines each
of them added to and took from every file. Written in Rust and verified with Verus.

- `src/` is the library. Every function states what it returns, and the statement is proved. It
  does not read the repository: an operation that needs it is a task that asks for commits,
  comparisons of trees and objects, and takes the answers. It reads the clock, where the end of a
  range is counted back from now, and hands the reading to functions that take it as an argument.
- `src/history.rs` and `src/runs.rs` hold what is proved of whole runs of those tasks: which
  commits a listing has, that no commit is asked for twice, and that the tasks come to an end.
- `src/outcomes.rs` relates the results of whole operations: a collection agrees with the listing
  and with the statistics of each single commit, a range filters the whole history, and leaving
  out merges or binary files leaves everything else as it is. It also says exactly when an
  operation comes to its end.
- `app/` reads repositories on disk with `gix` and drives the tasks.
- `tests/` runs the library on concrete values.

What is taken on trust stands in the functions marked `external_body` and in the items
`assume_specification`: calls into the standard library, `chrono`, `gix` and `similar`.

`Cargo.toml` names `kstring`, which only `gix` uses, to hold it at 2.0.2: version 2.0.5 needs a
newer compiler than the crate asks for.

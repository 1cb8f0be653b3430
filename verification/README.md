# mergers

A library for merging Azure DevOps pull requests into a release branch by
cherry-picking, with the decisions of the workflow proved correct by Verus,
and a thin command-line program around it.

## Layout

- `src/` — the verified library.
  - `operations/` — PR selection by work-item state, work-item grouping,
    dependency analysis between PRs (sequential, and in parallel over a
    roaring-bitmap index), hook configuration and outcomes, cherry-pick
    outcomes and conflict parsing, post-merge task bookkeeping.
  - `runner/` — the merge engine's state transitions, the non-interactive
    runner's decisions (each command's checks, results and reported events),
    the release-notes runner's configuration and tag resolution.
  - `state/` — the persisted state file (validation, builder, file names
    derived from a SHA-256 of the repository path) and the in-memory state
    manager.
  - `output/` — progress events and their text, JSON and NDJSON rendering.
  - `exit_code.rs`, `error.rs`, `models.rs`, `text.rs` — shared types and
    verified string helpers.
- `tests/` — tests run against the compiled library.
- `app/` — the `mergers merge <command>` program: argument handling, the
  state and lock files on disk, git and hook commands, and JSON output.
  `merge continue`, `merge skip`, `merge abort` and `merge status` work;
  `merge run` and `merge complete` read and update pull requests and work
  items in Azure DevOps, and since this crate carries no Azure DevOps
  client, both end with an error in this build.

Verify with Verus from the crate root: `verus src/lib.rs --crate-type lib`
(with the outside crates of `Cargo.toml` on the library path).

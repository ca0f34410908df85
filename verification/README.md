# worktree-pool

A pool of `git worktree` slots. A slot is a directory at a canonical path, `{group}-{N}` or
`slot-{N}`. A caller acquires one under a lease, which is the branch the slot is put on, and
releases it by that lease. A slot whose `HEAD` is on a branch is held; a detached `HEAD` is
idle. Slots keep their path and their untracked files for good, so that caches stay warm.

## Layout

- `src/` is the library: the pool's rules, verified with Verus. It runs no process and touches
  no disk.
- `app/` is the program `worktree-pool` around it: the command line, git, locks, files, threads.
- `tests/` run the library, the lifecycle of a pool among them, against a pool in memory.

Commands that alternate decisions with outside work (`acquire`, `release`, the update of
submodules, the sweep, the deletion of branches) are state machines. A step takes the reply to
the last action and gives the next action; `effect` lists both. The contract of a step is a
relation between the state before, the reply, the state after and the action. The laws of a
command are proved of that relation, or of whole runs: that a delivered slot was free and is on
the lease's branch, that a branch is made only under both mutexes, that a pool without a
submodule mirror never hands out a checkout with submodules, that every run ends.

Laws of whole runs, with the runs nested in them, stand in modules of their own: `update_runs`
(every submodule that the tags keep is on the branch, at every level, before an acquire delivers
the slot), `deletion_runs` (the branch is taken away from every submodule, at every level) and
`release_runs` (the slot is free afterwards, and releasing again runs no git command). They speak
of `nesting`, a model of what checkouts declare, and of `refs`, a model of what git commands leave
of `HEAD`s and branches.

Commands that read, then report (`ls`, `inspect`, `path`, `unstick`, `validate-gitmodules`,
`doctor`) are functions from what was read to an `Outcome`: a line, one line of JSON, or nothing,
and an exit code.

## What is taken on trust

`serde_json`'s quoting of a string, `chrono`'s RFC 3339 texts and clock, and the standard
library's `Debug` form of a string. Each stands behind a function whose doc comment says what is
believed of it.

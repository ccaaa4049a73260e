# branch_integration

Integrating upstream changes into a local Git branch: planning and merging the changes of selected
commits, collecting the state of a worktree, choosing signatures, and rebuilding the segment of a
commit graph from a list of steps.

- `src/` is the library, verified with Verus. Its operations read a `Repository`, a list of answers
  about a repository on disk. Where an answer is missing they stop with the question; where the
  editor of the commit graph has to act they stop with the command. They are then run again with
  what was obtained.
- `app/` obtains the answers with `gix`, carries out the commands, and offers the operations on
  `gix::Repository`.
- `tests/` run the library on histories and graphs kept in memory.

`kstring` is named in `Cargo.toml` only to hold it at 2.0.2: `gix` depends on it, and later releases
need a newer compiler than the one that Verus comes with.

| Module | What it is about |
| --- | --- |
| `plan`, `plan_laws` | which change ranges a selection of commits stands for |
| `merge`, `merge_laws`, `merge_options` | merging change ranges, picking commits |
| `worktree`, `worktree_laws` | the edits that bring index and worktree into a tree |
| `signature`, `signature_laws` | author, committer and commit time |
| `head` | moving `HEAD` |
| `integration` | steps of an integration, and the commands to the graph editor |
| `repository`, `repository_laws`, `facts`, `stop` | answers, questions and failures |

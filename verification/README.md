# repo_status

Two programs share one verified library:

- `is-published` tells whether the crate or workspace in a directory is
  published, and whether the registry holds the version that is here.
- `gitscan` finds the git repositories under a directory and names those
  without a remote or with uncommitted changes.

`src/` is the library, verified with Verus. It holds the decisions: how command
lines and the output of `cargo` and `git` are read, how versions compare, which
packages are checked and what comes of it, where a manifest is looked for, how a
tree is walked and how the repositories are ordered and reported. What alternates
with the outside world is a state machine (`session::Session` and the `run::Run`
inside it, `manifest::ManifestSearch`, `scan::Scan`): it says what to do next and
takes up what came of it. Each machine has a law that says what a whole run of it
comes to.

`app/` is the ordinary Rust around it: it runs commands, reads directories and
prints. It answers to both names, by the name it is called under.

`tests/` runs the library from outside.

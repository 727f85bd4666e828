# release-kthx

Release automation for Rust workspaces, private ones first: it plans the next version of
every crate from the commits since its last one, keeps manifests, internal requirements and
the lockfile in step, and says which tags and releases to publish.

`src/` is the library, verified with [Verus](https://github.com/verus-lang/verus). It takes
texts and answers and gives texts and decisions; it does no I/O.

- `text`, `order`, `path`: texts, stable sorting, slash-separated paths
- `version`: semantic versions
- `tree`, `document`: what a TOML document holds, and the `toml` and `toml_edit` crates
- `plan`, `workspace`: the crates of a repository and the plans for them
- `requirements`, `rewrite`, `settling`, `internal`, `normalize`: the requirements of crates
  of the workspace on each other, how they are rewritten in one manifest and in all, and what
  a rewrite leaves behind
- `versions`: setting versions in manifests and in the lockfile
- `git`, `history`, `release`: git commands and their output, since when the changes of a
  crate are, the crates that files belong to, tags
- `changelog`, `report`: what a release says
- `flow`, `publish`: the steps of a release, of its pull request and of a publication
- `error`: why a release cannot go on

`app/` is the command line around it: files, git, GitHub, and the planning model of the
`release-kthx-domain` crate, which decides versions and requirement styles.

`tests/` runs the library on concrete values.

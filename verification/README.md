# spec_driven_docs

The verified core of `sdd`, a tool that lands a documentation canon into a
repository, plans each change before it makes it, and keeps the files it
owns apart from the files the project owns.

Every function under `src/` is verified with Verus against its `requires`
and `ensures`. The calls into outside crates (`sha2`, `toml`,
`serde_json`, `semver`, `camino`, `tar` and `flate2`) stand behind a few
trusted items, each with a doc comment that says what its contract claims
of the crate.

## Layout

- `src/plan/`: decisions, preconditions, readiness, the operations a
  landing implies, the plan fingerprint, the apply's admission and proof,
  and what a planning session settles before the planner runs.
- `src/landing/`: the paths an operation may name, what a target's corpus
  and instance record say, and the order a landing writes in.
- `src/release/`: release selectors, bundles and their manifests, the
  archive admission, the legacy catalog, and which registry entry a
  selector names.
- `src/self_depend/`: release tags, the pins a tool manager keeps, the
  fragments and seeds that wire this tool in, and the registry index.
- `src/services/`: the instance checks, status, upgrades, skill installs
  and repository assessment.
- `src/stage.rs` and `src/stage/`: where a stage goes and what it holds.
- `tests/`: the behaviour of the library on concrete values.
- `app/`: the command line, which reads the disk and prints what the
  library answers.

## Platform

The tool runs on Linux alone. The contracts of the items that read paths
and archives (`path_join`, `components_of`, `walk_archive`) state what the
outside crates do with Linux separators; on another platform they would
not hold.

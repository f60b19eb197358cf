# orogene

The decision-making core of a `node_modules/` package manager, written in
Verus: every function in `src/` carries a contract that Verus proves.

- `src/` — the verified library: semantic versions and ranges
  (`semver`, ranges through `node-semver`), package specifiers (`spec`),
  registry metadata and version selection (`metadata`, `resolution`,
  `classic`), the dependency graph and placement of packages in the
  hoisted tree (`graph`, `resolver`, `queue`), the resolution loop as a
  step function (`resolve`), lockfiles (`lockfile`),
  pruning and linking in the hoisted and isolated layouts (`linkers`,
  `paths`), lifecycle-script ordering (`scripts`), tarball extraction and
  the content cache (`extract`, `cache`, `integrity`), git checkouts
  (`git`), `oro view` output (`view`), and options (`fetch`,
  `maintainer`, `commands`).
- `tests/` — tests run against the compiled library.
- `app/` — the unverified shell around it: reading JSON from disk,
  fetching what the resolution step asks for from a directory of registry
  documents, canonicalizing directory specifiers, walking and pruning
  `node_modules/` with the library's per-entry decisions, and printing to
  the terminal. Git dependencies are not fetched there.

Calls into outside crates (`node-semver`, `ssri`, `unicase`, `petgraph`,
`humansize`, `pathdiff`) sit behind small trusted wrappers whose contracts
are documented where they are declared.

# pacquet_package_manager

The install logic of a pnpm-compatible package manager for Node.js, written
in Verus: the functions in `src/` carry contracts that Verus proves. The
exceptions are the few `#[verifier::external_body]` wrappers around outside
crates (node-semver's version and range parsers, `DashSet::insert`), whose
contracts are trusted and say in their doc comments what they claim.

## Layout

- `src/` — the verified library, one module per concern:
  - `add`, `package_manifest`, `package_json`, `manifest_core`, `json`:
    the `add` command's argument and specifier handling, and reading and
    editing `package.json` documents.
  - `platform`, `installability`: which packages a host can install and
    which optional ones are skipped.
  - `lockfile`, `virtual_store`, `virtual_store_layout`, `slots`, `fetch`:
    populating the virtual store from a lockfile — which snapshots still
    need work, where each slot lives, how each package is fetched.
  - `symlink_direct`, `link_bins`: the links of each importer's direct
    dependencies and the bins of each slot.
  - `build_sequence`, `sequence_laws`, `build_modules`: which packages run
    their build scripts, in which order, and under which policy.
  - `hoisted`, `hoisted_laws`: the directory-keyed graph of a
    `nodeLinker: hoisted` install.
  - `install`, `validate_modules`, `without_lockfile`: choosing the install
    mode, the `.modules.yaml` record and its validation, and the
    bookkeeping of an install without a lockfile.
  - `link_file`: the decisions of importing one file (reflink, hardlink,
    copy) and which method is remembered.
  - `text`, `path`: string and path helpers with their specifications.
- `app/` — the file-system and process side: reading and writing
  manifests, linking files, the host's platform, the current time.
- `tests/` — tests run against the compiled library.

The `*_laws` modules and the `law_*`/`lemma_*` proof functions state
properties that hold across calls, such as that a build order lists every
package once, children before parents.

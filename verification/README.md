# ariadne_graph

A verified library for the front half of a source-code dependency
analyser: it walks a project's file list, reads project configuration
(tsconfig with `extends` chains, go.mod, pyproject.toml, .csproj/.sln,
Gradle, Maven, Vite/Webpack, Turborepo, Next.js routes), parses sources of
nine languages with tree-sitter into a flat syntax tree, extracts imports,
exports and symbols, resolves imports, decides how a resolved import becomes
an edge of the dependency graph (including test files paired with their
sources by name), and suggests where a new file should go.

Layout:

- `src/` — the library, written in Verus. Calls into tree-sitter, roxmltree,
  serde_json and regex go through small trusted wrappers whose contracts
  name what the outside crate returns; everything built on them is proved.
- `tests/` — ordinary Rust tests of the library.
- `app/` — the file-system side: walking directories with `ignore`,
  reading and parsing files (on a `rayon` pool), and loading tsconfig files
  for the library; and the floating-point analyses (Pareto frontier,
  minimum cut).

# typastry

Editing and intelligence logic for Typst editors, written in Verus and
verified against its contracts.

- `src/` is the verified library. Each module states its behaviour over
  mathematical models (`Seq`, `Option`, spec functions) and proves it:
  - `syntax`, `edit`, `args`: formatting edits on the Typst syntax tree
    (bold/italic toggles, `#text(..)` parameters merged into an existing call,
    grids, `#set page(..)` rules) and `key: value` argument lists.
  - `intel`, `provider`, `session`, `lsp`: completion triggers, refinement of
    the compiler's completions with unit coaching, the editor's completion
    items and session, and the language server's keyword and scope
    completions and positions.
  - `tabs`, `files`, `menus`, `paths`, `settings`, `cache`, `app_state`,
    `curve`, `format`: the editor's open files, file tree, menus, paths,
    recent files, file cache, animation clock, curve shapes and formatting.
  - Calls into `typst-syntax`, `typst`, `typstyle-core` and `std::path` stand
    behind small trusted wrappers whose contracts are documented where they
    are declared.
- `app/` is ordinary Rust around the library: settings files, the calls into
  `typst-ide`, file I/O, the language server's `lsp-types` values and Word
  export.
- `tests/` exercises the library on concrete inputs.

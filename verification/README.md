# ArtOrganize

A library for organizing a collection of art: pieces, the image files (blobs)
that belong to them, tags and tag categories, a small search language over
them, and the navigation state of the application's screens. The library is
written in Verus; each function carries a contract that Verus proves.

## Layout

- `src/table.rs`, `src/relation.rs`, `src/db.rs`, `src/traits.rs`: the
  database — tables of rows under stable ids, and the relations between
  pieces, blobs, tags and categories.
- `src/entities.rs`, `src/v1.rs`, `src/command.rs`: the rows, the first
  version of the database and its upgrade, and undoable edits.
- `src/grammar.rs`, `src/parse.rs`, `src/model.rs`, `src/execute.rs`: the
  search language — its grammar as spec functions, the parser held to it, and
  the evaluation of a search on the database.
- `src/backend.rs`, `src/settings.rs`, `src/first_time.rs`: where a database
  lives on disk, the changes the user asks for, cleaning up stray files, the
  command line and the configuration.
- `src/views.rs`, `src/frontend.rs`, `src/listing.rs`, `src/summary.rs`,
  `src/sorting.rs`, `src/editing.rs`, `src/images.rs`: what the screens show
  and how the user moves between them.
- `src/laws.rs`: properties that hold across operations.
- `app/`: the command line, configuration and database files, the blob files
  on disk, and the `undo` crate's history, around the library.
- `tests/`: tests of the library.

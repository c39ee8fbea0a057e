# diesel_enums

Mappings between Rust enums and database tables with fixed values, or custom
Postgres enums, for `diesel`.

- `src/` is the verified library. It reads an enum's attributes as plain
  values (`attributes`, `container`), assigns each variant its database name
  and id, skipping the ids of `skip_ids` (`skip_ids`, `variants`), plans what
  the derives generate (`generate`), and compares a Rust enum with the rows or
  variants found in the database, with the report it prints (`mapping`,
  `text`). Case conversion goes through `convert_case`, colours through
  `owo-colors`.
- `app/` holds what Verus does not see: reading the enum with `syn`, writing
  the implementations with `quote`, loading the database variants with
  `diesel`, the default asynchronous test runners for SQLite and Postgres
  (connection pools of `deadpool-diesel`), and the error types that carry
  `thiserror`'s derive.
- `tests/` runs the library on concrete enums and database contents.

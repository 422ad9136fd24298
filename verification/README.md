# ffickle_late

A lint that looks for types without a dependable C representation in the foreign
interfaces of a crate: in the functions it defines for foreign callers, and in
the foreign functions and static items it declares. It keeps a record of what it
finds, in which every distinct error has one number, and writes the record as
JSON when the crate is done.

- `src/` is the verified library: the rules, the walk over the types, and the
  record. It knows types by their places in a table and does not depend on the
  compiler.
- `app/` is the lint pass. It describes the compiler's types to the library as
  far as the library asks for them, and writes the record to a file. It needs a
  nightly compiler with its internal crates.
- `tests/` holds the tests of the library.

# layeredfs

A layered, copy-on-write filesystem store with time travel, verified with Verus.

Files, directories and their bytes live in three tables: layers, inodes and
blocks. Layers stack by priority; every read sees the union view, in which the
row of the highest-priority layer wins and tombstones hide deleted files. Writes
go to the writable `active` layer, copying a file there first; `commit` freezes
the active layer under a name and stacks a new one on it; `revert` discards the
uncommitted rows; `checkout` limits reads (inodes, listings and blocks) to a
committed layer, while writes still start from the newest version of a file.

Layout:

- `src/database/`: the store. `models.rs` holds the rows and their views,
  `reads.rs` the union-view queries, `writes.rs` the row writes, copy-on-write
  and commit, `history.rs` revert and checkout, `setup.rs` schema creation and
  seeding, `laws.rs` the proofs of what the operations keep.
- `src/engine.rs`: what each filesystem request answers and changes;
  `src/fs_laws.rs` the proofs that span requests (read after write, deletion,
  an unchanged past).
- `src/control.rs`: the control prompt's command language.
- `src/report.rs`: rendering query answers as text.
- `src/clock.rs`, `src/text.rs`: the clock and string helpers.
- `app/`: the program: SQLite persistence, the FUSE mount and the prompt loop.
- `tests/`: tests of the library.

# hashrename

Content-based deduplication and sequential renaming of the regular files of
one directory, as a library verified with Verus, and the program around it.

- `src/` — the library. Natural ordering of names (`sorter`, with its laws in
  `order_laws`), rename planning (`rename_planner`, `plan_laws`), duplicate
  detection (`duplicate_detector`, `detect_laws`), the two-phase execution of
  a plan (`execution`, `exec_laws`), the journal and recovery (`renamer`),
  scanning (`scanner`), the stages of a run (`processor`), the directory lock
  (`lock`), digests through the `md-5` and `sha2` crates (`digests`), the
  command line (`cli`), and the file-manager integrations (`platform`).
- `app/` — the program: file-system and process I/O, the loops that carry out
  what the library decides, the parallel digests, the trash, and the
  context-menu installers.
- `tests/` — tests of the library.

The program takes one directory. `--dry-run` asks for a preview: the scan,
the digests, the detection and the rename plan run, and the plan is printed,
but no file is moved, renamed or recovered. `--hash md5` (the default) or
`--hash sha256` chooses the digest. No XXH3 digest is offered: `--hash xxh3`
is refused as an unknown algorithm.

The graphical window is not part of this build. Asked for one with a
directory, the program processes that directory on the command line; asked
for one without a directory, it prints its usage.

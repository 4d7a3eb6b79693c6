# Mouse profiler

A personal mouse-behaviour recorder for Windows: it captures, stores and organises the
raw mouse signal, for later analysis by other programs.

- `src/` is the library, verified with Verus. It holds everything that is decided or
  computed: decoding device reports into events, the queue between capture and storage,
  the segment format and its reader, session headers and crash recovery, the writer's
  loop, export, audit, dataset statistics, and what the window shows. What these parts
  promise together, from the queue to the audit of a closed session, is stated and
  proved in `src/recording.rs`.
  Compression is done by the `zstd` crate; what is relied on of it stands in
  `src/storage/segment.rs`.
- `app/` is the program around it: the Windows calls, files, threads, JSON, and what is
  floating point.
- `tests/` runs the library on concrete values.

# voidframe

The decision and text-processing core of the VOIDFRAME CS2 benchmark
engine, verified with Verus, and a small command-line harness around it.

- `src/` — the verified library: project and module validation,
  pre-flight checks, the journal record each mutation writes and what
  undoing a record does (and how the system is read back after), the
  decisions of the journal's replay (which records stay live, what each
  revert does and checks) and the restore script it renders, registry value
  encoding, CS2 `video.txt` rewriting, launch option handling, PresentMon
  capture arguments and the reading of a capture's rows and columns
  (through the csv crate), log-line detection,
  timestamps, and the small decisions of recovery. Each public function
  states what it returns in its contract; the laws that relate several
  functions are public proof functions (`lemma_*`).
- `tests/` — tests run against the compiled library.
- `app/` — the `voidframe-cli` program and the file, process and log I/O
  the library leaves to its caller, with serde copies of the library's
  types for reading and writing JSON.

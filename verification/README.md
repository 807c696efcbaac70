# herdr-annotate

The native runtime of the Herdr Annotate plugin: capture terminal text, keep annotations in
JSONL stores, export them as Markdown, copy or deliver them to an agent, and archive and restore
them.

`src/` is the library, verified with Verus. Its modules:

- `text`, `width`: characters, trimming, decimal numerals, grapheme clusters and cell widths.
- `layout`, `format`: the comment editor's layout and cursor mapping, terminal-safe text,
  wrapping and the Markdown export.
- `json`, `types`: JSON documents and the annotation records read from and written to them.
- `store`: what the stores hold, how a store file's text changes with each operation, file
  errors and the lock protocol.
- `archive_workflow`, `manager_copy`, `agent_delivery`: the copy, archive, restore and delivery
  transitions. Each is a step function from the answers so far to the next outside step, whose
  contract fixes the order of the steps and where they stop. A driver that takes the outside
  steps as closures runs it and returns, beside its result, the run it made: the steps it took
  and the answers each closure call gave.
- `record_shapes`: the store records as JSON shapes, so that a record read back by the parser
  gives the annotation or archived set that was written.
- `archive_commands`, `cli`, `herdr`, `clipboard`, `paths`: the commands as step functions
  (capture, copy-context, copy-, paste- and send-and-archive, clipboard reads and writes),
  Herdr arguments and exits, clipboard candidates, and path normalization.

`app/` is the binary around it: environment, files, locks on disk, child processes and the
clock. It runs each command by performing the step the library names and handing back the
answer. `tests/` runs the library on concrete values.

The `editor` and `manager` terminal panes and the selection hand-off they write are not part of
this crate; the binary reports the two entrypoints as unavailable.

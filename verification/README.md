# tanaterm

A block-oriented terminal: every command line becomes a block that holds the
command's coloured output, its exit code and its running time. Sessions,
a shelf of favourite directories and a command catalogue sit in two rails.

The library in `src/` holds the logic and is verified with Verus:

- `term`: the byte stream of a shell turned into blocks. `osc` takes the
  OSC 133 (block boundaries) and OSC 7 (working directory) sequences out of
  the stream; `sgr` turns output bytes into coloured spans (UTF-8 and escape
  sequences cut by a chunk boundary are reassembled); `session` combines both
  with the life cycle of a block, with a heuristic mode for shells that send
  no OSC 133.
- `state`: the state model (sessions, blocks, shelf, catalogue, the queue of
  PTY requests), its operations, what is saved between runs, history and
  path completion.
- `shell_integration`, `config`, `pty`, `clock`, `notify`: the start-up
  files that make a shell report its blocks, the choice of the shell, the
  wall clock, and the notice for long commands.
- `shortcuts`, `ui`: what the window's shortcuts and the clicks on the rows
  of the rails do to the state, and the other parts of the UI that decide
  rather than draw (the window reports what was pressed; the library decides
  what changes).
- `text`, `num`: UTF-8 decoding, trimming and decimal numbers.

The contracts state each operation over mathematical views of the types;
proof functions named `law_*` state what holds across calls (a chunk split
anywhere scans and converts the same, a closed session never leaves the
active id dangling, a saved and restored state keeps its sessions, and so on).

`app/` is the program around the library: the egui window, the PTYs, the
configuration file and the saved state. `tests/` exercises the library.

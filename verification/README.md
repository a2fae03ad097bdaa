# bootty

The decisions of a terminal workspace, verified with Verus: the extension host, the multiplexer
controller, pane layouts, `git` worktrees, remote spaces and the command line.

- `src/` is the library. It performs no input or output: it says what is to be done, and takes what
  came of it. Its functions carry contracts that Verus checks. The methods of the trait `MuxBackend`
  have none: they are for those who implement it.
- `src/outside.rs` holds the calls that leave the library, each with what is believed of it.
- `app/` performs the work: files, processes, scripts, sockets, and the command line itself.
- `tests/` runs the library on concrete values.

# herdr-beads

A board for herdr over the issues that `bd` (beads) keeps.

- `src/` is the library, verified with Verus:
  - `bd`: the requests to `bd` as vectors of arguments, how they are run, and what the replies say;
  - `bead`: issues and the form for a new one;
  - `worker`: the queue of the background worker;
  - `workspace`: which repository the board shows;
  - `screen`: when the board is drawn and when it ends;
  - `model`: the arguments of the command line;
  - `trace`: the lines of the latency log;
  - `error`, `json`, `text`: what these are built on. `json` holds the contracts of `serde_json`
    that the proofs rest on, and `text` that of `String::from_utf8_lossy`.
- `tests/` runs the library on concrete values.
- `app/` is the program around it: processes, threads, the terminal, and the decoding of issues.

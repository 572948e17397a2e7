# aleo_prover_actor

A pool miner for the Aleo network, split in two:

- `src/` is the verified library: the decisions of each actor of the miner, stated and
  proved with Verus.
  - `statistic` counts proofs and share results, keeps the proof count of every report,
    and renders the accepted/rejected lines and the periodic rate report.
  - `binary64` and `text` render those figures exactly as two-decimal formatting of the
    binary64 quotients would, using integers only.
  - `paint` colours a reported line (through `ansi_term`).
  - `worker` judges each computed proof against the share target.
  - `prover` routes the prover's messages, delivers new work to the workers in order,
    stops the parts in order on exit, and decides whether and what to start.
  - `client` decides what to do with what the pool sends and with connection outcomes.
  - `account` checks addresses and renders a new account (through `snarkvm`).
- `app/` is the program: command line, logging, the tokio tasks, sockets, thread pools
  and the mining call, each running the library's decisions.

The tests under `tests/` exercise the library, including a comparison of its decimal
figures with the standard library's rendering of `f64` values.

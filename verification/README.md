# extrema_guard

Account and order guard policies, verified with Verus, and the process that runs them on
[extrema_infra](https://crates.io/crates/extrema_infra).

- **Static protection** closes a position whose mark reaches its stop-loss and keeps one
  reduce-only take-profit order on the book.
- **Profit lock** closes a position that falls back to a locked profit after its best price
  has armed the lock.
- **OKX outside-range cancel** cancels an unfilled entry order after the last price has stayed
  beyond its bracket for the whole waiting time, and only after reading order and price again.

## Layout

- `src/` decides. Each policy is a state machine: `reconcile` takes in what the host reports
  and answers with the next action. `executor` refuses orders or releases and paces them,
  `tracker` measures continuous time outside a bracket, `eligibility` says which orders may be
  touched. Laws that span several functions stand there as public proof functions (`law_..`).
- `app/` carries the actions out: configuration and state files, exchange requests, waiting,
  the action trail, and double-precision arithmetic.
- `tests/` runs the library on concrete values.

Numbers are held as IEEE 754 encodings (`number::Float64`). Comparisons and signs are decided
on the encoding; arithmetic is handed to the host as a `number::Formula`.

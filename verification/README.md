# agentbus

An intention–vote–commit log for coordinating agent actions, written in
Verus. Agents append intentions to a bus; voters append votes; a decider
commits or aborts each intention; clients poll the log.

## Layout

- `src/` — the verified library.
  - `bus.rs`: the entry and request types, payload types, bus ids, errors.
  - `bus_state.rs`: in-memory bus logs (append, poll, bounded reads, tail).
  - `spaces.rs`, `write_once.rs`, `conditional.rs`: write-once and
    conditional-write address spaces, their in-memory implementations, the
    write-once adapter, and the SQLite write and tail planning.
  - `write_once_bus.rs`: a bus over a write-once space.
  - `poll_loops.rs`: blocking polls, range reads and gate checks as state
    machines that a driver steps.
  - `agents.rs`: the mailbox, the voter loop and the decider.
  - `entry_text.rs`, `entry_view.rs`: the JSON and terminal renderings of
    entries.
  - `cli.rs`: numbers, policy names, prompt commands and completion.
  - `history.rs`, `linearizability.rs`: recorded histories and their linearizability.
  - `scenario_args.rs`: the argument rules of the conformance scenario
    attributes.
  - `logger.rs`, `metrics.rs`, `observability.rs`: structured rows, metrics
    and what observable wrappers record.
  - `config.rs`: the voters of a server's configuration file and the
    initial voter configurations they stand for.
  - `retry.rs`, `server.rs`, `time.rs`, `keyed.rs`, `text.rs`: retry
    bookkeeping, backend URLs and server setup, time, keyed lists, decimal
    text.
- `tests/` — tests of the library.
- `app/` — the command-line tool: argument parsing, the SQLite file, the
  prompt, and terminal colours.

Check the library with `verus` on `src/lib.rs`.

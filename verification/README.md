# linkora_contracts

The Linkora social contract for Soroban: user profiles, posts, a follow graph
with blocking, likes, tips that pay a treasury fee, and token pools that a
group of admins controls together.

- `src/` is the verified library (Verus). The whole contract state is a plain
  value (`state::Linkora`); each operation is a step from the old state to the
  new one and returns the token transfers and events that the host must carry
  out. `spec` states every step over mathematical values, `state` implements
  them against those statements, `laws` proves how the steps relate (reads
  after writes, idempotence, follow/unfollow round trips, how a tip is split,
  how pool withdrawals are authorized, like and profile counts as numbers of
  distinct users), `history` proves what holds after any sequence of calls on
  a fresh contract, and `parts` takes the state apart for
  storage and checks the invariant when it is put back together.
- `app/` is the Soroban contract around the library: it checks the callers'
  authorization, loads and saves the state in instance storage, performs the
  token transfers, publishes the events, and panics with the contract's
  message when a step is refused.
- `tests/` runs the library on concrete values.

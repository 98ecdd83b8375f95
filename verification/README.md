# soroban_governance

Verified governance models for Soroban contracts: token-gated voting (one holder, one vote),
quadratic voting, representative voting (delegation with a grace period for taking it back)
and liquid democracy (vote directly or delegate).

## Layout

- `src/` is the library, verified with Verus. Each contract's stored state is a struct with a
  view (`TokenGatedModel`, `QuadraticModel`, `RepresentativeModel`, `LiquidModel`); every
  operation states its answer and the next state as spec functions of that view, and the
  properties that span operations are public proof functions (`lemma_*`) next to them.
  - `table.rs`: the association table that holds every keyed piece of state. The contracts'
    own maps and vectors (Soroban's `Map` and `Vec`) are handles to objects that live in the
    Soroban host: every operation on them is a call into the host environment (`Env`), and
    none can be made without a running host. The library therefore keeps its state in plain
    Rust values, this table and `Vec`, whose every operation is verified; the contract code
    converts between the two at the edge.
  - `bytes.rs`, `ballot.rs`, `ttl.rs`, `delegates.rs`, `sums.rs`: byte strings, vote choices
    and saturating tallies, entry lifetimes, delegate sets, sums over finite sets.
  - `token_gated.rs`, `quadratic.rs`, `representative.rs`, `liquid.rs`: the four contracts.
- `app/` is the Soroban side: the `#[contract]` types, storage, authorization, ledger time,
  token balances and events. Each contract function loads the library's state, calls the
  library, and stores the result. The state is rebuilt as a whole on each call, so the
  per-user and per-(proposal, address) tables are each stored under one key rather than
  one key per entry, and a proposal whose entry has expired from storage is left out of the
  rebuilt state.
- `tests/` exercises the library directly, with a small ledger that stands in for the time
  and the token balances.

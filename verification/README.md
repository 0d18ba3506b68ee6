# evm_fork_cache

A cache of EVM state for simulations against a fork of a chain, verified with Verus.

State is held in two layers: what was fetched from the chain, and above it what
simulations and callers wrote. Snapshots are immutable and share the image of the
lower layer; overlays run simulations over a snapshot without touching the cache.

## Layout

- `src/` is the library. Every function carries a contract, and what relates several
  functions is stated as a public proof function whose name starts with `law_`.
  - `primitives`, `collections`, `bytes`, `text`: addresses, words, sorted maps and
    sets, shared bytes, numbers as text.
  - `foreign`: calls into other crates, each behind a contract that is trusted, as are
    the parsing calls in `text` and the handle copy in `bytes`.
  - `access_set`, `access_list`: what a call touches, and whether sending it pays.
  - `bulk_storage`: planning, encoding and decoding storage reads that run extractor
    code at the contracts.
  - `cache`: the layers, updates, snapshots and overlays, code claims, read sets,
    freshness, traces, token balances, the formats of saved state, and checkpoint files.
  - `bundle`, `execution`: how executions and bundles of transactions are settled.
- `app/` is the runtime around it: JSON-RPC, the machine that executes transactions,
  and files. It makes the calls and hands what came back to the library.
- `tests/` runs the library, with the other crates linked.

# cambium

A verified library for the Cambium carbon-credit protocol, written in Verus.

Each contract of the protocol is a value with an abstract state (its view);
the contract of every method says exactly how the state moves, what is
returned and which events are published (each contract keeps the log of
its events), and a refused call leaves every state it was handed
unchanged.

- `token`: the credit token (balances, allowances, supply, burner role,
  allowlist) and the `TokenLedger` of deployed tokens through which the other
  contracts move credits.
- `registry`: projects, vintages, proof-gated minting, recorded retirements.
- `governance`: multi-signature, timelocked proposals for verifying keys and
  for the governance configuration itself.
- `marketplace`, `amm`, `orderbook`: constant-product pools and a limit order
  book with escrow, matched in price-time priority; `solvency`: the book
  invariants (the books stay consistent and uncrossed, and the marketplace
  keeps holding what its resting orders keep in escrow as long as the
  resting buys a sweep fills escrowed the asset the incoming order names;
  all as long as order ids do not collide).
- `retirement`: burning credits for good, with public or shielded records.
- `zk`: the proof verifier that gates minting.
- `common`, `table`, `sums`: shared values, a small verified key-value
  table, and finite sums.

The laws of the library (supply equals the sum of balances, transfers
conserve credits, order placement mints nothing, fills stay within the
taker's limit, the marketplace covers its escrow, proposals execute once
and only past threshold and timelock, retired never exceeds issued, a
nullifier serves once, ...) are public proof functions named `law_*` next
to the operations they speak of.

Record and order ids are Keccak-256 digests computed by `soroban-sdk`; that
call is the one trusted item of the crate (`common::keccak256`).

The tests under `tests/` exercise the compiled library on concrete
scenarios.

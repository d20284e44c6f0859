# blockchain_prototype

A small proof-of-work blockchain node. The library (`src/`) holds the rules,
verified with Verus; `app/` is the node program around it (network, disk,
threads, terminal monitor).

Library modules:

- `hexenc`, `digest`, `ecdsa`, `clock`: hex text, SHA-256 / RIPEMD-160,
  secp256k1 ECDSA and the wall clock, each a thin trusted layer over the
  `hex`, `sha2`, `ripemd`, `k256`/`rand_core` crates and `std::time`.
- `fault`: the failures of the clock, the signer or the random generator that a computation
  hands back to its caller in place of a result.
- `json`: compact JSON text as `serde_json` writes it (escapes, numbers,
  arrays).
- `tx`, `wallet`: transactions, their canonical text, ids, signature hashes
  and signing; key pairs, balances and building signed payments.
- `utxo`: the set of unspent outputs keyed by outpoint.
- `validation`: the rules for a block's transactions and their effect on the
  unspent outputs.
- `pow`, `merkle`, `block`: leading-zero-bit difficulty, Merkle roots,
  block headers, mining.
- `chain`: the chain, its validity, replaying it, adding and mining blocks.
- `node`: memory-pool acceptance, peer messages, broadcast, chain choice.

`app/main.rs` runs a node: `blockchain_prototype <port> [peers...] [--miner]`;
`blockchain_prototype --tui [addr]` runs the terminal monitor.

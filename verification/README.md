# eth-block

Ethereum blocks, written in Rust and verified with Verus.

A block is a header and a body: transactions, ommers, and three trailing fields
that may be missing (withdrawals, slashed validator entries, and a bridge
requests blob). The library builds blocks, converts their parts, writes and
reads their RLP encoding, computes the hashes and roots that headers commit to,
and makes blocks from unstructured data for fuzzing.

- `src/` is the library. Every function has a contract; `laws.rs`,
  `ethereum_laws.rs` and `rlp_laws.rs` prove what holds of several functions
  together, such as that a block that was written is read back.
- `tests/` runs it with the crates that it calls: `alloy-rlp`,
  `alloy-primitives`, `alloy-trie` and `arbitrary`. What is believed of these
  stands next to each call.
- `app/` has copies of the block types that carry the serde and borsh derives,
  and implements the traits of `alloy-rlp` and `arbitrary` for them.

A few rules of the encoding:

- A missing trailing field is left out where no later one is there, and is
  written as an empty string (`0x80`) where one is.
- An empty string at the very end, in the place of the withdrawals, is refused.
- A bridge requests blob without bytes cannot be told from a missing one, so a
  block is written without it.
- `Block::decode_sealed` reads what `Block::decode` reads, and hashes the bytes
  of the header on the way.

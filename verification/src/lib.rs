//! Ethereum blocks: the block and its body, their RLP encoding, and the hashes
//! and roots that a header commits to, with contracts that Verus proves.
//!
//! - [`block`]: [`Block`] and [`BlockBody`], and what is done with their parts.
//! - [`block_rlp`]: how blocks and bodies are written and read.
//! - [`eth_block`]: what ethereum like blocks have in common.
//! - [`header`], [`transaction`], [`withdrawal`]: what blocks are made of.
//! - [`roots`], [`seal`]: roots and hashes.
//! - [`draw`]: blocks made from unstructured data.
//! - [`rlp`], [`bytes`]: the encoding, and byte strings and numbers.
//! - [`layout_laws`], [`reading_laws`]: where the parts of a block stand in its
//!   encoding, and what is read from where.
//! - [`part_laws`]: what values stand for, and what is done with parts of blocks.
//! - [`rlp_laws`], [`laws`], [`ethereum_laws`]: what holds of all of these.

pub mod block;
pub mod block_rlp;
pub mod bytes;
pub mod draw;
pub mod eth_block;
pub mod ethereum_laws;
pub mod header;
pub mod laws;
pub mod layout_laws;
pub mod part_laws;
pub mod reading_laws;
pub mod rlp;
pub mod rlp_laws;
pub mod roots;
pub mod seal;
pub mod transaction;
pub mod withdrawal;

pub use block::{Block, BlockBody};
pub use bytes::{Address, Bloom, Bytes, FixedBytes, B256, B64, U256};
pub use draw::Arbitrary;
pub use eth_block::EthBlock;
pub use header::{Header, EMPTY_OMMER_ROOT_HASH, EMPTY_ROOT_HASH};
pub use rlp::{Decodable, Encodable};
pub use seal::{Sealable, Sealed};
pub use transaction::{Encodable2718, Transaction, TxEnvelope, Typed2718, WithEncoded};
pub use withdrawal::{Withdrawal, Withdrawals};

//! Ledger core of a minimal proof-of-work blockchain: hash-linked block
//! headers, UTXO-style transactions, a canonical binary codec, compact
//! difficulty targets, a Merkle-root reduction, and the index bookkeeping of
//! an append-only chunked block store with an in-memory header-chain cache.

pub mod bigint;
pub mod codec;
pub mod compact;
pub mod crypto;
pub mod hash;
pub mod mainblock;
pub mod maincore_inner;
pub mod mainheader;
pub mod maintx;
pub mod maintx_in;
pub mod maintx_out;
pub mod merkle;
pub mod storage_directory;

//! A small proof-of-work blockchain: transactions over unspent outputs,
//! blocks chained by hash, and the rules by which a node accepts them.

pub mod fault;
pub mod hexenc;
pub mod digest;
pub mod json;
pub mod ecdsa;
pub mod clock;
pub mod tx;
pub mod wallet;
pub mod utxo;
pub mod validation;
pub mod pow;
pub mod merkle;
pub mod block;
pub mod chain;
pub mod node;


//! What the commands of the tool decide and say, apart from the reading and
//! the printing.

pub mod exchange_nonce;
pub mod status;

//! Authorization rules of the shadow lock: a lock whose owner delegates the
//! right to unlock to another cell of the same transaction.

pub mod entry;
pub mod errors;
pub mod transaction;
pub mod utils;

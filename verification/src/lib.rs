//! Transactional core of a small bonsai marketplace: a pool of uniquely
//! identified items grown at genesis, a ledger of registered gardeners, and
//! the four operations (register, acquire, transfer, retire) that move items
//! between them under invariants of uniqueness, exclusive ownership and
//! solvency. Persistence, message encoding and the balance oracle live
//! outside this crate; every function here is a pure transition on explicit
//! state values, verified against its contract.

pub mod addr;
pub mod contract;
pub mod errors;
pub mod laws;
pub mod msg;
pub mod state;

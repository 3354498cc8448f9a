//! A deterministic pseudo-random number generator with 256 bits of state
//! and 64-bit outputs, with jumps that skip 2^128 and 2^192 draws.
//!
//! `prng64` holds the generator. `state` and `table` are its mathematical
//! model: the state with its step and streams, and the coefficient tables
//! that jumps go by. `stream`, `jump`, `recurrence` and `power` prove what
//! holds of them, up to the distance that each jump covers.

pub mod jump;
pub mod power;
pub mod prng64;
pub mod recurrence;
pub mod state;
pub mod stream;
pub mod table;
pub mod word;

pub use prng64::Prng64;
pub use state::State;
pub use table::Table;

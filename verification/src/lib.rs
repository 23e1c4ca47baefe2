//! A one-time-pad substitution cipher over a configurable alphabet.
//!
//! Every symbol of a text is combined with one symbol of pad material by
//! modular arithmetic on their positions in the alphabet. Pad material is
//! queued in a [`OneTimePad`] and used up, front first, one index for
//! each symbol that is encoded or decoded.

pub mod alphabet;
pub mod cipher;
pub mod error;
pub mod pad;
mod random;
mod text;

pub use error::OneTimePadError;
pub use pad::{EncodingResult, OneTimePad};

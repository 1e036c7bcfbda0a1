//! Counter-based pseudo-random numbers from the squares construction, with
//! structurally validated keys.
//!
//! A [`Key`] is a 64-bit value whose sixteen nibbles obey the rules stated by
//! [`admissible`]. The generator functions [`u32`] and [`u64`] map a key and a
//! counter to pseudo-random bits, and [`key`] derives an admissible key from
//! any index.
#![allow(unused_imports)]

pub mod derive;
pub mod key;
pub mod nibbles;
pub mod rand;
pub mod squares;

pub use crate::derive::key;
pub use crate::key::{admissible, check_admissibility, Inadmissible, Key};
pub use crate::nibbles::nibble;
pub use crate::rand::Squares;
pub use crate::squares::{u32, u64};

//! Cardinality estimation with Gumbel-distributed registers.
//!
//! The verified core of the estimators: packed 5-bit registers, the split of a
//! hash into a register index and a remainder, the precision rules, the
//! bookkeeping of the GHLL+ estimator, and the small helpers of the comparison
//! suite. Floating-point work (Gumbel transforms, final estimates) lives outside
//! this crate and hands integers to it.
pub mod common;
pub mod comparison;
pub mod flags;
pub mod gen_data;
pub mod ghll_plus;
pub mod gumbel;
pub mod registers;

pub use common::{
    hash_value, register_count, unit_float_bits, GumbelError, MAX_PRECISION, MIN_PRECISION,
};
pub use ghll_plus::GHLLPlus;
pub use gumbel::{ICDFGumbel, SimpleBitHackGumbel, TaylorBitHackGumbel};
pub use registers::{ceil, Registers};

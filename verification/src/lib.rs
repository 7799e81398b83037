//! Cryptographic accumulators with privately delegatable proof updates.

pub mod bignum;
pub mod math;
pub mod input;
pub mod poly;
pub mod arith;
pub mod error;
pub mod traits;
pub mod groups;
pub mod nizk;
pub mod bilinear_accumulator;
pub mod rsa_accumulator;

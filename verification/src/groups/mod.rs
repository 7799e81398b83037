//! Concrete groups.

pub mod rsa_group;
pub mod units;
pub mod bls12_381;
pub mod bilinear_group;
pub mod class_group;

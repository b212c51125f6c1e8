//! WARP accumulation (Bünz, Chiesa, Fenzi, Wang, "Linear-Time Accumulation
//! Schemes") instantiated over the Mersenne-31 cubic extension `M31Ext3`,
//! with every step stated over mathematical models and checked by Verus.

pub mod field;
pub mod prime;
pub mod poly;
pub mod round_poly;
pub mod render;

pub use field::M31Ext3;
pub mod binary;
pub mod error;
pub mod pesat;
pub mod twin;
pub mod hash;
pub mod merkle;
pub mod transcript;
pub mod code;
pub mod univariate;
pub mod constr_5_10;
pub mod constr_6_3;
pub mod constr_7_2;
pub mod constr_8_2;
pub mod constr_9_4;
pub mod decider;
pub mod fs;
pub mod wire;
pub mod chunk_pesat_prover;
pub mod orion_code;
pub mod prover;

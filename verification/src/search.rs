//! Deterministic bounded searches over byte-quantized colors.
//!
//! Candidates arrive with their perceptual measurements; this module validates
//! requests, decides which candidates are feasible, ranks them and selects.

pub mod distinct;
pub mod fill_laws;
pub mod inputs;
pub mod memo;
pub mod overlay;
pub mod pair;
pub mod pair_laws;
pub mod pair_rank;
pub mod rank_laws;
pub mod request;
pub mod request_laws;
pub mod scan;
pub mod select;
pub mod tiers;

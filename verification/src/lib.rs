//! Primal-dual decoding core of a minimum-weight perfect matching engine for
//! quantum error correction: the fixed-capacity store of primal nodes with its
//! blossom traversals, and a cycle-accurate model of the pipelined dual module.

pub mod blossom_round_trip;
pub mod dual_module_comb;
pub mod dual_module_comb_edge;
pub mod dual_module_rtl;
pub mod interface;
pub mod primal_nodes;
pub mod util;

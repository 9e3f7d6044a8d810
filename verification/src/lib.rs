//! Analysis of labelled place/transition Petri nets: reduction of a net by
//! rewrites that keep its observable behaviour, construction of its
//! reachability graph as a Kripke structure, and compilation of the atomic
//! propositions of temporal formulas about it.
//!
//! Every function is verified against its contract; the contracts speak of
//! the nets, markings and graphs as mathematical sequences and maps.

pub mod maps;
pub mod model;
pub mod model_checking;
pub mod reduction;
pub mod util;

//! The reachability graph of a net, and the propositions that hold of its
//! states.

pub mod kripke;
pub mod props;
pub mod state;
pub mod to_kripke;

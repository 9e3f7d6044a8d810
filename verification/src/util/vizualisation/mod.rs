//! Drawings of nets, and labels for the states of their graphs.

pub mod kripke_viz;
pub mod petri_viz;
pub mod text;

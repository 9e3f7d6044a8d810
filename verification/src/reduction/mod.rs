//! Rewrites that make a net smaller, and their application to a fixed
//! point. Each rule stands in a file of its own; `reduce` applies them in a
//! fixed order.

pub mod edits;
pub mod elimination_self_loop_place;
pub mod elimination_self_loop_transition;
pub mod fusion_parallel_places;
pub mod fusion_parallel_transitions;
pub mod fusion_series_places;
pub mod fusion_series_transitions_variant1;
pub mod fusion_series_transitions_variant2;
pub mod info;
pub mod pairs;
pub mod preservation;
pub mod reduce;
pub mod state;

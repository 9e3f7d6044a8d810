//! Nets, their labels, transitions and markings, and how transitions fire.

pub mod label;
pub mod marking;
pub mod net;
pub mod transition;

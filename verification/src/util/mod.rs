//! Reading nets and formulas, and drawing nets and state graphs.

pub mod context;
pub mod parse_ctl;
pub mod parse_pnml;
pub mod vizualisation;

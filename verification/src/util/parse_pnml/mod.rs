//! Reading a net from a PNML document: the events of the document, a first
//! pass that gathers places, transitions and arcs, and the net they make.

pub mod content;
pub mod error;
pub mod events;
pub mod extract;
pub mod syntax;

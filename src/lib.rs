//! Connectivity extraction and netlist emission for drawn schematics.
//!
//! Coordinates are exact integers in hundredths of a drawing unit, so that
//! two locations are the same electrical node exactly when their keys agree.
//! Library definitions and placed elements are fed to a [`netlist::Netlist`]
//! in document order; `dump` then numbers the unnamed nets and writes one
//! simulator line per component reference.

pub mod emit;
pub mod geometry;
pub mod graph;
pub mod library;
pub mod netlist;
pub mod text;

//! Report how a firmware image's sections are laid out across the memory
//! regions of a named microcontroller.
//!
//! The crate holds the chip memory catalog, the resolver that matches a
//! section to the region fully containing it, the proportional bar renderer,
//! and the report formatter.  Reading the object file and parsing the command
//! line happen outside; the library works on plain section values.

pub mod catalog;
pub mod flash;
pub mod render;
pub mod report;
pub mod resolve;
pub mod textfmt;

//! The documents of a book that describes a SystemVerilog project.

pub mod escape;
pub mod files;
pub mod generate;
pub mod svclass;
pub mod sviface;
pub mod svmodule;
pub mod svpar;
pub mod svpkg;
pub mod units;
pub mod views;

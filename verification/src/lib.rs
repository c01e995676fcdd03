//! Size attribution for the functions of an object file, from its DWARF
//! debugging information.
//!
//! Every compilation unit is walked depth first. Each subprogram and each
//! inlined subroutine adds the extent of its code to the record of the
//! function it stands for, and an inlined subroutine takes the same extent
//! away from the nearest scope that encloses it, so that code is counted
//! once, for the function that was written, not for the one it ended up in.
//!
//! - [`attribution`] is the model: what one entry does to the records, and
//!   what a unit does.
//! - [`compilation_unit_parse`] holds the records and the walks that fill
//!   them, over entries given as plain values and over the entries of a
//!   unit read from a file.
//! - [`die_parse`] reads from one entry what the attribution needs.
//! - [`dwarf`] is the way to gimli, which decodes the sections.
//! - [`reading`] says what the bytes of the sections come to.
//! - [`emit`] lists the records as items of executable code.
//! - [`object_parse`] gathers the debugging sections of a file and runs
//!   the analysis on them.
//! - [`laws`] holds what is proved of all inputs.

pub mod attribution;
pub mod compilation_unit_parse;
pub mod die_parse;
pub mod dwarf;
pub mod emit;
pub mod laws;
pub mod object_parse;
pub mod reading;

//! Repairs the window and door openings of IFC files: every opening that an
//! `IFCRELVOIDSELEMENT` relation places in a wall is rewritten as an
//! `IFCOPENINGSTANDARDCASE` whose body is a plain extrusion along the wall's normal.
//!
//! The library works on the text of a STEP file as a sequence of characters.

pub mod text;
pub mod scan;
pub mod args;
pub mod table;
pub mod plan;
pub mod source;
pub mod emit;
pub mod splice;
pub mod convert;
pub mod laws;
pub mod properties;

//! What holds of the parsers on every input.

pub mod ceilings;
pub mod lookup;
pub mod truncation;
pub mod well_formed;

//! Extraction of people and profile records from pages that ship their
//! results inside hidden, commented-out markup.

pub mod dom;
pub mod profile;
pub mod public;
pub mod text;
pub mod transport;

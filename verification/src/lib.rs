//! Generation of decoder unit tests from packet test vectors.
//!
//! A document of packet groups, each with its test vectors, is filtered by an
//! allow-list of packet names; every selected vector becomes one test unit
//! that feeds the packed bytes to a decoder and compares each decoded field
//! with the value the vector expects.

pub mod error;
pub mod generate;
pub mod hex;
pub mod literal;
pub mod model;
pub mod render;
pub mod select;
pub mod unit;

//! The layout pass: indentation, brace placement, bracket spacing, blank
//! lines and directives, decided character by character.

pub mod braces;
pub mod laws;
pub mod model;
pub mod pass;
pub mod settle;

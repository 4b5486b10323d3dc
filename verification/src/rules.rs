//! The closed sets of choices a rule file can make.

use vstd::prelude::*;

verus! {

/// The text that one level of indentation is made of.
#[derive(Clone, Copy, Debug, PartialEq, Eq, Structural)]
pub enum IndentationRule {
    Tab,
    TwoSpaces,
    FourSpaces,
}

/// Where an opening brace goes relative to the line break around it.
#[derive(Clone, Copy, Debug, PartialEq, Eq, Structural)]
pub enum NewLineOnOpenBrace {
    Before,
    After,
}

/// A naming convention that identifiers can be held to.
#[derive(Clone, Copy, Debug, PartialEq, Eq, Structural)]
pub enum Case {
    Camel,
    Pascal,
    Snake,
    UpperSnake,
}

} // verus!

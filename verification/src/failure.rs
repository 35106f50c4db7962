use vstd::prelude::*;

verus! {

/// Why a line could not become a record. Each line gives at most one failure:
/// the first one met when its fields are read from left to right.
#[derive(Clone, Copy, Debug, PartialEq, Eq, Structural)]
pub enum ParseFailure {
    /// The mode field is absent or is none of the four mode tokens.
    InvalidMode,
    /// The score or the error field is present but is no floating-point number.
    InvalidFloatValue,
    /// The count field is present but is no signed integer.
    InvalidIntegerValue,
    /// The line holds no field at all.
    MissingNameField,
    /// A field after the mode is absent: the count, the score, the error or
    /// the units.
    MissingCountField,
}

} // verus!

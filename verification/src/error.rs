use vstd::prelude::*;

verus! {

/// Why a text cannot be packed into a `TinyStr`.
#[derive(Clone, Copy, Debug, PartialEq, Eq, Hash, Structural)]
pub enum Error {
    /// The text is empty or has more bytes than the word has lanes.
    InvalidSize,
    /// The text holds a NUL character.
    InvalidNull,
    /// The text holds a character outside of ASCII.
    NonAscii,
}

} // verus!

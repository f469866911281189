//! What can go wrong while scanning.

use vstd::prelude::*;

verus! {

/// A failure of one scan step. A numeric literal that lacks digits is no
/// failure: its token says so in its kind.
#[derive(Debug, Clone, Copy, PartialEq, Eq, Structural)]
pub enum LexError {
    /// No token starts with `character`, which stands `offset` bytes into
    /// the input.
    UnrecognizedCharacter { offset: usize, character: char },
}

impl LexError {
    /// Byte offset of the character that the error is about.
    pub open spec fn spec_offset(&self) -> usize {
        match *self {
            LexError::UnrecognizedCharacter { offset, .. } => offset,
        }
    }

    /// Byte offset of the character that the error is about.
    #[verifier::when_used_as_spec(spec_offset)]
    pub fn offset(&self) -> (offset: usize)
        ensures
            offset == self.spec_offset(),
    {
        match *self {
            LexError::UnrecognizedCharacter { offset, .. } => offset,
        }
    }

    /// The character that the error is about.
    pub open spec fn spec_character(&self) -> char {
        match *self {
            LexError::UnrecognizedCharacter { character, .. } => character,
        }
    }

    /// The character that the error is about.
    #[verifier::when_used_as_spec(spec_character)]
    pub fn character(&self) -> (character: char)
        ensures
            character == self.spec_character(),
    {
        match *self {
            LexError::UnrecognizedCharacter { character, .. } => character,
        }
    }
}

} // verus!

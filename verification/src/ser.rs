//! The errors of reading a saved game, and the save formats themselves.

use vstd::prelude::*;

verus! {

/// A saved game that breaks the rules a game must follow.
#[derive(Copy, Clone, Debug, PartialEq, Eq, Structural)]
pub enum InvalidDataError {
    TooSmallWidth,
    TooSmallHeight,
    ZeroMines,
    TooManyMines,
    BadCharacter,
}


/// What `InvalidDataError::message` says of each error.
pub open spec fn invalid_data_text(e: InvalidDataError) -> Seq<char> {
    match e {
        InvalidDataError::ZeroMines => "Found data with zero mines"@,
        InvalidDataError::TooSmallWidth => "Found data 1 or less width"@,
        InvalidDataError::TooSmallHeight => "Found data 1 or less height"@,
        InvalidDataError::TooManyMines => "Found data with more mines than allowed mine spaces"@,
        InvalidDataError::BadCharacter => "Found data with unknown character in serialised form"@,
    }
}

impl InvalidDataError {
    /// A sentence that says what is wrong.
    pub fn message(&self) -> (r: String)
        ensures
            r@ == invalid_data_text(*self),
    {
        match self {
            InvalidDataError::ZeroMines => "Found data with zero mines".to_owned(),
            InvalidDataError::TooSmallWidth => "Found data 1 or less width".to_owned(),
            InvalidDataError::TooSmallHeight => "Found data 1 or less height".to_owned(),
            InvalidDataError::TooManyMines => "Found data with more mines than allowed mine spaces".to_owned(),
            InvalidDataError::BadCharacter => "Found data with unknown character in serialised form".to_owned(),
        }
    }
}

} // verus!

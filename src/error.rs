use vstd::prelude::*;

verus! {

/// Every way an operation of this library can fail.
#[derive(Debug, Clone, Copy, PartialEq, Eq, Structural)]
pub enum ZonError {
    /// The buffer is shorter than the header.
    TooSmall,
    /// The first four bytes are not the format's magic number.
    BadMagic,
    /// A four-byte read would run past the end of the buffer.
    OutOfBounds,
    /// A string's declared length would run past the end of the buffer.
    StringOutOfBounds,
    /// A string's bytes are not valid UTF-8.
    InvalidUtf8,
    /// A value does not fit in the four bytes the format gives it.
    ValueTooLarge,
}

impl ZonError {
    /// A short human-readable description.
    pub fn message(&self) -> (r: &'static str)
        ensures
            r@ == (match self {
                ZonError::TooSmall => "Buffer too small for ZonHeader"@,
                ZonError::BadMagic => "Invalid Magic Number"@,
                ZonError::OutOfBounds => "Read out of bounds"@,
                ZonError::StringOutOfBounds => "String read out of bounds"@,
                ZonError::InvalidUtf8 => "Invalid UTF-8"@,
                ZonError::ValueTooLarge => "Value does not fit in 32 bits"@,
            }),
    {
        match self {
            ZonError::TooSmall => "Buffer too small for ZonHeader",
            ZonError::BadMagic => "Invalid Magic Number",
            ZonError::OutOfBounds => "Read out of bounds",
            ZonError::StringOutOfBounds => "String read out of bounds",
            ZonError::InvalidUtf8 => "Invalid UTF-8",
            ZonError::ValueTooLarge => "Value does not fit in 32 bits",
        }
    }
}

} // verus!

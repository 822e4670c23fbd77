//! Error type shared by the cursor and the decoder.
use vstd::prelude::*;

verus! {

/// A terminal failure of one decode: a read past the buffer's end, a
/// malformed field, or a decryption that could not be performed.
#[derive(Clone, Copy, Debug, PartialEq, Eq, Structural)]
pub enum ParseError {
    /// A read needed more bytes than remain at this offset.
    Bounds { offset: usize },
    /// A field's bytes do not form a value of the expected shape.
    Format { offset: usize },
    /// Decryption was attempted with no captured key, or the cipher refused
    /// the key or the data.
    Encryption,
}

} // verus!

//! Codec for the texture-pack container format: two wire variants (a legacy
//! one framed by a terminator pattern and a current one framed by explicit
//! lengths), an atlas compositor that rebuilds a padded sprite bitmap from its
//! packed rectangle, and a validator for externally supplied entry geometry.
use vstd::prelude::*;

pub mod bitmap;
pub mod codec;
pub mod compose;
pub mod model;
pub mod png;
pub mod primitive;
pub mod validate;
pub mod wire;

pub use bitmap::Bitmap;
pub use model::{Entry, Pack, Page};
pub use png::{read_png, write_png};
pub use primitive::read_until_pattern;
pub use validate::{validate_entry, EntryFrame, ValidateError};

verus! {

/// Errors raised by the codec. Stream errors (`Truncated`, `MalformedLength`)
/// abort a decode as a whole; the image-codec errors are surfaced unchanged
/// from the external still-image codec.
#[derive(Debug, Clone, Copy, PartialEq, Eq)]
pub enum PackError {
    /// The stream ended in the middle of a record.
    Truncated,
    /// A length prefix implies more bytes than remain or than are
    /// representable, or a string field is not valid UTF-8.
    MalformedLength,
    /// The external image codec rejected an embedded payload.
    ImageDecodeFailed,
    /// The external image codec could not encode a bitmap.
    ImageEncodeFailed,
    /// A decoded image could not be coerced to 8-bit RGBA.
    UnsupportedImageColorModel,
}

/// Selects which of the two wire-compatible variants a pack is written in.
/// Both variants decode into the same data model.
#[derive(Debug, Clone, Copy, PartialEq, Eq, PartialOrd, Ord, Hash)]
pub enum FormatVersion {
    /// Legacy variant: no magic prefix, no container mask, images terminated
    /// by a fixed byte pattern.
    V1,
    /// Current variant: `PZPK` magic prefix, container mask, images framed by
    /// an explicit length. Packs are written as `V2` by default.
    V2,
}

impl Default for FormatVersion {
    fn default() -> (r: Self)
        ensures
            r == FormatVersion::V2,
    {
        FormatVersion::V2
    }
}

} // verus!

//! The failures a build can end in.

use vstd::prelude::*;
use vstd::string::*;

verus! {

/// Why a build, or one of its packers, failed.
#[derive(Debug, Clone, Copy, PartialEq, Eq, Structural)]
pub enum IconError {
    /// The source path does not exist.
    NotFound,
    /// The source bytes are not an image in a supported raster format.
    DecodeError,
    /// The source image has no pixels.
    InvalidImage,
    /// A packer needs an edge length that the catalog does not hold.
    MissingSize(u32),
    /// An encoder failed, or a directory or file could not be written.
    IoError,
}

/// The message of each kind of failure.
pub open spec fn message_of(error: IconError) -> Seq<char> {
    match error {
        IconError::NotFound => "file not found"@,
        IconError::DecodeError => "the file is not an image in a supported format"@,
        IconError::InvalidImage => "the image has no pixels"@,
        IconError::MissingSize(_) => "a required icon size is missing from the catalog"@,
        IconError::IoError => "an icon file could not be encoded or written"@,
    }
}

impl IconError {
    /// A description of the failure for the user.
    pub fn message(&self) -> (r: String)
        ensures
            r@ == message_of(*self),
    {
        match self {
            IconError::NotFound => String::from_str("file not found"),
            IconError::DecodeError => String::from_str(
                "the file is not an image in a supported format",
            ),
            IconError::InvalidImage => String::from_str("the image has no pixels"),
            IconError::MissingSize(_) => String::from_str(
                "a required icon size is missing from the catalog",
            ),
            IconError::IoError => String::from_str("an icon file could not be encoded or written"),
        }
    }
}

/// Why a build or a preview could not start: the kind of failure and, for
/// a decode failure, the decoder's own description of it.
#[derive(Debug)]
pub struct Failure {
    pub error: IconError,
    pub cause: String,
}

/// The message of a failure: that of its kind, followed by a colon, a
/// space and the cause where there is one.
pub open spec fn failure_message(error: IconError, cause: Seq<char>) -> Seq<char> {
    if cause.len() == 0 {
        message_of(error)
    } else {
        message_of(error) + ": "@ + cause
    }
}

impl Failure {
    /// A failure of the given kind without a cause.
    pub fn of(error: IconError) -> (r: Failure)
        ensures
            r.error == error,
            r.cause@ == Seq::<char>::empty(),
    {
        Failure { error, cause: String::new() }
    }

    /// A description of the failure for the user.
    pub fn message(&self) -> (r: String)
        ensures
            r@ == failure_message(self.error, self.cause@),
    {
        let mut text = self.error.message();
        if self.cause.as_str().unicode_len() > 0 {
            text.append(": ");
            text.append(self.cause.as_str());
        }
        text
    }
}

} // verus!

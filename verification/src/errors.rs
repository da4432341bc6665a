//! Error values of the engine.

use crate::codec::image_error_text;
use vstd::prelude::*;
use vstd::string::StringExecFns;

verus! {

/// What can go wrong, each kind with its explanation.
#[non_exhaustive]
#[derive(Debug, PartialEq, Eq)]
pub enum AppError {
    /// A file could not be read or written.
    Io(String),
    /// An image could not be decoded, resized or encoded.
    Image(String),
    /// The configuration cannot be used.
    Config(String),
}

/// Result type of the operations of this crate.
pub type AppResult<T> = Result<T, AppError>;

/// Keeps a success and turns a codec's error into an image error.
pub fn or_image_error<T>(outcome: Result<T, image::ImageError>) -> (res: Result<T, AppError>)
    ensures
        outcome matches Ok(value) ==> res == Ok::<T, AppError>(value),
        outcome is Err ==> (res matches Err(error) && error is Image),
{
    match outcome {
        Ok(value) => Ok(value),
        Err(error) => Err(AppError::from_image(&error)),
    }
}

impl AppError {
    /// The explanation carried by the error.
    pub open spec fn detail(self) -> Seq<char> {
        match self {
            AppError::Io(text) => text@,
            AppError::Image(text) => text@,
            AppError::Config(text) => text@,
        }
    }

    /// The heading under which an error of this kind is reported.
    pub open spec fn heading(self) -> Seq<char> {
        match self {
            AppError::Io(_) => "IO Error: "@,
            AppError::Image(_) => "Image Processing Error: "@,
            AppError::Config(_) => "Configuration Error: "@,
        }
    }

    /// The error as one line of text: its heading, then its explanation.
    pub fn message(&self) -> (text: String)
        ensures
            text@ == self.heading() + self.detail(),
    {
        match self {
            AppError::Io(detail) => String::from_str("IO Error: ").concat(detail.as_str()),
            AppError::Image(detail) => String::from_str("Image Processing Error: ").concat(
                detail.as_str(),
            ),
            AppError::Config(detail) => String::from_str("Configuration Error: ").concat(
                detail.as_str(),
            ),
        }
    }

    /// An I/O error explained by the kind of the failure and its description.
    pub fn from_io(kind: &str, description: &str) -> (error: AppError)
        ensures
            error matches AppError::Io(text) && text@ == kind@ + ": "@ + description@,
    {
        AppError::Io(String::from_str(kind).concat(": ").concat(description))
    }

    /// An image error explained by what the codec reports.
    pub fn from_image(error: &image::ImageError) -> (res: AppError)
        ensures
            res is Image,
    {
        AppError::Image(image_error_text(error))
    }

    /// Takes the explanation out of the error.
    pub fn into_detail(self) -> (text: String)
        ensures
            text@ == self.detail(),
    {
        match self {
            AppError::Io(text) => text,
            AppError::Image(text) => text,
            AppError::Config(text) => text,
        }
    }

    /// The same error with `path` and a colon put before its explanation.
    pub fn at_path(self, path: &str) -> (res: AppError)
        ensures
            res.detail() == path@ + ": "@ + self.detail(),
            self is Io <==> res is Io,
            self is Image <==> res is Image,
            self is Config <==> res is Config,
    {
        match self {
            AppError::Io(text) => AppError::Io(
                String::from_str(path).concat(": ").concat(text.as_str()),
            ),
            AppError::Image(text) => AppError::Image(
                String::from_str(path).concat(": ").concat(text.as_str()),
            ),
            AppError::Config(text) => AppError::Config(
                String::from_str(path).concat(": ").concat(text.as_str()),
            ),
        }
    }

    /// An image error about the file at `path` with the given explanation.
    pub fn image_at(path: &str, reason: &str) -> (res: AppError)
        ensures
            res matches AppError::Image(text) && text@ == path@ + ": "@ + reason@,
    {
        AppError::Image(String::from_str(path).concat(": ").concat(reason))
    }
}

} // verus!

//! The ways in which reading a save can fail.

use vstd::prelude::*;
use crate::text::{Text, TextModel};

verus! {

/// Why a save, or one entity of it, could not be read.
#[derive(Debug)]
pub enum FormatError {
    /// The container does not start with the signature.
    BadMagic,
    /// The payload does not have the size that the container declares.
    SizeMismatch,
    /// The bytes end before the value that is being read.
    Truncated,
    /// A property carries a type tag outside the vocabulary.
    UnknownPropertyType(Text),
    /// A struct of this type was kept as raw bytes and has no fields to read.
    UnknownStructLayout(Text),
    /// An entity lacks the field of this name.
    MissingRequiredField(Vec<u8>),
    /// The file could not be read or written.
    IoError(String),
}

/// What a [`FormatError`] holds.
pub enum ErrorModel {
    BadMagic,
    SizeMismatch,
    Truncated,
    UnknownPropertyType(TextModel),
    UnknownStructLayout(TextModel),
    MissingRequiredField(Seq<u8>),
    IoError(Seq<char>),
}

impl View for FormatError {
    type V = ErrorModel;

    open spec fn view(&self) -> ErrorModel {
        match self {
            FormatError::BadMagic => ErrorModel::BadMagic,
            FormatError::SizeMismatch => ErrorModel::SizeMismatch,
            FormatError::Truncated => ErrorModel::Truncated,
            FormatError::UnknownPropertyType(tag) => ErrorModel::UnknownPropertyType(tag@),
            FormatError::UnknownStructLayout(name) => ErrorModel::UnknownStructLayout(name@),
            FormatError::MissingRequiredField(name) => ErrorModel::MissingRequiredField(name@),
            FormatError::IoError(message) => ErrorModel::IoError(message@),
        }
    }
}

impl ErrorModel {
    /// One sentence that says what went wrong.
    pub open spec fn message(self) -> Seq<char> {
        match self {
            ErrorModel::BadMagic => "the file does not start with the signature of a save container"@,
            ErrorModel::SizeMismatch => "the payload does not have the size that the container declares"@,
            ErrorModel::Truncated => "the file ends in the middle of a value"@,
            ErrorModel::UnknownPropertyType(_) => "a property has a type that is not known"@,
            ErrorModel::UnknownStructLayout(_) => "a struct was kept as raw bytes and has no fields"@,
            ErrorModel::MissingRequiredField(_) => "an entity lacks a required field"@,
            ErrorModel::IoError(_) => "the file could not be read or written"@,
        }
    }
}

impl FormatError {
    /// One sentence that says what went wrong.
    pub fn message(&self) -> (text: String)
        ensures
            text@ == self@.message(),
    {
        match self {
            FormatError::BadMagic => "the file does not start with the signature of a save container".to_owned(),
            FormatError::SizeMismatch => "the payload does not have the size that the container declares".to_owned(),
            FormatError::Truncated => "the file ends in the middle of a value".to_owned(),
            FormatError::UnknownPropertyType(_) => "a property has a type that is not known".to_owned(),
            FormatError::UnknownStructLayout(_) => "a struct was kept as raw bytes and has no fields".to_owned(),
            FormatError::MissingRequiredField(_) => "an entity lacks a required field".to_owned(),
            FormatError::IoError(_) => "the file could not be read or written".to_owned(),
        }
    }
}

} // verus!

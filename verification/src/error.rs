//! The ways in which an operation of the store can fail.

use vstd::prelude::*;

verus! {

/// The rule that an input broke.
#[derive(Debug, Clone, Copy, PartialEq, Eq, Structural)]
pub enum Rule {
    /// A card needs a name that is not blank.
    NameRequired,
    /// A photo's file name must end in jpg, jpeg, png or webp.
    PhotoType,
    /// A photo may hold at most five mebibytes.
    PhotoSize,
    /// An upload must bring a photo.
    PhotoMissing,
    /// The name of a served file may hold neither a slash nor two dots in
    /// a row.
    FileName,
}

/// Why an operation failed.
#[derive(Debug, Clone, Copy, PartialEq, Eq, Structural)]
pub enum StoreError {
    /// The input broke a rule; the store was not touched.
    Validation(Rule),
    /// No card has the id that was asked for.
    NotFound,
    /// The store could not take the change; it was not touched.
    Storage,
}

impl StoreError {
    /// The words in which this error is told to a caller: a validation
    /// error names the rule that was broken, a storage error gives no
    /// detail.
    pub open spec fn text(self) -> Seq<char> {
        match self {
            StoreError::Validation(Rule::NameRequired) => "name is required"@,
            StoreError::Validation(Rule::PhotoType) => "only jpg, png, webp photos are allowed"@,
            StoreError::Validation(Rule::PhotoSize) => "photo exceeds 5MB limit"@,
            StoreError::Validation(Rule::PhotoMissing) => "no photo field provided"@,
            StoreError::Validation(Rule::FileName) => "invalid filename"@,
            StoreError::NotFound => "card not found"@,
            StoreError::Storage => "storage failure"@,
        }
    }

    /// The words in which this error is told to a caller.
    pub fn message(&self) -> (r: &'static str)
        ensures
            r@ == self.text(),
    {
        match self {
            StoreError::Validation(Rule::NameRequired) => "name is required",
            StoreError::Validation(Rule::PhotoType) => "only jpg, png, webp photos are allowed",
            StoreError::Validation(Rule::PhotoSize) => "photo exceeds 5MB limit",
            StoreError::Validation(Rule::PhotoMissing) => "no photo field provided",
            StoreError::Validation(Rule::FileName) => "invalid filename",
            StoreError::NotFound => "card not found",
            StoreError::Storage => "storage failure",
        }
    }

    /// The HTTP status that stands for this error.
    pub open spec fn status(self) -> u16 {
        match self {
            StoreError::Validation(_) => 400,
            StoreError::NotFound => 404,
            StoreError::Storage => 500,
        }
    }

    /// The HTTP status with which a request handler answers this error.
    pub fn status_code(&self) -> (code: u16)
        ensures
            code == self.status(),
    {
        match self {
            StoreError::Validation(_) => 400,
            StoreError::NotFound => 404,
            StoreError::Storage => 500,
        }
    }
}

} // verus!

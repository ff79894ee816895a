//! Errors of canonicalization and synchronization.

use vstd::prelude::*;

verus! {

/// The four kinds of failure.
#[derive(Clone, Copy, Debug, PartialEq, Eq, Structural)]
pub enum ErrorKind {
    /// A structural rule of a record is broken.
    Validation,
    /// Two records of one collection have the same key.
    DuplicateKey,
    /// The asset store failed to rename a file.
    AssetRename,
    /// A value of the input is none of its type.
    MalformedInput,
}

/// Why a record was rejected.
#[derive(Clone, Copy, Debug, PartialEq, Eq, Structural)]
pub enum ContentError {
    /// A question that is not blank has fewer than two or more than five
    /// options.
    QuestionOptionCount { question_id: u128, count: usize },
    /// Two options of a question have the same text.
    DuplicateQuestionOption { question_id: u128 },
    /// A question that is not blank has no correct option, or several.
    CorrectOptionCount { question_id: u128, count: usize },
    /// The key, the name or the short name of a course is empty.
    InvalidCourse,
    /// The price of a course is below zero.
    InvalidCoursePrice,
    /// The text or the author of an explanation is empty.
    InvalidExplanation,
    /// The name of a bundle is empty.
    InvalidBundleName,
    /// The discount of a bundle is not above zero.
    InvalidBundleDiscount,
    /// The price of an icon is not above zero.
    InvalidIconPrice,
    /// A question source lacks the date or the name that its type asks for.
    InvalidQuestionSource,
    /// An amount has too many places or too large a mantissa.
    MalformedAmount,
    /// A date names no day of the calendar.
    MalformedDate,
    /// A timestamp is out of range.
    MalformedTimestamp,
    /// Two records of one collection have the same key.
    DuplicateKey,
    /// The asset store failed to rename an image.
    AssetRename,
}

impl ContentError {
    pub open spec fn spec_kind(&self) -> ErrorKind {
        match self {
            ContentError::MalformedAmount
            | ContentError::MalformedDate
            | ContentError::MalformedTimestamp => ErrorKind::MalformedInput,
            ContentError::DuplicateKey => ErrorKind::DuplicateKey,
            ContentError::AssetRename => ErrorKind::AssetRename,
            _ => ErrorKind::Validation,
        }
    }

    /// The kind of failure that this error belongs to.
    #[verifier::when_used_as_spec(spec_kind)]
    pub fn kind(&self) -> (r: ErrorKind)
        ensures
            r == self.spec_kind(),
    {
        match self {
            ContentError::MalformedAmount
            | ContentError::MalformedDate
            | ContentError::MalformedTimestamp => ErrorKind::MalformedInput,
            ContentError::DuplicateKey => ErrorKind::DuplicateKey,
            ContentError::AssetRename => ErrorKind::AssetRename,
            _ => ErrorKind::Validation,
        }
    }
}

} // verus!

//! Sources of questions: the exam, partial or other paper that a question was
//! taken from.

use crate::error::ContentError;
use crate::hashing::{optional_text_view, put_text, text_bytes, Hashable};
use crate::text::{trim_text, trimmed};
use crate::values::CalendarDate;
use vstd::prelude::*;
use vstd::string::*;

verus! {

/// The kind of paper that a question was taken from. The kinds are ordered as
/// they are listed.
#[derive(Clone, Copy, Debug, PartialEq, Eq, Structural, Hash)]
pub enum QuestionSourceType {
    Exam,
    Partial,
    SelfAssessment,
    Other,
}

/// A source of questions of a course.
#[derive(Clone, Debug, PartialEq, Eq)]
pub struct QuestionSourceData {
    pub course_key: String,
    pub kind: QuestionSourceType,
    pub name: Option<String>,
    pub date: Option<CalendarDate>,
    pub variant: Option<String>,
}

/// What a source holds, as mathematical values.
pub struct QuestionSourceView {
    pub course_key: Seq<char>,
    pub kind: QuestionSourceType,
    pub name: Option<Seq<char>>,
    pub date: Option<CalendarDate>,
    pub variant: Option<Seq<char>>,
}

/// The part of a key that stands for an optional text.
pub open spec fn key_part(text: Option<Seq<char>>) -> Seq<char> {
    match text {
        Some(t) => t,
        None => QuestionSourceData::EMPTY_FIELD_KEY_VALUE@,
    }
}

/// The part of a key that stands for an optional date.
pub open spec fn date_key_part(date: Option<CalendarDate>) -> Seq<char> {
    match date {
        Some(d) => d.text(),
        None => QuestionSourceData::EMPTY_FIELD_KEY_VALUE@,
    }
}

/// Whether two optional texts are both absent or the same text.
pub fn same_optional_text(a: &Option<String>, b: &Option<String>) -> (r: bool)
    ensures
        r == (optional_text_view(*a) == optional_text_view(*b)),
{
    match (a, b) {
        (Some(x), Some(y)) => *x == *y,
        (None, None) => true,
        _ => false,
    }
}

impl QuestionSourceType {
    /// The name of the kind as it stands in a key.
    pub open spec fn spec_name(&self) -> Seq<char> {
        match self {
            QuestionSourceType::Exam => "exam"@,
            QuestionSourceType::Partial => "partial"@,
            QuestionSourceType::SelfAssessment => "self_assessment"@,
            QuestionSourceType::Other => "other"@,
        }
    }

    /// The place of the kind in their order.
    pub open spec fn spec_rank(&self) -> u8 {
        match self {
            QuestionSourceType::Exam => 0,
            QuestionSourceType::Partial => 1,
            QuestionSourceType::SelfAssessment => 2,
            QuestionSourceType::Other => 3,
        }
    }

    pub fn name(&self) -> (r: &'static str)
        ensures
            r@ == self.spec_name(),
    {
        match self {
            QuestionSourceType::Exam => "exam",
            QuestionSourceType::Partial => "partial",
            QuestionSourceType::SelfAssessment => "self_assessment",
            QuestionSourceType::Other => "other",
        }
    }

    #[verifier::when_used_as_spec(spec_rank)]
    pub fn rank(&self) -> (r: u8)
        ensures
            r == self.spec_rank(),
    {
        match self {
            QuestionSourceType::Exam => 0,
            QuestionSourceType::Partial => 1,
            QuestionSourceType::SelfAssessment => 2,
            QuestionSourceType::Other => 3,
        }
    }
}

impl QuestionSourceView {
    /// Every date in the source is a day of the calendar.
    pub open spec fn wf(self) -> bool {
        self.date matches Some(d) ==> d.wf()
    }

    /// The key of the source: course, kind, name, date and variant, with `::`
    /// between them and `!` for what is absent.
    pub open spec fn key(self) -> Seq<char> {
        self.course_key + QuestionSourceData::KEY_SEPARATOR@ + self.kind.spec_name()
            + QuestionSourceData::KEY_SEPARATOR@ + key_part(self.name)
            + QuestionSourceData::KEY_SEPARATOR@ + date_key_part(self.date)
            + QuestionSourceData::KEY_SEPARATOR@ + key_part(self.variant)
    }

    /// The source with its name trimmed.
    pub open spec fn formatted(self) -> Self {
        QuestionSourceView {
            name: match self.name {
                Some(n) => Some(trimmed(n)),
                None => None,
            },
            ..self
        }
    }

    /// An exam and a partial need a date; a partial needs a name too.
    pub open spec fn is_valid(self) -> bool {
        &&& self.date is None ==> self.kind != QuestionSourceType::Exam && self.kind
            != QuestionSourceType::Partial
        &&& self.name is None ==> self.kind != QuestionSourceType::Partial
    }

    /// What the check of the source says.
    pub open spec fn check(self) -> Result<(), ContentError> {
        if !self.wf() {
            Err(ContentError::MalformedDate)
        } else if !self.is_valid() {
            Err(ContentError::InvalidQuestionSource)
        } else {
            Ok(())
        }
    }

    /// The encoding of the source: the bytes of its key.
    pub open spec fn canonical_bytes(self) -> Seq<u8> {
        text_bytes(self.key())
    }

    /// Whether formatting leaves the source as it is.
    pub open spec fn is_canonical(self) -> bool {
        self.name matches Some(n) ==> trimmed(n) == n
    }
}

impl View for QuestionSourceData {
    type V = QuestionSourceView;

    open spec fn view(&self) -> QuestionSourceView {
        QuestionSourceView {
            course_key: self.course_key@,
            kind: self.kind,
            name: optional_text_view(self.name),
            date: self.date,
            variant: optional_text_view(self.variant),
        }
    }
}

impl Hashable for QuestionSourceData {
    open spec fn well_formed(&self) -> bool {
        self@.wf()
    }

    open spec fn canonical_bytes(&self) -> Seq<u8> {
        self@.canonical_bytes()
    }

    fn to_bytes(&self) -> (r: Vec<u8>) {
        self.encode()
    }

    open spec fn stored_fingerprint(&self) -> Seq<char> {
        Seq::empty()
    }

    fn stored_hash(&self) -> (r: Option<&str>) {
        None
    }

    fn store_hash(&mut self, hash: String) -> (stored: bool) {
        false
    }
}

impl QuestionSourceData {
    /// What stands between the parts of a key.
    pub const KEY_SEPARATOR: &'static str = "::";

    /// What stands in a key for a part that is absent.
    pub const EMPTY_FIELD_KEY_VALUE: &'static str = "!";

    /// Makes a source, trims its name and checks it.
    pub fn new(
        course_key: String,
        kind: QuestionSourceType,
        name: Option<String>,
        date: Option<CalendarDate>,
        variant: Option<String>,
    ) -> (r: Result<Self, ContentError>)
        ensures
            ({
                let raw = QuestionSourceView {
                    course_key: course_key@,
                    kind,
                    name: optional_text_view(name),
                    date,
                    variant: optional_text_view(variant),
                };
                match r {
                    Ok(source) => raw.formatted().check() is Ok && source@ == raw.formatted(),
                    Err(error) => raw.formatted().check() == Err::<(), ContentError>(error),
                }
            }),
    {
        let mut data = QuestionSourceData { course_key, kind, name, date, variant };
        match data.process() {
            Ok(()) => Ok(data),
            Err(error) => Err(error),
        }
    }

    /// The key of the source.
    pub fn key(&self) -> (r: String)
        requires
            self@.wf(),
        ensures
            r@ == self@.key(),
    {
        let mut key = self.course_key.clone();
        key.append(Self::KEY_SEPARATOR);
        key.append(self.kind.name());
        key.append(Self::KEY_SEPARATOR);
        match &self.name {
            Some(name) => key.append(name.as_str()),
            None => key.append(Self::EMPTY_FIELD_KEY_VALUE),
        }
        key.append(Self::KEY_SEPARATOR);
        match &self.date {
            Some(date) => {
                let text = date.to_text();
                key.append(text.as_str());
            },
            None => key.append(Self::EMPTY_FIELD_KEY_VALUE),
        }
        key.append(Self::KEY_SEPARATOR);
        match &self.variant {
            Some(variant) => key.append(variant.as_str()),
            None => key.append(Self::EMPTY_FIELD_KEY_VALUE),
        }
        key
    }

    /// The encoding of the source.
    pub fn encode(&self) -> (r: Vec<u8>)
        requires
            self@.wf(),
        ensures
            r@ == self@.canonical_bytes(),
    {
        let key = self.key();
        let mut bytes: Vec<u8> = Vec::new();
        put_text(&mut bytes, key.as_str());
        assert(bytes@ =~= self@.canonical_bytes());
        bytes
    }

    /// A copy of the source.
    pub fn duplicate(&self) -> (r: Self)
        ensures
            r@ == self@,
    {
        QuestionSourceData {
            course_key: self.course_key.clone(),
            kind: self.kind,
            name: match &self.name {
                Some(name) => Some(name.clone()),
                None => None,
            },
            date: self.date,
            variant: match &self.variant {
                Some(variant) => Some(variant.clone()),
                None => None,
            },
        }
    }

    /// Whether the two sources hold the same.
    pub fn same_as(&self, other: &Self) -> (r: bool)
        ensures
            r == (self@ == other@),
    {
        let same_date = match (&self.date, &other.date) {
            (Some(a), Some(b)) => a.year == b.year && a.month == b.month && a.day == b.day,
            (None, None) => true,
            _ => false,
        };
        self.course_key == other.course_key && self.kind.rank() == other.kind.rank()
            && same_optional_text(&self.name, &other.name) && same_date && same_optional_text(
            &self.variant,
            &other.variant,
        )
    }

    /// Trims the name and checks the source.
    pub fn process(&mut self) -> (r: Result<(), ContentError>)
        ensures
            final(self)@ == old(self)@.formatted(),
            r == old(self)@.formatted().check(),
    {
        self.format();
        self.check()
    }

    /// Checks that every date is a day of the calendar, and that the source
    /// has the date and the name that its kind asks for.
    pub fn check(&self) -> (r: Result<(), ContentError>)
        ensures
            r == self@.check(),
    {
        let date_is_valid = match &self.date {
            Some(date) => date.is_valid(),
            None => true,
        };
        if !date_is_valid {
            return Err(ContentError::MalformedDate);
        }
        let is_exam = matches!(self.kind, QuestionSourceType::Exam);
        let is_partial = matches!(self.kind, QuestionSourceType::Partial);
        if (self.date.is_none() && (is_exam || is_partial)) || (self.name.is_none()
            && is_partial) {
            return Err(ContentError::InvalidQuestionSource);
        }
        Ok(())
    }

    /// Trims the name.
    pub fn format(&mut self)
        ensures
            final(self)@ == old(self)@.formatted(),
    {
        let name = match &self.name {
            Some(name) => Some(trim_text(name.as_str())),
            None => None,
        };
        self.name = name;
    }
}

} // verus!

//! Topics of questions.

use crate::error::ContentError;
use crate::hashing::{put_text, text_bytes, Hashable};
use crate::text::{
    capitalize_first_char, capitalized, format_text, formatted, remove_end_period,
    without_end_period,
};
use vstd::prelude::*;
use vstd::string::*;

verus! {

/// A topic of a course, keyed by the course and its name.
#[derive(Clone, Debug, PartialEq, Eq)]
pub struct QuestionTopicData {
    pub course_key: String,
    pub name: String,
}

/// What a topic holds, as mathematical values.
pub struct QuestionTopicView {
    pub course_key: Seq<char>,
    pub name: Seq<char>,
}

/// The normal form of a topic name: formatted, without a period at its end,
/// capitalized.
pub open spec fn topic_name(name: Seq<char>) -> Seq<char> {
    capitalized(without_end_period(formatted(name)))
}

impl QuestionTopicView {
    /// The key of the topic: the key of its course, `::`, and its name.
    pub open spec fn key(self) -> Seq<char> {
        self.course_key + QuestionTopicData::KEY_SEPARATOR@ + self.name
    }

    /// A topic without a name is blank.
    pub open spec fn is_blank(self) -> bool {
        self.name.len() == 0
    }

    /// Whether the topic is the one that stands for "no topic".
    pub open spec fn is_default(self) -> bool {
        self.name == QuestionTopicData::DEFAULT_NAME@
    }

    /// The topic with its name in normal form.
    pub open spec fn formatted(self) -> Self {
        QuestionTopicView { name: topic_name(self.name), ..self }
    }

    /// The encoding of the topic: the bytes of its key.
    pub open spec fn canonical_bytes(self) -> Seq<u8> {
        text_bytes(self.key())
    }

    /// Whether formatting leaves the topic as it is.
    pub open spec fn is_canonical(self) -> bool {
        topic_name(self.name) == self.name
    }
}

impl View for QuestionTopicData {
    type V = QuestionTopicView;

    open spec fn view(&self) -> QuestionTopicView {
        QuestionTopicView { course_key: self.course_key@, name: self.name@ }
    }
}

impl Hashable for QuestionTopicData {
    open spec fn well_formed(&self) -> bool {
        true
    }

    open spec fn canonical_bytes(&self) -> Seq<u8> {
        self@.canonical_bytes()
    }

    fn to_bytes(&self) -> (r: Vec<u8>) {
        self.encode()
    }

    open spec fn stored_fingerprint(&self) -> Seq<char> {
        Seq::empty()
    }

    fn stored_hash(&self) -> (r: Option<&str>) {
        None
    }

    fn store_hash(&mut self, hash: String) -> (stored: bool) {
        false
    }
}

impl QuestionTopicData {
    /// What stands between the parts of a key.
    pub const KEY_SEPARATOR: &'static str = "::";

    /// The name of the topic that stands for "no topic".
    pub const DEFAULT_NAME: &'static str = "_";

    /// Makes a topic and formats its name. No topic is rejected.
    pub fn new(course_key: String, name: String) -> (r: Result<Self, ContentError>)
        ensures
            r matches Ok(topic) && topic@ == (QuestionTopicView {
                course_key: course_key@,
                name: name@,
            }).formatted(),
    {
        let mut data = QuestionTopicData { course_key, name };
        data.format();
        Ok(data)
    }

    /// The key of the topic.
    pub fn key(&self) -> (r: String)
        ensures
            r@ == self@.key(),
    {
        let mut key = self.course_key.clone();
        key.append(Self::KEY_SEPARATOR);
        key.append(self.name.as_str());
        key
    }

    /// The encoding of the topic.
    pub fn encode(&self) -> (r: Vec<u8>)
        ensures
            r@ == self@.canonical_bytes(),
    {
        let key = self.key();
        let mut bytes: Vec<u8> = Vec::new();
        put_text(&mut bytes, key.as_str());
        assert(bytes@ =~= self@.canonical_bytes());
        bytes
    }

    /// A copy of the topic.
    pub fn duplicate(&self) -> (r: Self)
        ensures
            r@ == self@,
    {
        QuestionTopicData { course_key: self.course_key.clone(), name: self.name.clone() }
    }

    /// Whether the two topics hold the same.
    pub fn same_as(&self, other: &Self) -> (r: bool)
        ensures
            r == (self@ == other@),
    {
        self.course_key == other.course_key && self.name == other.name
    }

    /// Whether the topic has no name.
    pub fn is_blank(&self) -> (r: bool)
        ensures
            r == self@.is_blank(),
    {
        self.name.as_str().is_empty()
    }

    /// Whether the topic is the one that stands for "no topic".
    pub fn is_default(&self) -> (r: bool)
        ensures
            r == self@.is_default(),
    {
        Self::is_default_topic_name(self.name.as_str())
    }

    /// Brings the name into normal form.
    pub fn format(&mut self)
        ensures
            final(self)@ == old(self)@.formatted(),
    {
        let formatted = format_text(self.name.as_str());
        self.name = remove_end_period(formatted.as_str());
        capitalize_first_char(&mut self.name);
    }

    /// Whether `name` is the name of the topic that stands for "no topic".
    pub fn is_default_topic_name(name: &str) -> (r: bool)
        ensures
            r == (name@ == Self::DEFAULT_NAME@),
    {
        proof {
            reveal_strlit("_");
        }
        let r = name.unicode_len() == 1 && name.get_char(0) == '_';
        assert(r ==> name@ =~= Self::DEFAULT_NAME@);
        r
    }
}

} // verus!

//! Explanations of questions.

use crate::error::ContentError;
use crate::hashing::{digest_hex, fingerprint_of, put_text, text_bytes, Hashable};
use crate::text::{trim_text, trimmed};
use crate::values::Timestamp;
use vstd::prelude::*;
use vstd::string::*;

verus! {

/// An explanation of the answer to a question.
#[derive(Clone, Debug, PartialEq, Eq)]
pub struct ExplanationData {
    pub text: String,
    /// Who wrote the explanation.
    pub by: String,
    /// When it was written.
    pub date: Timestamp,
    /// The fingerprint of the explanation, once it was processed.
    pub hash: String,
}

/// What an explanation holds, as mathematical values.
pub struct ExplanationView {
    pub text: Seq<char>,
    pub by: Seq<char>,
    pub date: Timestamp,
    pub hash: Seq<char>,
}

impl ExplanationView {
    /// The instant of the explanation is one of its type.
    pub open spec fn wf(self) -> bool {
        self.date.wf()
    }

    /// The explanation with its text and its author trimmed.
    pub open spec fn formatted(self) -> Self {
        ExplanationView { text: trimmed(self.text), by: trimmed(self.by), ..self }
    }

    /// An explanation has a text and an author.
    pub open spec fn is_valid(self) -> bool {
        self.text.len() > 0 && self.by.len() > 0
    }

    /// What the check of the explanation says.
    pub open spec fn check(self) -> Result<(), ContentError> {
        if !self.wf() {
            Err(ContentError::MalformedTimestamp)
        } else if !self.is_valid() {
            Err(ContentError::InvalidExplanation)
        } else {
            Ok(())
        }
    }

    /// The encoding of the explanation: text, author and instant.
    pub open spec fn canonical_bytes(self) -> Seq<u8> {
        text_bytes("text"@) + text_bytes(self.text) + text_bytes("by"@) + text_bytes(self.by)
            + text_bytes("date"@) + text_bytes(self.date.text())
    }

    /// The fingerprint of the explanation as it is.
    pub open spec fn fingerprint(self) -> Seq<char> {
        fingerprint_of(self.canonical_bytes())
    }

    /// Whether the stored fingerprint is that of the content.
    pub open spec fn is_fingerprinted(self) -> bool {
        self.hash == self.fingerprint()
    }

    /// The explanation with its fingerprint stored.
    pub open spec fn fingerprinted(self) -> Self {
        ExplanationView { hash: self.fingerprint(), ..self }
    }

    /// The explanation after processing: formatted and, if it passes the
    /// check, fingerprinted.
    pub open spec fn processed(self) -> Self {
        if self.formatted().check() is Ok {
            self.formatted().fingerprinted()
        } else {
            self.formatted()
        }
    }

    /// Whether processing leaves the explanation as it is.
    pub open spec fn is_canonical(self) -> bool {
        &&& trimmed(self.text) == self.text
        &&& trimmed(self.by) == self.by
        &&& self.is_fingerprinted()
    }
}

impl View for ExplanationData {
    type V = ExplanationView;

    open spec fn view(&self) -> ExplanationView {
        ExplanationView { text: self.text@, by: self.by@, date: self.date, hash: self.hash@ }
    }
}

impl Hashable for ExplanationData {
    open spec fn well_formed(&self) -> bool {
        self@.wf()
    }

    open spec fn canonical_bytes(&self) -> Seq<u8> {
        self@.canonical_bytes()
    }

    fn to_bytes(&self) -> (r: Vec<u8>) {
        self.encode()
    }

    open spec fn stored_fingerprint(&self) -> Seq<char> {
        self.hash@
    }

    fn stored_hash(&self) -> (r: Option<&str>) {
        if self.hash.as_str().is_empty() {
            None
        } else {
            Some(self.hash.as_str())
        }
    }

    fn store_hash(&mut self, hash: String) -> (stored: bool) {
        self.hash = hash;
        true
    }
}

impl ExplanationData {
    /// Makes an explanation, trims it, checks it and stores its fingerprint.
    pub fn new(text: String, by: String, date: Timestamp) -> (r: Result<Self, ContentError>)
        ensures
            ({
                let raw = ExplanationView { text: text@, by: by@, date, hash: Seq::empty() };
                match r {
                    Ok(explanation) => raw.formatted().check() is Ok && explanation@
                        == raw.processed(),
                    Err(error) => raw.formatted().check() == Err::<(), ContentError>(error),
                }
            }),
    {
        let mut data = ExplanationData { text, by, date, hash: String::new() };
        match data.process() {
            Ok(()) => Ok(data),
            Err(error) => Err(error),
        }
    }

    /// A copy of the explanation.
    pub fn duplicate(&self) -> (r: Self)
        ensures
            r@ == self@,
    {
        ExplanationData {
            text: self.text.clone(),
            by: self.by.clone(),
            date: self.date,
            hash: self.hash.clone(),
        }
    }

    /// The encoding of the explanation.
    pub fn encode(&self) -> (r: Vec<u8>)
        requires
            self@.wf(),
        ensures
            r@ == self@.canonical_bytes(),
    {
        let date = self.date.to_text();
        let mut bytes: Vec<u8> = Vec::new();
        put_text(&mut bytes, "text");
        put_text(&mut bytes, self.text.as_str());
        put_text(&mut bytes, "by");
        put_text(&mut bytes, self.by.as_str());
        put_text(&mut bytes, "date");
        put_text(&mut bytes, date.as_str());
        assert(bytes@ =~= self@.canonical_bytes());
        bytes
    }

    /// The fingerprint of the explanation as it is now.
    pub fn fingerprint(&self) -> (r: String)
        requires
            self@.wf(),
        ensures
            r@ == self@.fingerprint(),
    {
        let bytes = self.encode();
        digest_hex(bytes.as_slice())
    }

    /// Trims the explanation, checks it and, if it passes, stores its
    /// fingerprint.
    pub fn process(&mut self) -> (r: Result<(), ContentError>)
        ensures
            final(self)@ == old(self)@.processed(),
            r == old(self)@.formatted().check(),
    {
        self.format();
        match self.check() {
            Ok(()) => {
                self.refresh_hash();
                Ok(())
            },
            Err(error) => Err(error),
        }
    }

    /// Checks that the instant is one of its type and that neither the text
    /// nor the author is empty.
    pub fn check(&self) -> (r: Result<(), ContentError>)
        ensures
            r == self@.check(),
    {
        if !self.date.is_valid() {
            return Err(ContentError::MalformedTimestamp);
        }
        if self.text.as_str().is_empty() || self.by.as_str().is_empty() {
            return Err(ContentError::InvalidExplanation);
        }
        Ok(())
    }

    /// Trims the text and the author.
    pub fn format(&mut self)
        ensures
            final(self)@ == old(self)@.formatted(),
    {
        self.text = trim_text(self.text.as_str());
        self.by = trim_text(self.by.as_str());
    }

    /// Stores the fingerprint of the explanation as it is now.
    pub fn refresh_hash(&mut self)
        requires
            old(self)@.wf(),
        ensures
            final(self)@ == old(self)@.fingerprinted(),
    {
        self.hash = self.fingerprint();
    }
}

} // verus!

//! Evaluations of a course: the exams and tests that it is graded by.

use crate::error::ContentError;
use crate::hashing::{big_endian, digest_hex, fingerprint_of, put_text, text_bytes, Hashable};
use vstd::prelude::*;
use vstd::string::*;

verus! {

/// What stands between the key of a course and the key of an evaluation.
pub const COURSE_EVALUATION_KEY_SEPARATOR: &'static str = "/";

/// An evaluation of a course.
#[derive(Clone, Debug, PartialEq, Eq)]
pub struct CourseEvaluationData {
    pub key: String,
    pub course_key: String,
    pub name: String,
    pub order: i16,
    /// The fingerprint of the evaluation.
    pub hash: String,
}

/// What an evaluation holds, as mathematical values.
pub struct CourseEvaluationView {
    pub key: Seq<char>,
    pub course_key: Seq<char>,
    pub name: Seq<char>,
    pub order: i16,
    pub hash: Seq<char>,
}

/// The two bytes of a signed number in two's complement, highest first.
pub open spec fn order_bytes(order: i16) -> Seq<u8> {
    big_endian((if order < 0 { order + 0x1_0000 } else { order as int }) as nat, 2)
}

/// The full key of an evaluation: the key of the course, a slash, and the key
/// of the evaluation.
pub open spec fn full_evaluation_key(course_key: Seq<char>, key: Seq<char>) -> Seq<char> {
    course_key + COURSE_EVALUATION_KEY_SEPARATOR@ + key
}

impl CourseEvaluationView {
    /// The full key of the evaluation.
    pub open spec fn full_key(self) -> Seq<char> {
        full_evaluation_key(self.course_key, self.key)
    }

    /// The encoding of the evaluation: course, name and order, without the
    /// names of the fields.
    pub open spec fn canonical_bytes(self) -> Seq<u8> {
        text_bytes(self.course_key) + text_bytes(self.name) + order_bytes(self.order)
    }

    /// The fingerprint of the evaluation as it is.
    pub open spec fn fingerprint(self) -> Seq<char> {
        fingerprint_of(self.canonical_bytes())
    }

    /// The evaluation with its fingerprint stored.
    pub open spec fn fingerprinted(self) -> Self {
        CourseEvaluationView { hash: self.fingerprint(), ..self }
    }
}

impl View for CourseEvaluationData {
    type V = CourseEvaluationView;

    open spec fn view(&self) -> CourseEvaluationView {
        CourseEvaluationView {
            key: self.key@,
            course_key: self.course_key@,
            name: self.name@,
            order: self.order,
            hash: self.hash@,
        }
    }
}

impl Hashable for CourseEvaluationData {
    open spec fn well_formed(&self) -> bool {
        true
    }

    open spec fn canonical_bytes(&self) -> Seq<u8> {
        self@.canonical_bytes()
    }

    fn to_bytes(&self) -> (r: Vec<u8>) {
        self.hashable_data()
    }

    open spec fn stored_fingerprint(&self) -> Seq<char> {
        self.hash@
    }

    fn stored_hash(&self) -> (r: Option<&str>) {
        if self.hash.as_str().is_empty() {
            None
        } else {
            Some(self.hash.as_str())
        }
    }

    fn store_hash(&mut self, hash: String) -> (stored: bool) {
        self.hash = hash;
        true
    }
}

impl CourseEvaluationData {
    /// Makes an evaluation and stores its fingerprint. No evaluation is
    /// rejected.
    pub fn new(key: String, course_key: String, name: String, order: i16) -> (r: Result<
        Self,
        ContentError,
    >)
        ensures
            r matches Ok(evaluation) && evaluation@ == (CourseEvaluationView {
                key: key@,
                course_key: course_key@,
                name: name@,
                order,
                hash: Seq::empty(),
            }).fingerprinted(),
    {
        let mut data = CourseEvaluationData { key, course_key, name, order, hash: String::new() };
        data.hash = data.fingerprint();
        Ok(data)
    }

    /// The full key of the evaluation.
    pub fn full_key(&self) -> (r: String)
        ensures
            r@ == self@.full_key(),
    {
        Self::do_full_key(self.course_key.as_str(), self.key.as_str())
    }

    /// The full key of the evaluation `key` of the course `course_key`.
    pub fn do_full_key(course_key: &str, key: &str) -> (r: String)
        ensures
            r@ == full_evaluation_key(course_key@, key@),
    {
        let mut full = String::from_str(course_key);
        full.append(COURSE_EVALUATION_KEY_SEPARATOR);
        full.append(key);
        full
    }

    /// The encoding of the evaluation.
    pub fn hashable_data(&self) -> (r: Vec<u8>)
        ensures
            r@ == self@.canonical_bytes(),
    {
        let mut bytes: Vec<u8> = Vec::new();
        put_text(&mut bytes, self.course_key.as_str());
        put_text(&mut bytes, self.name.as_str());
        let wide: i32 = if self.order < 0 {
            self.order as i32 + 0x1_0000
        } else {
            self.order as i32
        };
        let high: u8 = (wide / 256) as u8;
        let low: u8 = (wide % 256) as u8;
        bytes.push(high);
        bytes.push(low);
        proof {
            reveal_with_fuel(big_endian, 3);
            assert(order_bytes(self.order) =~= seq![high, low]);
            assert(bytes@ =~= self@.canonical_bytes());
        }
        bytes
    }

    /// The fingerprint of the evaluation as it is now.
    pub fn fingerprint(&self) -> (r: String)
        ensures
            r@ == self@.fingerprint(),
    {
        let bytes = self.hashable_data();
        digest_hex(bytes.as_slice())
    }
}

} // verus!

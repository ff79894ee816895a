//! Courses: a keyed record that owns a list of questions.

use crate::error::ContentError;
use crate::hashing::{
    digest_hex, fingerprint_of, fingerprints_bytes, optional_number_bytes, optional_text_bytes,
    optional_text_view, put_optional_number, put_optional_text, put_text, put_texts, text_bytes,
    text_views, texts_bytes, Hashable,
};
use crate::question_data::{
    have_source, have_topic, lemma_fingerprinted_question, sources_of, topics_of, trimmed_tags,
    QuestionData, QuestionView,
};
use crate::question_source_data::{QuestionSourceData, QuestionSourceView};
use crate::question_topic_data::{QuestionTopicData, QuestionTopicView};
use crate::siblings::{
    canonical_siblings, deduplicate, remove_blank, sort, sorted, views, without_blank,
    without_repeats,
};
use crate::ordering::same_text;
use crate::text::{full_image_path, image_path, trim_text, trimmed};
use crate::values::Amount;
use vstd::prelude::*;
use vstd::string::*;

verus! {

/// A course.
#[derive(Clone, Debug, PartialEq, Eq)]
pub struct CourseData {
    pub key: String,
    pub name: String,
    pub short_name: String,
    pub description: Option<String>,
    pub price_in_uyu: Amount,
    pub tags: Vec<String>,
    pub image_file_name: String,
    pub year: Option<u16>,
    pub order: Option<u16>,
    pub questions: Vec<QuestionData>,
    /// The names of the topics that questions of the course may have.
    pub valid_topics: Vec<String>,
    /// The fingerprint of the course, once it was processed.
    pub hash: String,
}

/// What a course holds, as mathematical values.
pub struct CourseView {
    pub key: Seq<char>,
    pub name: Seq<char>,
    pub short_name: Seq<char>,
    pub description: Option<Seq<char>>,
    pub price_in_uyu: Amount,
    pub tags: Seq<Seq<char>>,
    pub image_file_name: Seq<char>,
    pub year: Option<u16>,
    pub order: Option<u16>,
    pub questions: Seq<QuestionView>,
    pub valid_topics: Seq<Seq<char>>,
    pub hash: Seq<char>,
}

/// The questions, each in canonical form.
pub open spec fn canonicalized_questions(questions: Seq<QuestionView>) -> Seq<QuestionView> {
    questions.map_values(|question: QuestionView| question.canonicalized())
}

/// The questions, each with its fingerprint stored.
pub open spec fn fingerprinted_questions(questions: Seq<QuestionView>) -> Seq<QuestionView> {
    questions.map_values(|question: QuestionView| question.fingerprinted())
}

/// The fingerprints of the questions, in their order.
pub open spec fn question_fingerprints(questions: Seq<QuestionView>) -> Seq<Seq<char>> {
    questions.map_values(|question: QuestionView| question.fingerprint())
}

/// The canonical form of the questions of a course: each in canonical form,
/// then without blank ones, sorted, without repeats.
pub open spec fn canonical_questions(questions: Seq<QuestionView>) -> Seq<QuestionView> {
    canonical_siblings::<QuestionData>(canonicalized_questions(questions))
}

/// The complaint of the first question that its check rejects, if there is
/// one.
pub open spec fn first_question_error(questions: Seq<QuestionView>) -> Result<(), ContentError>
    decreases questions.len(),
{
    if questions.len() == 0 {
        Ok(())
    } else if first_question_error(questions.drop_last()) is Err {
        first_question_error(questions.drop_last())
    } else {
        questions.last().check()
    }
}

/// The place of the first question with that identifier, or the number of
/// questions where there is none.
pub open spec fn question_place(questions: Seq<QuestionView>, id: u128) -> int
    decreases questions.len(),
{
    if questions.len() == 0 {
        0
    } else if question_place(questions.drop_last(), id) < questions.len() - 1 {
        question_place(questions.drop_last(), id)
    } else if questions.last().id == id {
        questions.len() - 1
    } else {
        questions.len() as int
    }
}

/// The test for a question whose topic is neither the default one nor one of
/// the valid ones.
pub open spec fn topic_is_invalid(valid_topics: Seq<Seq<char>>) -> spec_fn(QuestionView) -> bool {
    |question: QuestionView| !question.topic.is_default() && !valid_topics.contains(question.topic.name)
}

impl CourseView {
    /// The course with its questions in canonical form, its names and its
    /// description trimmed, and each tag trimmed.
    pub open spec fn canonicalized(self) -> Self {
        CourseView {
            name: trimmed(self.name),
            short_name: trimmed(self.short_name),
            description: match self.description {
                Some(d) => Some(trimmed(d)),
                None => None,
            },
            tags: trimmed_tags(self.tags),
            questions: canonical_questions(self.questions),
            ..self
        }
    }

    /// Every amount, date and instant in the course is one of its type.
    pub open spec fn wf(self) -> bool {
        &&& self.price_in_uyu.wf()
        &&& forall|i: int| 0 <= i < self.questions.len() ==> (#[trigger] self.questions[i]).wf()
    }

    /// What the check of the course itself says: the price is an amount; the
    /// key, the name and the short name are not empty when trimmed; and the
    /// price is not below zero.
    pub open spec fn check_fields(self) -> Result<(), ContentError> {
        if !self.price_in_uyu.wf() {
            Err(ContentError::MalformedAmount)
        } else if trimmed(self.key).len() == 0 || trimmed(self.name).len() == 0 || trimmed(
            self.short_name,
        ).len() == 0 {
            Err(ContentError::InvalidCourse)
        } else if self.price_in_uyu.spec_is_negative() {
            Err(ContentError::InvalidCoursePrice)
        } else {
            Ok(())
        }
    }

    /// What the check of the course says: the first complaint of its
    /// questions, or else that of the course itself.
    pub open spec fn check(self) -> Result<(), ContentError> {
        if first_question_error(self.questions) is Err {
            first_question_error(self.questions)
        } else {
            self.check_fields()
        }
    }

    /// The encoding of the course. Each question enters by its fingerprint.
    pub open spec fn canonical_bytes(self) -> Seq<u8> {
        text_bytes("key"@) + text_bytes(self.key) + text_bytes("name"@) + text_bytes(self.name)
            + text_bytes("short_name"@) + text_bytes(self.short_name) + text_bytes(
            "description"@,
        ) + optional_text_bytes(self.description) + text_bytes("price_in_uyu"@) + text_bytes(
            self.price_in_uyu.text(),
        ) + text_bytes("tags"@) + texts_bytes(self.tags) + text_bytes("image_file_name"@)
            + text_bytes(self.image_file_name) + text_bytes("year"@) + optional_number_bytes(
            self.year,
        ) + text_bytes("order"@) + optional_number_bytes(self.order) + text_bytes("questions"@)
            + fingerprints_bytes(question_fingerprints(self.questions)) + text_bytes(
            "valid_topics"@,
        ) + texts_bytes(self.valid_topics)
    }

    /// The fingerprint of the course as it is.
    pub open spec fn fingerprint(self) -> Seq<char> {
        fingerprint_of(self.canonical_bytes())
    }

    /// Whether the stored fingerprints of the course and of everything in it
    /// are those of their content.
    pub open spec fn is_fingerprinted(self) -> bool {
        &&& self.hash == self.fingerprint()
        &&& forall|i: int|
            0 <= i < self.questions.len() ==> (#[trigger] self.questions[i]).is_fingerprinted()
    }

    /// The course with its fingerprint and those of its questions stored.
    pub open spec fn fingerprinted(self) -> Self {
        CourseView {
            questions: fingerprinted_questions(self.questions),
            hash: self.fingerprint(),
            ..self
        }
    }

    /// The course after processing: in canonical form and, if it passes the
    /// check, fingerprinted.
    pub open spec fn processed(self) -> Self {
        if self.canonicalized().check() is Ok {
            self.canonicalized().fingerprinted()
        } else {
            self.canonicalized()
        }
    }

    /// Whether the course has a question with that identifier.
    pub open spec fn has_question(self, id: u128) -> bool {
        question_place(self.questions, id) < self.questions.len()
    }

    /// The course with the first question of that identifier replaced.
    pub open spec fn with_question(self, question: QuestionView) -> Self {
        CourseView {
            questions: self.questions.update(
                question_place(self.questions, question.id),
                question,
            ),
            ..self
        }
    }

    /// Whether some question of the course has that topic.
    pub open spec fn has_topic(self, topic: QuestionTopicView) -> bool {
        have_topic(self.questions, topic)
    }

    /// Whether some question of the course has that source.
    pub open spec fn has_source(self, source: QuestionSourceView) -> bool {
        have_source(self.questions, source)
    }
}

impl View for CourseData {
    type V = CourseView;

    open spec fn view(&self) -> CourseView {
        CourseView {
            key: self.key@,
            name: self.name@,
            short_name: self.short_name@,
            description: optional_text_view(self.description),
            price_in_uyu: self.price_in_uyu,
            tags: text_views(self.tags@),
            image_file_name: self.image_file_name@,
            year: self.year,
            order: self.order,
            questions: views(self.questions@),
            valid_topics: text_views(self.valid_topics@),
            hash: self.hash@,
        }
    }
}

impl Hashable for CourseData {
    open spec fn well_formed(&self) -> bool {
        self@.wf()
    }

    open spec fn canonical_bytes(&self) -> Seq<u8> {
        self@.canonical_bytes()
    }

    fn to_bytes(&self) -> (r: Vec<u8>) {
        self.encode()
    }

    open spec fn stored_fingerprint(&self) -> Seq<char> {
        self.hash@
    }

    fn stored_hash(&self) -> (r: Option<&str>) {
        if self.hash.as_str().is_empty() {
            None
        } else {
            Some(self.hash.as_str())
        }
    }

    fn store_hash(&mut self, hash: String) -> (stored: bool) {
        self.hash = hash;
        assert(self@.questions == old(self)@.questions);
        true
    }

    fn refresh_hash(&mut self) -> (stored: bool) {
        proof {
            lemma_fingerprinted_course_bytes(self@);
            lemma_fingerprinted_course_wf(self@);
        }
        CourseData::refresh_hash(self);
        true
    }
}

/// Storing the fingerprints of questions changes neither their fingerprints
/// nor whether they are well formed.
pub proof fn lemma_fingerprinted_questions(questions: Seq<QuestionView>)
    ensures
        question_fingerprints(fingerprinted_questions(questions)) == question_fingerprints(
            questions,
        ),
        forall|i: int|
            0 <= i < questions.len() ==> (#[trigger] fingerprinted_questions(questions)[i]).wf()
                == questions[i].wf(),
{
    let printed = fingerprinted_questions(questions);
    assert forall|i: int| 0 <= i < questions.len() implies (#[trigger] printed[i]).fingerprint()
        == questions[i].fingerprint() && printed[i].wf() == questions[i].wf() by {
        lemma_fingerprinted_question(questions[i]);
    }
    assert(question_fingerprints(printed) =~= question_fingerprints(questions));
}

/// Storing the fingerprints of a course and its questions does not change
/// its encoding.
pub proof fn lemma_fingerprinted_course_bytes(course: CourseView)
    ensures
        course.fingerprinted().canonical_bytes() == course.canonical_bytes(),
{
    lemma_fingerprinted_questions(course.questions);
}

/// Storing the fingerprints of a course and its questions does not change
/// whether it is well formed.
pub proof fn lemma_fingerprinted_course_wf(course: CourseView)
    ensures
        course.fingerprinted().wf() == course.wf(),
{
    let given = course.questions;
    let printed = fingerprinted_questions(given);
    lemma_fingerprinted_questions(given);
    assert(course.fingerprinted().questions == printed);
    assert(printed.len() == given.len());
    if course.wf() {
        assert forall|i: int| 0 <= i < printed.len() implies (#[trigger] printed[i]).wf() by {
            assert(given[i].wf());
            assert(fingerprinted_questions(given)[i].wf() == given[i].wf());
        }
    } else if course.price_in_uyu.wf() {
        let k = choose|k: int| 0 <= k < given.len() && !(#[trigger] given[k]).wf();
        assert(fingerprinted_questions(given)[k].wf() == given[k].wf());
        assert(!printed[k].wf());
    }
}

/// Appends the fingerprint of each question.
fn put_question_fingerprints(bytes: &mut Vec<u8>, questions: &Vec<QuestionData>)
    requires
        forall|i: int| 0 <= i < questions@.len() ==> (#[trigger] questions@[i])@.wf(),
    ensures
        final(bytes)@ == old(bytes)@ + fingerprints_bytes(
            question_fingerprints(views(questions@)),
        ),
{
    let ghost prints = question_fingerprints(views(questions@));
    let mut i: usize = 0;
    assert(bytes@ + texts_bytes(prints.take(0)) == bytes@);
    while i < questions.len()
        invariant
            i <= questions.len(),
            forall|i: int| 0 <= i < questions@.len() ==> (#[trigger] questions@[i])@.wf(),
            prints == question_fingerprints(views(questions@)),
            bytes@ == old(bytes)@ + texts_bytes(prints.take(i as int)),
        decreases questions.len() - i,
    {
        let print = questions[i].fingerprint();
        put_text(bytes, print.as_str());
        proof {
            let next = prints.take(i + 1);
            assert(next.drop_last() == prints.take(i as int));
            assert(next.last() == questions@[i as int]@.fingerprint());
        }
        i += 1;
    }
    assert(prints.take(questions.len() as int) == prints);
}

/// Trims each tag.
pub fn trim_tags(tags: &Vec<String>) -> (r: Vec<String>)
    ensures
        text_views(r@) == trimmed_tags(text_views(tags@)),
{
    let mut result: Vec<String> = Vec::new();
    let mut i: usize = 0;
    while i < tags.len()
        invariant
            i <= tags.len(),
            result.len() == i,
            forall|k: int| 0 <= k < i ==> (#[trigger] result@[k])@ == trimmed(tags@[k]@),
        decreases tags.len() - i,
    {
        result.push(trim_text(tags[i].as_str()));
        i += 1;
    }
    assert(text_views(result@) =~= trimmed_tags(text_views(tags@)));
    result
}

/// Brings each question into canonical form.
fn canonicalize_questions(questions: &mut Vec<QuestionData>)
    ensures
        views(final(questions)@) == canonicalized_questions(views(old(questions)@)),
{
    let ghost start = questions@;
    let mut i: usize = 0;
    while i < questions.len()
        invariant
            i <= questions.len(),
            questions.len() == start.len(),
            forall|k: int| 0 <= k < i ==> (#[trigger] questions@[k])@ == start[k]@.canonicalized(),
            forall|k: int| i <= k < questions.len() ==> #[trigger] questions@[k] == start[k],
        decreases questions.len() - i,
    {
        questions[i].canonicalize();
        i += 1;
    }
    assert(views(questions@) =~= canonicalized_questions(views(start)));
}

/// Stores the fingerprint of each question.
#[verifier::spinoff_prover]
fn refresh_question_hashes(questions: &mut Vec<QuestionData>)
    requires
        forall|i: int| 0 <= i < old(questions)@.len() ==> (#[trigger] old(questions)@[i])@.wf(),
    ensures
        views(final(questions)@) == fingerprinted_questions(views(old(questions)@)),
{
    let ghost start = questions@;
    let mut i: usize = 0;
    while i < questions.len()
        invariant
            i <= questions.len(),
            questions.len() == start.len(),
            forall|k: int| 0 <= k < start.len() ==> (#[trigger] start[k])@.wf(),
            forall|k: int| 0 <= k < i ==> (#[trigger] questions@[k])@ == start[k]@.fingerprinted(),
            forall|k: int| i <= k < questions.len() ==> #[trigger] questions@[k] == start[k],
        decreases questions.len() - i,
    {
        assert(questions@[i as int] == start[i as int]);
        assert(start[i as int]@.wf());
        let question = &mut questions[i];
        question.refresh_hash();
        i += 1;
    }
    assert(views(questions@) =~= fingerprinted_questions(views(start)));
}

/// Checks each question and returns the first complaint.
fn check_questions(questions: &Vec<QuestionData>) -> (r: Result<(), ContentError>)
    ensures
        r == first_question_error(views(questions@)),
{
    let ghost all = views(questions@);
    let mut i: usize = 0;
    while i < questions.len()
        invariant
            i <= questions.len(),
            all == views(questions@),
            first_question_error(all.take(i as int)) is Ok,
        decreases questions.len() - i,
    {
        proof {
            let next = all.take(i + 1);
            assert(next.drop_last() == all.take(i as int));
            assert(next.last() == questions@[i as int]@);
        }
        match questions[i].check() {
            Ok(()) => {},
            Err(error) => {
                proof {
                    lemma_first_error_stays(all, i + 1);
                }
                return Err(error);
            },
        }
        i += 1;
    }
    assert(all.take(questions.len() as int) == all);
    Ok(())
}

/// A complaint found among the first questions is the complaint of all.
proof fn lemma_first_error_stays(questions: Seq<QuestionView>, n: int)
    requires
        0 <= n <= questions.len(),
        first_question_error(questions.take(n)) is Err,
    ensures
        first_question_error(questions) == first_question_error(questions.take(n)),
    decreases questions.len() - n,
{
    if n < questions.len() {
        let next = questions.take(n + 1);
        assert(next.drop_last() == questions.take(n));
        lemma_first_error_stays(questions, n + 1);
    } else {
        assert(questions.take(n) == questions);
    }
}

/// Where every question passes its check, every question is well formed.
pub proof fn lemma_checked_questions_wf(questions: Seq<QuestionView>)
    requires
        first_question_error(questions) is Ok,
    ensures
        forall|i: int| 0 <= i < questions.len() ==> (#[trigger] questions[i]).wf(),
    decreases questions.len(),
{
    if questions.len() > 0 {
        lemma_checked_questions_wf(questions.drop_last());
        assert forall|i: int| 0 <= i < questions.len() implies (#[trigger] questions[i]).wf() by {
            if i < questions.len() - 1 {
                assert(questions[i] == questions.drop_last()[i]);
            }
        }
    }
}

impl CourseData {
    /// Makes a course from its raw fields and processes it.
    pub fn new(
        key: String,
        name: String,
        short_name: String,
        description: Option<String>,
        price_in_uyu: Amount,
        tags: Vec<String>,
        image_file_name: String,
        year: Option<u16>,
        order: Option<u16>,
        questions: Vec<QuestionData>,
        topics: Vec<String>,
    ) -> (r: Result<Self, ContentError>)
        ensures
            ({
                let raw = CourseView {
                    key: key@,
                    name: name@,
                    short_name: short_name@,
                    description: optional_text_view(description),
                    price_in_uyu,
                    tags: text_views(tags@),
                    image_file_name: image_file_name@,
                    year,
                    order,
                    questions: views(questions@),
                    valid_topics: text_views(topics@),
                    hash: Seq::empty(),
                };
                match r {
                    Ok(course) => raw.canonicalized().check() is Ok && course@ == raw.processed(),
                    Err(error) => raw.canonicalized().check() == Err::<(), ContentError>(error),
                }
            }),
    {
        let mut data = CourseData {
            key,
            name,
            short_name,
            description,
            price_in_uyu,
            tags,
            image_file_name,
            year,
            order,
            questions,
            valid_topics: topics,
            hash: String::new(),
        };
        match data.process() {
            Ok(()) => Ok(data),
            Err(error) => Err(error),
        }
    }

    /// Brings the course and its questions into canonical form, checks them
    /// and, if they pass, stores their fingerprints.
    pub fn process(&mut self) -> (r: Result<(), ContentError>)
        ensures
            final(self)@ == old(self)@.processed(),
            r == old(self)@.canonicalized().check(),
    {
        self.canonicalize();
        match self.check() {
            Ok(()) => {
                proof {
                    lemma_checked_questions_wf(self@.questions);
                }
                self.refresh_hash();
                Ok(())
            },
            Err(error) => Err(error),
        }
    }

    /// Brings the course into canonical form: each question is brought into
    /// canonical form, blank questions are dropped, the fields are trimmed,
    /// and the questions are sorted and deduplicated.
    pub fn canonicalize(&mut self)
        ensures
            final(self)@ == old(self)@.canonicalized(),
    {
        canonicalize_questions(&mut self.questions);
        self.remove_blank_questions();
        self.format();
        self.sort();
        self.deduplicate();
    }

    /// Whether the course has a question with that identifier.
    pub fn has_question(&self, id: u128) -> (r: bool)
        ensures
            r == self@.has_question(id),
    {
        self.find_question(id) < self.questions.len()
    }

    /// The place of the first question with that identifier, or the number of
    /// questions where there is none.
    pub fn find_question(&self, id: u128) -> (r: usize)
        ensures
            r == question_place(self@.questions, id),
            r <= self.questions.len(),
    {
        let ghost all = self@.questions;
        let mut i: usize = 0;
        while i < self.questions.len()
            invariant
                i <= self.questions.len(),
                all == self@.questions,
                question_place(all.take(i as int), id) == i,
            decreases self.questions.len() - i,
        {
            proof {
                let next = all.take(i + 1);
                assert(next.drop_last() == all.take(i as int));
                assert(next.last() == self.questions@[i as int]@);
            }
            if self.questions[i].id == id {
                proof {
                    lemma_place_stays(all, id, i + 1);
                }
                return i;
            }
            i += 1;
        }
        assert(all.take(i as int) == all);
        i
    }

    /// Puts `new_question` in the place of the question with its identifier
    /// and processes the course anew.
    pub fn replace_question(&mut self, new_question: QuestionData) -> (r: Result<
        (),
        ContentError,
    >)
        requires
            old(self)@.has_question(new_question.id),
        ensures
            final(self)@ == old(self)@.with_question(new_question@).processed(),
            r == old(self)@.with_question(new_question@).canonicalized().check(),
    {
        let place = self.find_question(new_question.id);
        let ghost before = self.questions@;
        self.questions[place] = new_question;
        assert(views(self.questions@) =~= views(before).update(place as int, new_question@));
        self.process()
    }

    /// Sorts the questions: by the kind of their source, its date, their text
    /// and their identifier.
    pub fn sort(&mut self)
        ensures
            final(self)@ == (CourseView {
                questions: sorted::<QuestionData>(old(self)@.questions),
                ..old(self)@
            }),
    {
        sort(&mut self.questions);
    }

    /// Drops the blank questions.
    pub fn remove_blank_questions(&mut self)
        ensures
            final(self)@ == (CourseView {
                questions: without_blank::<QuestionData>(old(self)@.questions),
                ..old(self)@
            }),
    {
        remove_blank(&mut self.questions);
    }

    /// Drops each question that says the same as the question kept before it.
    pub fn deduplicate(&mut self)
        ensures
            final(self)@ == (CourseView {
                questions: without_repeats::<QuestionData>(old(self)@.questions),
                ..old(self)@
            }),
    {
        deduplicate(&mut self.questions);
    }

    /// Checks the questions and then the course itself.
    pub fn check(&self) -> (r: Result<(), ContentError>)
        ensures
            r == self@.check(),
    {
        match check_questions(&self.questions) {
            Ok(()) => {},
            Err(error) => {
                return Err(error);
            },
        }
        if !self.price_in_uyu.is_valid() {
            return Err(ContentError::MalformedAmount);
        }
        if trim_text(self.key.as_str()).as_str().is_empty() || trim_text(
            self.name.as_str(),
        ).as_str().is_empty() || trim_text(self.short_name.as_str()).as_str().is_empty() {
            return Err(ContentError::InvalidCourse);
        }
        if self.price_in_uyu.is_negative() {
            return Err(ContentError::InvalidCoursePrice);
        }
        Ok(())
    }

    /// Trims the names, the description and each tag.
    pub fn format(&mut self)
        ensures
            final(self)@ == (CourseView {
                name: trimmed(old(self)@.name),
                short_name: trimmed(old(self)@.short_name),
                description: match old(self)@.description {
                    Some(d) => Some(trimmed(d)),
                    None => None,
                },
                tags: trimmed_tags(old(self)@.tags),
                ..old(self)@
            }),
    {
        self.name = trim_text(self.name.as_str());
        self.short_name = trim_text(self.short_name.as_str());
        let description = match &self.description {
            Some(description) => Some(trim_text(description.as_str())),
            None => None,
        };
        self.description = description;
        self.tags = trim_tags(&self.tags);
    }

    /// The encoding of the course.
    pub fn encode(&self) -> (r: Vec<u8>)
        requires
            self@.wf(),
        ensures
            r@ == self@.canonical_bytes(),
    {
        let price = self.price_in_uyu.to_text();
        let mut bytes: Vec<u8> = Vec::new();
        put_text(&mut bytes, "key");
        put_text(&mut bytes, self.key.as_str());
        put_text(&mut bytes, "name");
        put_text(&mut bytes, self.name.as_str());
        put_text(&mut bytes, "short_name");
        put_text(&mut bytes, self.short_name.as_str());
        put_text(&mut bytes, "description");
        put_optional_text(&mut bytes, &self.description);
        put_text(&mut bytes, "price_in_uyu");
        put_text(&mut bytes, price.as_str());
        put_text(&mut bytes, "tags");
        put_texts(&mut bytes, &self.tags);
        put_text(&mut bytes, "image_file_name");
        put_text(&mut bytes, self.image_file_name.as_str());
        put_text(&mut bytes, "year");
        put_optional_number(&mut bytes, self.year);
        put_text(&mut bytes, "order");
        put_optional_number(&mut bytes, self.order);
        put_text(&mut bytes, "questions");
        assert forall|i: int| 0 <= i < self.questions@.len() implies (
        #[trigger] self.questions@[i])@.wf() by {
            assert(self@.questions[i].wf());
        }
        put_question_fingerprints(&mut bytes, &self.questions);
        put_text(&mut bytes, "valid_topics");
        put_texts(&mut bytes, &self.valid_topics);
        assert(bytes@ =~= self@.canonical_bytes());
        bytes
    }

    /// The fingerprint of the course as it is now.
    pub fn fingerprint(&self) -> (r: String)
        requires
            self@.wf(),
        ensures
            r@ == self@.fingerprint(),
    {
        let bytes = self.encode();
        digest_hex(bytes.as_slice())
    }

    /// Stores the fingerprint of the course as it is now, and those of its
    /// questions.
    pub fn refresh_hash(&mut self)
        requires
            old(self)@.wf(),
        ensures
            final(self)@ == old(self)@.fingerprinted(),
    {
        let print = self.fingerprint();
        assert forall|i: int| 0 <= i < self.questions@.len() implies (
        #[trigger] self.questions@[i])@.wf() by {
            assert(self@.questions[i].wf());
        }
        refresh_question_hashes(&mut self.questions);
        self.hash = print;
    }

    /// The path of the image of the course.
    pub fn full_image_path(&self) -> (r: String)
        ensures
            r@ == image_path(self@.key, self@.image_file_name),
    {
        full_image_path(self.key.as_str(), self.image_file_name.as_str())
    }

    /// The topics of the questions, each once.
    pub fn question_topics(&self) -> (r: Vec<QuestionTopicData>)
        ensures
            views(r@).no_duplicates(),
            forall|topic: QuestionTopicView|
                views(r@).contains(topic) <==> #[trigger] self@.has_topic(topic),
    {
        topics_of(&self.questions)
    }

    /// The sources of the questions, each once.
    pub fn question_sources(&self) -> (r: Vec<QuestionSourceData>)
        ensures
            views(r@).no_duplicates(),
            forall|source: QuestionSourceView|
                views(r@).contains(source) <==> #[trigger] self@.has_source(source),
    {
        sources_of(&self.questions)
    }

    /// The questions whose topic is neither the default one nor one of the
    /// valid topics of the course, in their order.
    pub fn questions_with_invalid_topics(&self) -> (r: Vec<&QuestionData>)
        ensures
            r@.map_values(|question: &QuestionData| question@) == self@.questions.filter(
                topic_is_invalid(self@.valid_topics),
            ),
    {
        let ghost all = self@.questions;
        let ghost test = topic_is_invalid(self@.valid_topics);
        let mut found: Vec<&QuestionData> = Vec::new();
        let mut i: usize = 0;
        proof {
            reveal(Seq::filter);
            assert(found@.map_values(|question: &QuestionData| question@) =~= all.take(0).filter(
                test,
            ));
        }
        while i < self.questions.len()
            invariant
                i <= self.questions.len(),
                all == self@.questions,
                test == topic_is_invalid(self@.valid_topics),
                found@.map_values(|question: &QuestionData| question@) == all.take(
                    i as int,
                ).filter(test),
            decreases self.questions.len() - i,
        {
            let question = &self.questions[i];
            proof {
                reveal(Seq::filter);
                let next = all.take(i + 1);
                assert(next.drop_last() == all.take(i as int));
                assert(next.last() == question@);
            }
            if !question.topic.is_default() && !self.is_valid_topic(question.topic.name.as_str()) {
                let ghost before = found@.map_values(|question: &QuestionData| question@);
                found.push(question);
                assert(found@.map_values(|question: &QuestionData| question@) =~= before.push(
                    question@,
                ));
            }
            i += 1;
        }
        assert(all.take(i as int) == all);
        found
    }

    /// Whether `name` is the name of one of the valid topics of the course.
    pub fn is_valid_topic(&self, name: &str) -> (r: bool)
        ensures
            r == self@.valid_topics.contains(name@),
    {
        let ghost names = self@.valid_topics;
        let mut i: usize = 0;
        while i < self.valid_topics.len()
            invariant
                i <= self.valid_topics.len(),
                names == self@.valid_topics,
                forall|k: int| 0 <= k < i ==> #[trigger] names[k] != name@,
            decreases self.valid_topics.len() - i,
        {
            if same_text(self.valid_topics[i].as_str(), name) {
                assert(names[i as int] == name@);
                return true;
            }
            i += 1;
        }
        false
    }
}

/// The place of a question that was found stays its place when more
/// questions follow.
proof fn lemma_place_stays(questions: Seq<QuestionView>, id: u128, n: int)
    requires
        0 <= n <= questions.len(),
        question_place(questions.take(n), id) < n,
    ensures
        question_place(questions, id) == question_place(questions.take(n), id),
    decreases questions.len() - n,
{
    if n < questions.len() {
        let next = questions.take(n + 1);
        assert(next.drop_last() == questions.take(n));
        lemma_place_stays(questions, id, n + 1);
    } else {
        assert(questions.take(n) == questions);
    }
}

} // verus!

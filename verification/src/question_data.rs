//! Questions: a text, its source and topic, and two to five answer options.

use crate::error::ContentError;
use crate::explanation_data::{ExplanationData, ExplanationView};
use crate::hashing::{
    digest_hex, duplicate_optional_text, duplicate_texts, fingerprint_of, fingerprints_bytes, id_bytes, optional_text_bytes, optional_text_view,
    put_id, put_optional_text, put_text, put_texts, text_bytes, text_views, texts_bytes,
    Hashable,
};
use crate::ordering::{compare_texts, lemma_text_order, text_not_after};
use crate::question_option_data::{
    duplicate_options, process_options, processed_options, QuestionOptionData,
    QuestionOptionView,
};
use crate::question_source_data::{QuestionSourceData, QuestionSourceView};
use crate::question_topic_data::{QuestionTopicData, QuestionTopicView};
use crate::siblings::{canonical_siblings, deduplicate, remove_blank, sort, views, Sibling};
use crate::text::{
    format_text, formatted, full_image_path, image_path, push_char, trim_text, trimmed,
};
use crate::values::{CalendarDate, Timestamp};
use vstd::prelude::*;
use vstd::string::*;

verus! {

/// Fewest options of a question that is not blank.
pub const MIN_QUESTION_OPTIONS: usize = 2;

/// Most options of a question.
pub const MAX_QUESTION_OPTIONS: usize = 5;

/// A question of a course.
#[derive(Clone, Debug, PartialEq, Eq)]
pub struct QuestionData {
    pub id: u128,
    /// The course that the question belongs to.
    pub course_key: String,
    pub source: QuestionSourceData,
    pub text: String,
    pub explanation: Option<ExplanationData>,
    pub topic: QuestionTopicData,
    /// Who assigned the topic.
    pub topic_by: Option<String>,
    pub tags: Vec<String>,
    pub image_file_name: Option<String>,
    pub question_options: Vec<QuestionOptionData>,
    /// The fingerprint of the question, once it was processed.
    pub hash: String,
}

/// What a question holds, as mathematical values.
pub struct QuestionView {
    pub id: u128,
    pub course_key: Seq<char>,
    pub source: QuestionSourceView,
    pub text: Seq<char>,
    pub explanation: Option<ExplanationView>,
    pub topic: QuestionTopicView,
    pub topic_by: Option<Seq<char>>,
    pub tags: Seq<Seq<char>>,
    pub image_file_name: Option<Seq<char>>,
    pub question_options: Seq<QuestionOptionView>,
    pub hash: Seq<char>,
}

/// The view of an optional explanation.
pub open spec fn optional_explanation_view(
    explanation: Option<ExplanationData>,
) -> Option<ExplanationView> {
    match explanation {
        Some(e) => Some(e@),
        None => None,
    }
}

/// The test for a tag that is kept: one that is not empty.
pub open spec fn tag_presence() -> spec_fn(Seq<char>) -> bool {
    |tag: Seq<char>| tag.len() > 0
}

/// The tags, each trimmed.
pub open spec fn trimmed_tags(tags: Seq<Seq<char>>) -> Seq<Seq<char>> {
    tags.map_values(|tag: Seq<char>| trimmed(tag))
}

/// The tags, each trimmed, without those that are empty then.
pub open spec fn clean_tags(tags: Seq<Seq<char>>) -> Seq<Seq<char>> {
    trimmed_tags(tags).filter(tag_presence())
}

/// The test for a correct option.
pub open spec fn correctness() -> spec_fn(QuestionOptionView) -> bool {
    |option: QuestionOptionView| option.correct
}

/// The number of correct options.
pub open spec fn correct_count(options: Seq<QuestionOptionView>) -> nat {
    options.filter(correctness()).len()
}

/// Whether two of the options have the same text.
pub open spec fn has_duplicate_text(options: Seq<QuestionOptionView>) -> bool {
    exists|i: int, j: int|
        0 <= i < j < options.len() && (#[trigger] options[i]).text == (#[trigger] options[j]).text
}

/// The canonical form of the options of a question: each processed, then
/// without blank ones, sorted, without repeats.
pub open spec fn canonical_options(options: Seq<QuestionOptionView>) -> Seq<QuestionOptionView> {
    canonical_siblings::<QuestionOptionData>(processed_options(options))
}

/// The letter under which an option is shown: `a` for the reference 0, `b`
/// for 1, and so on through the characters of one byte.
pub open spec fn option_letter(reference: u16) -> char {
    (((97 + reference) % 256) as u8) as char
}

/// The lines of the options as they are shown: for each option a line break,
/// its letter, a period, a space and its text.
pub open spec fn option_lines(options: Seq<QuestionOptionView>) -> Seq<char>
    decreases options.len(),
{
    if options.len() == 0 {
        Seq::empty()
    } else {
        option_lines(options.drop_last()) + "\n"@ + seq![option_letter(options.last().reference)]
            + ". "@ + options.last().text
    }
}

/// The fingerprints of the options, in their order.
pub open spec fn option_fingerprints(options: Seq<QuestionOptionView>) -> Seq<Seq<char>> {
    options.map_values(|option: QuestionOptionView| option.fingerprint())
}

/// Whether the first date is the second or comes before it. An absent date
/// comes before every date.
pub open spec fn date_not_after(a: Option<CalendarDate>, b: Option<CalendarDate>) -> bool {
    match (a, b) {
        (None, _) => true,
        (Some(_), None) => false,
        (Some(x), Some(y)) => x.spec_not_after(&y),
    }
}

impl QuestionView {
    /// A question without text and without options is blank: it marks a
    /// question that is to be removed.
    pub open spec fn is_blank(self) -> bool {
        self.text.len() == 0 && self.question_options.len() == 0
    }

    /// Two questions say the same when they agree in text and source and each
    /// option of the first says the same as some option of the second, of
    /// which there are as many.
    pub open spec fn eq_data(self, other: Self) -> bool {
        &&& self.text == other.text
        &&& self.source == other.source
        &&& self.question_options.len() == other.question_options.len()
        &&& forall|i: int|
            0 <= i < self.question_options.len() ==> other.has_option_like(
                #[trigger] self.question_options[i],
            )
    }

    /// Whether one of the options says the same as `option`.
    pub open spec fn has_option_like(self, option: QuestionOptionView) -> bool {
        exists|j: int|
            0 <= j < self.question_options.len() && option.eq_data(
                #[trigger] self.question_options[j],
            )
    }

    /// The question as it is shown: its text, a line break, and the lines of
    /// its options.
    pub open spec fn text_shown(self) -> Seq<char> {
        self.text + "\n"@ + option_lines(self.question_options)
    }

    /// The key of the topic of the question.
    pub open spec fn topic_key(self) -> Seq<char> {
        self.topic.key()
    }

    /// The key of the source of the question.
    pub open spec fn source_key(self) -> Seq<char> {
        self.source.key()
    }

    /// The canonical form of the question: source and explanation formatted,
    /// text formatted, tags cleaned, options in canonical form.
    pub open spec fn canonicalized(self) -> Self {
        QuestionView {
            source: self.source.formatted(),
            text: formatted(self.text),
            explanation: match self.explanation {
                Some(e) => Some(e.formatted()),
                None => None,
            },
            tags: clean_tags(self.tags),
            question_options: canonical_options(self.question_options),
            ..self
        }
    }

    /// Every date and instant in the question is one of its type.
    pub open spec fn wf(self) -> bool {
        &&& self.source.wf()
        &&& self.explanation matches Some(e) ==> e.wf()
    }

    /// What the check of the options says: a question that is not blank has
    /// two to five options, no two with one text, and one correct option.
    pub open spec fn check_options(self) -> Result<(), ContentError> {
        let count = self.question_options.len();
        if !self.is_blank() && (count < MIN_QUESTION_OPTIONS || count > MAX_QUESTION_OPTIONS) {
            Err(ContentError::QuestionOptionCount { question_id: self.id, count: count as usize })
        } else if has_duplicate_text(self.question_options) {
            Err(ContentError::DuplicateQuestionOption { question_id: self.id })
        } else if !self.is_blank() && correct_count(self.question_options) != 1 {
            Err(
                ContentError::CorrectOptionCount {
                    question_id: self.id,
                    count: correct_count(self.question_options) as usize,
                },
            )
        } else {
            Ok(())
        }
    }

    /// What the check of the question says: the first complaint of its source,
    /// its explanation and its options.
    pub open spec fn check(self) -> Result<(), ContentError> {
        if self.source.check() is Err {
            self.source.check()
        } else if self.explanation matches Some(e) && e.check() is Err {
            self.explanation->0.check()
        } else {
            self.check_options()
        }
    }

    /// The encoding of the question. Each option enters by its fingerprint.
    pub open spec fn canonical_bytes(self) -> Seq<u8> {
        text_bytes("id"@) + id_bytes(self.id) + text_bytes("course_key"@) + text_bytes(
            self.course_key,
        ) + text_bytes("source"@) + self.source.canonical_bytes() + text_bytes("text"@)
            + text_bytes(self.text) + text_bytes("explanation"@) + (match self.explanation {
            Some(e) => e.canonical_bytes(),
            None => Seq::empty(),
        }) + text_bytes("topic"@) + self.topic.canonical_bytes() + text_bytes("topic_by"@)
            + optional_text_bytes(self.topic_by) + text_bytes("tags"@) + texts_bytes(self.tags)
            + text_bytes("image_file_name"@) + optional_text_bytes(self.image_file_name)
            + text_bytes("question_options"@) + fingerprints_bytes(
            option_fingerprints(self.question_options),
        )
    }

    /// The fingerprint of the question as it is.
    pub open spec fn fingerprint(self) -> Seq<char> {
        fingerprint_of(self.canonical_bytes())
    }

    /// Whether the stored fingerprints of the question, of its explanation and
    /// of its options are those of their content.
    pub open spec fn is_fingerprinted(self) -> bool {
        &&& self.hash == self.fingerprint()
        &&& self.explanation matches Some(e) ==> e.is_fingerprinted()
        &&& forall|i: int|
            0 <= i < self.question_options.len() ==> (
            #[trigger] self.question_options[i]).is_fingerprinted()
    }

    /// The question with its fingerprint and that of its explanation stored.
    pub open spec fn fingerprinted(self) -> Self {
        QuestionView {
            explanation: match self.explanation {
                Some(e) => Some(e.fingerprinted()),
                None => None,
            },
            hash: self.fingerprint(),
            ..self
        }
    }

    /// The question after processing: in canonical form and, if it passes the
    /// check, fingerprinted.
    pub open spec fn processed(self) -> Self {
        if self.canonicalized().check() is Ok {
            self.canonicalized().fingerprinted()
        } else {
            self.canonicalized()
        }
    }

    /// The question with a new explanation, processed, and what its check
    /// says. Where the explanation itself is rejected, the question stays as
    /// it is.
    pub open spec fn with_explanation(self, text: Seq<char>, by: Seq<char>, date: Timestamp) -> (
        Self,
        Result<(), ContentError>,
    ) {
        let raw = ExplanationView { text, by, date, hash: Seq::empty() };
        let changed = QuestionView { explanation: Some(raw.processed()), ..self };
        if raw.formatted().check() is Ok {
            (changed.processed(), changed.canonicalized().check())
        } else {
            (self, raw.formatted().check())
        }
    }

    /// The question as a test prepares it: each option belongs to the
    /// question, and the first one is correct.
    pub open spec fn prepared(self) -> Self {
        QuestionView {
            question_options: Seq::new(
                self.question_options.len(),
                |i: int|
                    QuestionOptionView {
                        question_id: self.id,
                        correct: i == 0 || self.question_options[i].correct,
                        ..self.question_options[i]
                    },
            ),
            ..self
        }
    }
}

impl View for QuestionData {
    type V = QuestionView;

    open spec fn view(&self) -> QuestionView {
        QuestionView {
            id: self.id,
            course_key: self.course_key@,
            source: self.source@,
            text: self.text@,
            explanation: optional_explanation_view(self.explanation),
            topic: self.topic@,
            topic_by: optional_text_view(self.topic_by),
            tags: text_views(self.tags@),
            image_file_name: optional_text_view(self.image_file_name),
            question_options: views(self.question_options@),
            hash: self.hash@,
        }
    }
}

impl Hashable for QuestionData {
    open spec fn well_formed(&self) -> bool {
        self@.wf()
    }

    open spec fn canonical_bytes(&self) -> Seq<u8> {
        self@.canonical_bytes()
    }

    fn to_bytes(&self) -> (r: Vec<u8>) {
        self.encode()
    }

    open spec fn stored_fingerprint(&self) -> Seq<char> {
        self.hash@
    }

    fn stored_hash(&self) -> (r: Option<&str>) {
        if self.hash.as_str().is_empty() {
            None
        } else {
            Some(self.hash.as_str())
        }
    }

    fn store_hash(&mut self, hash: String) -> (stored: bool) {
        self.hash = hash;
        true
    }

    fn refresh_hash(&mut self) -> (stored: bool) {
        proof {
            lemma_fingerprinted_question(self@);
        }
        QuestionData::refresh_hash(self);
        true
    }
}

/// Appends the fingerprint of each option.
fn put_option_fingerprints(bytes: &mut Vec<u8>, options: &Vec<QuestionOptionData>)
    ensures
        final(bytes)@ == old(bytes)@ + fingerprints_bytes(option_fingerprints(views(options@))),
{
    let ghost prints = option_fingerprints(views(options@));
    let mut i: usize = 0;
    assert(bytes@ + texts_bytes(prints.take(0)) == bytes@);
    while i < options.len()
        invariant
            i <= options.len(),
            prints == option_fingerprints(views(options@)),
            bytes@ == old(bytes)@ + texts_bytes(prints.take(i as int)),
        decreases options.len() - i,
    {
        let print = options[i].fingerprint();
        put_text(bytes, print.as_str());
        proof {
            let next = prints.take(i + 1);
            assert(next.drop_last() == prints.take(i as int));
            assert(next.last() == options@[i as int]@.fingerprint());
        }
        i += 1;
    }
    assert(prints.take(options.len() as int) == prints);
}

/// Makes each option belong to the question `id`, and the first one correct.
fn prepare_options(options: &mut Vec<QuestionOptionData>, id: u128)
    ensures
        final(options)@.len() == old(options)@.len(),
        forall|k: int|
            0 <= k < old(options)@.len() ==> (#[trigger] final(options)@[k])@
                == (QuestionOptionView {
                question_id: id,
                correct: k == 0 || old(options)@[k].correct,
                ..old(options)@[k]@
            }),
{
    let ghost start = options@;
    let mut i: usize = 0;
    while i < options.len()
        invariant
            i <= options.len(),
            options.len() == start.len(),
            forall|k: int|
                0 <= k < i ==> (#[trigger] options@[k])@ == (QuestionOptionView {
                    question_id: id,
                    correct: k == 0 || start[k].correct,
                    ..start[k]@
                }),
            forall|k: int| i <= k < options.len() ==> #[trigger] options@[k] == start[k],
        decreases options.len() - i,
    {
        let option = &mut options[i];
        option.question_id = id;
        if i == 0 {
            option.correct = true;
        }
        i += 1;
    }
}

/// Storing the fingerprints of a question and its explanation changes
/// neither its encoding nor whether it is well formed.
pub proof fn lemma_fingerprinted_question(question: QuestionView)
    ensures
        question.fingerprinted().canonical_bytes() == question.canonical_bytes(),
        question.fingerprinted().fingerprint() == question.fingerprint(),
        question.fingerprinted().wf() == question.wf(),
{
}

/// Whether some of the questions has that topic.
pub open spec fn have_topic(questions: Seq<QuestionView>, topic: QuestionTopicView) -> bool {
    exists|i: int| 0 <= i < questions.len() && (#[trigger] questions[i]).topic == topic
}

/// Whether some of the questions has that source.
pub open spec fn have_source(questions: Seq<QuestionView>, source: QuestionSourceView) -> bool {
    exists|i: int| 0 <= i < questions.len() && (#[trigger] questions[i]).source == source
}

/// The topics of the questions, each once.
pub fn topics_of(questions: &Vec<QuestionData>) -> (r: Vec<QuestionTopicData>)
    ensures
        views(r@).no_duplicates(),
        forall|topic: QuestionTopicView|
            views(r@).contains(topic) <==> #[trigger] have_topic(views(questions@), topic),
{
    let ghost all = views(questions@);
    let mut topics: Vec<QuestionTopicData> = Vec::new();
    let mut i: usize = 0;
    while i < questions.len()
        invariant
            i <= questions.len(),
            all == views(questions@),
            views(topics@).no_duplicates(),
            forall|topic: QuestionTopicView|
                views(topics@).contains(topic) <==> exists|k: int|
                    0 <= k < i && (#[trigger] all[k]).topic == topic,
        decreases questions.len() - i,
    {
        let topic = &questions[i].topic;
        assert(all[i as int].topic == topic@);
        let mut known = false;
        let mut j: usize = 0;
        while j < topics.len()
            invariant
                j <= topics.len(),
                known <==> exists|k: int| 0 <= k < j && (#[trigger] views(topics@)[k]) == topic@,
            decreases topics.len() - j,
        {
            if topics[j].same_as(topic) {
                assert(views(topics@)[j as int] == topic@);
                known = true;
            }
            j += 1;
        }
        let ghost before = views(topics@);
        if !known {
            topics.push(topic.duplicate());
            assert(views(topics@) =~= before.push(topic@));
        }
        proof {
            let after = views(topics@);
            assert(after.contains(topic@)) by {
                if known {
                    let k = choose|k: int| 0 <= k < before.len() && before[k] == topic@;
                    assert(after[k] == topic@);
                } else {
                    assert(after[after.len() - 1] == topic@);
                }
            }
            assert forall|t: QuestionTopicView| after.contains(t) <==> exists|k: int|
                0 <= k < i + 1 && (#[trigger] all[k]).topic == t by {
                if after.contains(t) {
                    if t != topic@ {
                        let k = choose|k: int| 0 <= k < after.len() && after[k] == t;
                        assert(before[k] == t);
                        assert(before.contains(t));
                    }
                }
                if exists|k: int| 0 <= k < i + 1 && (#[trigger] all[k]).topic == t {
                    let k = choose|k: int| 0 <= k < i + 1 && (#[trigger] all[k]).topic == t;
                    if k < i {
                        assert(before.contains(t));
                        let m = choose|m: int| 0 <= m < before.len() && before[m] == t;
                        assert(after[m] == t);
                    }
                }
            }
        }
        i += 1;
    }
    topics
}

/// The sources of the questions, each once.
pub fn sources_of(questions: &Vec<QuestionData>) -> (r: Vec<QuestionSourceData>)
    ensures
        views(r@).no_duplicates(),
        forall|source: QuestionSourceView|
            views(r@).contains(source) <==> #[trigger] have_source(views(questions@), source),
{
    let ghost all = views(questions@);
    let mut sources: Vec<QuestionSourceData> = Vec::new();
    let mut i: usize = 0;
    while i < questions.len()
        invariant
            i <= questions.len(),
            all == views(questions@),
            views(sources@).no_duplicates(),
            forall|source: QuestionSourceView|
                views(sources@).contains(source) <==> exists|k: int|
                    0 <= k < i && (#[trigger] all[k]).source == source,
        decreases questions.len() - i,
    {
        let source = &questions[i].source;
        assert(all[i as int].source == source@);
        let mut known = false;
        let mut j: usize = 0;
        while j < sources.len()
            invariant
                j <= sources.len(),
                known <==> exists|k: int| 0 <= k < j && (#[trigger] views(sources@)[k]) == source@,
            decreases sources.len() - j,
        {
            if sources[j].same_as(source) {
                assert(views(sources@)[j as int] == source@);
                known = true;
            }
            j += 1;
        }
        let ghost before = views(sources@);
        if !known {
            sources.push(source.duplicate());
            assert(views(sources@) =~= before.push(source@));
        }
        proof {
            let after = views(sources@);
            assert(after.contains(source@)) by {
                if known {
                    let k = choose|k: int| 0 <= k < before.len() && before[k] == source@;
                    assert(after[k] == source@);
                } else {
                    assert(after[after.len() - 1] == source@);
                }
            }
            assert forall|t: QuestionSourceView| after.contains(t) <==> exists|k: int|
                0 <= k < i + 1 && (#[trigger] all[k]).source == t by {
                if after.contains(t) {
                    if t != source@ {
                        let k = choose|k: int| 0 <= k < after.len() && after[k] == t;
                        assert(before[k] == t);
                        assert(before.contains(t));
                    }
                }
                if exists|k: int| 0 <= k < i + 1 && (#[trigger] all[k]).source == t {
                    let k = choose|k: int| 0 <= k < i + 1 && (#[trigger] all[k]).source == t;
                    if k < i {
                        assert(before.contains(t));
                        let m = choose|m: int| 0 <= m < before.len() && before[m] == t;
                        assert(after[m] == t);
                    }
                }
            }
        }
        i += 1;
    }
    sources
}

/// A copy of a list of questions.
pub fn duplicate_questions(questions: &Vec<QuestionData>) -> (r: Vec<QuestionData>)
    ensures
        views(r@) == views(questions@),
{
    let mut copy: Vec<QuestionData> = Vec::new();
    let mut i: usize = 0;
    while i < questions.len()
        invariant
            i <= questions.len(),
            copy.len() == i,
            forall|k: int| 0 <= k < i ==> (#[trigger] copy@[k])@ == questions@[k]@,
        decreases questions.len() - i,
    {
        copy.push(questions[i].duplicate());
        i += 1;
    }
    assert(views(copy@) =~= views(questions@));
    copy
}

/// Trims each tag and keeps those that are not empty then.
pub fn clean_up_tags(tags: &Vec<String>) -> (r: Vec<String>)
    ensures
        text_views(r@) == clean_tags(text_views(tags@)),
{
    let ghost all = trimmed_tags(text_views(tags@));
    let mut kept: Vec<String> = Vec::new();
    let mut i: usize = 0;
    proof {
        reveal(Seq::filter);
        assert(text_views(kept@) =~= all.take(0).filter(tag_presence()));
    }
    while i < tags.len()
        invariant
            i <= tags.len(),
            all == trimmed_tags(text_views(tags@)),
            text_views(kept@) == all.take(i as int).filter(tag_presence()),
        decreases tags.len() - i,
    {
        let tag = trim_text(tags[i].as_str());
        proof {
            reveal(Seq::filter);
            let next = all.take(i + 1);
            assert(next.drop_last() == all.take(i as int));
            assert(next.last() == trimmed(tags@[i as int]@));
        }
        if !tag.as_str().is_empty() {
            let ghost before = kept@;
            kept.push(tag);
            assert(text_views(kept@) =~= text_views(before).push(tag@));
        }
        i += 1;
    }
    assert(all.take(tags.len() as int) == all);
    kept
}

impl Sibling for QuestionData {
    open spec fn spec_blank(v: QuestionView) -> bool {
        v.is_blank()
    }

    open spec fn spec_same(a: QuestionView, b: QuestionView) -> bool {
        a.eq_data(b)
    }

    /// Questions stand in the order of the kinds of their sources, then of
    /// the dates of the sources, then of their texts, then of their
    /// identifiers.
    open spec fn spec_not_after(a: QuestionView, b: QuestionView) -> bool {
        if a.source.kind != b.source.kind {
            a.source.kind.spec_rank() < b.source.kind.spec_rank()
        } else if a.source.date != b.source.date {
            date_not_after(a.source.date, b.source.date)
        } else if a.text != b.text {
            text_not_after(a.text, b.text)
        } else {
            a.id <= b.id
        }
    }

    proof fn lemma_ranking() {
        assert forall|a: QuestionView, b: QuestionView|
            #[trigger] Self::spec_not_after(a, b) || #[trigger] Self::spec_not_after(b, a) by {
            lemma_text_order(a.text, b.text, a.text);
        }
        assert forall|a: QuestionView, b: QuestionView, c: QuestionView|
            #[trigger] Self::spec_not_after(a, b) && #[trigger] Self::spec_not_after(
                b,
                c,
            ) implies Self::spec_not_after(a, c) by {
            lemma_text_order(a.text, b.text, c.text);
            lemma_text_order(c.text, a.text, b.text);
        }
    }

    fn blank(&self) -> (r: bool) {
        self.is_blank()
    }

    fn same(&self, other: &Self) -> (r: bool) {
        self.eq_data(other)
    }

    fn not_after(&self, other: &Self) -> (r: bool) {
        if self.source.kind.rank() != other.source.kind.rank() {
            return self.source.kind.rank() < other.source.kind.rank();
        }
        match (&self.source.date, &other.source.date) {
            (None, Some(_)) => {
                return true;
            },
            (Some(_), None) => {
                return false;
            },
            (Some(x), Some(y)) => {
                if x.year != y.year || x.month != y.month || x.day != y.day {
                    return x.not_after(y);
                }
            },
            (None, None) => {},
        }
        if self.text != other.text {
            return compare_texts(self.text.as_str(), other.text.as_str());
        }
        self.id <= other.id
    }
}

impl QuestionData {
    /// Makes a question from its raw fields and processes it. The topic is
    /// made from its name, which is formatted.
    pub fn new(
        id: u128,
        course_key: String,
        text: String,
        explanation: Option<ExplanationData>,
        topic: String,
        topic_by: Option<String>,
        tags: Vec<String>,
        image_file_name: Option<String>,
        question_options: Vec<QuestionOptionData>,
        source: QuestionSourceData,
    ) -> (r: Result<Self, ContentError>)
        ensures
            ({
                let raw = QuestionView {
                    id,
                    course_key: course_key@,
                    source: source@,
                    text: text@,
                    explanation: optional_explanation_view(explanation),
                    topic: (QuestionTopicView { course_key: course_key@, name: topic@ }).formatted(),
                    topic_by: optional_text_view(topic_by),
                    tags: text_views(tags@),
                    image_file_name: optional_text_view(image_file_name),
                    question_options: views(question_options@),
                    hash: Seq::empty(),
                };
                match r {
                    Ok(question) => raw.canonicalized().check() is Ok && question@
                        == raw.processed(),
                    Err(error) => raw.canonicalized().check() == Err::<(), ContentError>(error),
                }
            }),
    {
        let topic = match QuestionTopicData::new(course_key.clone(), topic) {
            Ok(topic) => topic,
            Err(error) => {
                return Err(error);
            },
        };
        let mut data = QuestionData {
            id,
            course_key,
            source,
            text,
            explanation,
            topic,
            topic_by,
            tags,
            image_file_name,
            question_options,
            hash: String::new(),
        };
        match data.process() {
            Ok(()) => Ok(data),
            Err(error) => Err(error),
        }
    }

    /// The encoding of the question.
    pub fn encode(&self) -> (r: Vec<u8>)
        requires
            self@.wf(),
        ensures
            r@ == self@.canonical_bytes(),
    {
        let mut bytes: Vec<u8> = Vec::new();
        put_text(&mut bytes, "id");
        put_id(&mut bytes, self.id);
        put_text(&mut bytes, "course_key");
        put_text(&mut bytes, self.course_key.as_str());
        put_text(&mut bytes, "source");
        let mut source = self.source.encode();
        bytes.append(&mut source);
        put_text(&mut bytes, "text");
        put_text(&mut bytes, self.text.as_str());
        put_text(&mut bytes, "explanation");
        match &self.explanation {
            Some(explanation) => {
                let mut encoded = explanation.encode();
                bytes.append(&mut encoded);
            },
            None => {
                assert(bytes@ + Seq::<u8>::empty() == bytes@);
            },
        }
        put_text(&mut bytes, "topic");
        let mut topic = self.topic.encode();
        bytes.append(&mut topic);
        put_text(&mut bytes, "topic_by");
        put_optional_text(&mut bytes, &self.topic_by);
        put_text(&mut bytes, "tags");
        put_texts(&mut bytes, &self.tags);
        put_text(&mut bytes, "image_file_name");
        put_optional_text(&mut bytes, &self.image_file_name);
        put_text(&mut bytes, "question_options");
        put_option_fingerprints(&mut bytes, &self.question_options);
        assert(bytes@ =~= self@.canonical_bytes());
        bytes
    }

    /// The fingerprint of the question as it is now.
    pub fn fingerprint(&self) -> (r: String)
        requires
            self@.wf(),
        ensures
            r@ == self@.fingerprint(),
    {
        let bytes = self.encode();
        digest_hex(bytes.as_slice())
    }

    /// A copy of the question.
    pub fn duplicate(&self) -> (r: Self)
        ensures
            r@ == self@,
    {
        QuestionData {
            id: self.id,
            course_key: self.course_key.clone(),
            source: self.source.duplicate(),
            text: self.text.clone(),
            explanation: match &self.explanation {
                Some(explanation) => Some(explanation.duplicate()),
                None => None,
            },
            topic: self.topic.duplicate(),
            topic_by: duplicate_optional_text(&self.topic_by),
            tags: duplicate_texts(&self.tags),
            image_file_name: duplicate_optional_text(&self.image_file_name),
            question_options: duplicate_options(&self.question_options),
            hash: self.hash.clone(),
        }
    }

    /// Whether the question has neither text nor options.
    pub fn is_blank(&self) -> (r: bool)
        ensures
            r == self@.is_blank(),
    {
        self.text.as_str().is_empty() && self.question_options.len() == 0
    }

    /// Brings the question into canonical form, checks it and, if it passes,
    /// stores its fingerprint and that of its explanation.
    pub fn process(&mut self) -> (r: Result<(), ContentError>)
        ensures
            final(self)@ == old(self)@.processed(),
            r == old(self)@.canonicalized().check(),
    {
        self.canonicalize();
        match self.check() {
            Ok(()) => {
                self.refresh_hash();
                Ok(())
            },
            Err(error) => Err(error),
        }
    }

    /// Brings the question into canonical form: its source, its explanation
    /// and each option are formatted, blank options are dropped, the text and
    /// the tags are formatted, and the options are sorted and deduplicated.
    pub fn canonicalize(&mut self)
        ensures
            final(self)@ == old(self)@.canonicalized(),
    {
        self.source.format();
        match &mut self.explanation {
            Some(explanation) => {
                explanation.format();
            },
            None => {},
        }
        process_options(&mut self.question_options);
        self.remove_blank_options();
        self.format();
        self.sort();
        self.deduplicate();
    }

    /// Sorts the options: the correct one first, the others by their text.
    pub fn sort(&mut self)
        ensures
            final(self)@ == (QuestionView {
                question_options: crate::siblings::sorted::<QuestionOptionData>(
                    old(self)@.question_options,
                ),
                ..old(self)@
            }),
    {
        sort(&mut self.question_options);
    }

    /// Drops each option that says the same as the option kept before it.
    pub fn deduplicate(&mut self)
        ensures
            final(self)@ == (QuestionView {
                question_options: crate::siblings::without_repeats::<QuestionOptionData>(
                    old(self)@.question_options,
                ),
                ..old(self)@
            }),
    {
        deduplicate(&mut self.question_options);
    }

    /// Drops the options without text.
    pub fn remove_blank_options(&mut self)
        ensures
            final(self)@ == (QuestionView {
                question_options: crate::siblings::without_blank::<QuestionOptionData>(
                    old(self)@.question_options,
                ),
                ..old(self)@
            }),
    {
        remove_blank(&mut self.question_options);
    }

    /// Sorts the options: the correct one first, the others by their text.
    pub fn sort_options(&mut self)
        ensures
            final(self)@ == (QuestionView {
                question_options: crate::siblings::sorted::<QuestionOptionData>(
                    old(self)@.question_options,
                ),
                ..old(self)@
            }),
    {
        self.sort();
    }

    /// Drops each option that says the same as the option kept before it.
    pub fn deduplicate_options(&mut self)
        ensures
            final(self)@ == (QuestionView {
                question_options: crate::siblings::without_repeats::<QuestionOptionData>(
                    old(self)@.question_options,
                ),
                ..old(self)@
            }),
    {
        self.deduplicate();
    }

    /// Drops the options without text.
    pub fn clean(&mut self)
        ensures
            final(self)@ == (QuestionView {
                question_options: crate::siblings::without_blank::<QuestionOptionData>(
                    old(self)@.question_options,
                ),
                ..old(self)@
            }),
    {
        self.remove_blank_options();
    }

    /// Whether the two questions say the same, whatever their identifiers and
    /// the order of their options.
    pub fn eq_data(&self, other: &Self) -> (r: bool)
        ensures
            r == self@.eq_data(other@),
    {
        if !(self.text == other.text) || !self.source.same_as(&other.source)
            || self.question_options.len() != other.question_options.len() {
            return false;
        }
        let mut i: usize = 0;
        while i < self.question_options.len()
            invariant
                i <= self.question_options.len(),
                forall|k: int|
                    0 <= k < i ==> other@.has_option_like(
                        #[trigger] self@.question_options[k],
                    ),
            decreases self.question_options.len() - i,
        {
            let mut found = false;
            let mut j: usize = 0;
            while j < other.question_options.len() && !found
                invariant
                    j <= other.question_options.len(),
                    i < self.question_options.len(),
                    found ==> other@.has_option_like(self@.question_options[i as int]),
                    !found ==> forall|k: int|
                        0 <= k < j ==> !self@.question_options[i as int].eq_data(
                            #[trigger] other@.question_options[k],
                        ),
                decreases other.question_options.len() - j,
            {
                if self.question_options[i].eq_data(&other.question_options[j]) {
                    found = true;
                    assert(self@.question_options[i as int].eq_data(
                        other@.question_options[j as int],
                    ));
                }
                j += 1;
            }
            if !found {
                assert(!other@.has_option_like(self@.question_options[i as int]));
                return false;
            }
            i += 1;
        }
        true
    }

    /// Checks the source, the explanation and the options.
    pub fn check(&self) -> (r: Result<(), ContentError>)
        ensures
            r == self@.check(),
    {
        match self.source.check() {
            Ok(()) => {},
            Err(error) => {
                return Err(error);
            },
        }
        match &self.explanation {
            Some(explanation) => {
                match explanation.check() {
                    Ok(()) => {},
                    Err(error) => {
                        return Err(error);
                    },
                }
            },
            None => {},
        }
        match self.check_question_option_count() {
            Ok(()) => {},
            Err(error) => {
                return Err(error);
            },
        }
        match self.check_duplicates_in_question_options() {
            Ok(()) => {},
            Err(error) => {
                return Err(error);
            },
        }
        self.check_correct_count()
    }

    /// A question that is not blank has two to five options.
    pub fn check_question_option_count(&self) -> (r: Result<(), ContentError>)
        ensures
            r == if !self@.is_blank() && (self@.question_options.len() < MIN_QUESTION_OPTIONS
                || self@.question_options.len() > MAX_QUESTION_OPTIONS) {
                Err::<(), ContentError>(
                    ContentError::QuestionOptionCount {
                        question_id: self.id,
                        count: self@.question_options.len() as usize,
                    },
                )
            } else {
                Ok(())
            },
    {
        let count = self.question_options.len();
        if !self.is_blank() && (count < MIN_QUESTION_OPTIONS || count > MAX_QUESTION_OPTIONS) {
            return Err(ContentError::QuestionOptionCount { question_id: self.id, count });
        }
        Ok(())
    }

    /// No two options have the same text.
    pub fn check_duplicates_in_question_options(&self) -> (r: Result<(), ContentError>)
        ensures
            r == if has_duplicate_text(self@.question_options) {
                Err::<(), ContentError>(
                    ContentError::DuplicateQuestionOption { question_id: self.id },
                )
            } else {
                Ok(())
            },
    {
        let ghost options = self@.question_options;
        let mut j: usize = 0;
        while j < self.question_options.len()
            invariant
                j <= self.question_options.len(),
                options == self@.question_options,
                forall|a: int, b: int|
                    0 <= a < b < j ==> (#[trigger] options[a]).text != (#[trigger] options[b]).text,
            decreases self.question_options.len() - j,
        {
            let mut i: usize = 0;
            while i < j
                invariant
                    i <= j < self.question_options.len(),
                    options == self@.question_options,
                    forall|a: int| 0 <= a < i ==> (#[trigger] options[a]).text != options[j as int].text,
                decreases j - i,
            {
                if self.question_options[i].text == self.question_options[j].text {
                    assert(options[i as int].text == options[j as int].text);
                    return Err(ContentError::DuplicateQuestionOption { question_id: self.id });
                }
                i += 1;
            }
            j += 1;
        }
        Ok(())
    }

    /// A question that is not blank has one correct option.
    pub fn check_correct_count(&self) -> (r: Result<(), ContentError>)
        ensures
            r == if !self@.is_blank() && correct_count(self@.question_options) != 1 {
                Err::<(), ContentError>(
                    ContentError::CorrectOptionCount {
                        question_id: self.id,
                        count: correct_count(self@.question_options) as usize,
                    },
                )
            } else {
                Ok(())
            },
    {
        let ghost options = self@.question_options;
        let mut count: usize = 0;
        let mut i: usize = 0;
        proof {
            reveal(Seq::filter);
        }
        while i < self.question_options.len()
            invariant
                i <= self.question_options.len(),
                options == self@.question_options,
                count <= i,
                count == correct_count(options.take(i as int)),
            decreases self.question_options.len() - i,
        {
            proof {
                reveal(Seq::filter);
                let next = options.take(i + 1);
                assert(next.drop_last() == options.take(i as int));
                assert(next.last() == options[i as int]);
            }
            if self.question_options[i].correct {
                count += 1;
            }
            i += 1;
        }
        assert(options.take(i as int) == options);
        if !self.is_blank() && count != 1 {
            return Err(ContentError::CorrectOptionCount { question_id: self.id, count });
        }
        Ok(())
    }

    /// Formats the text and cleans the tags.
    pub fn format(&mut self)
        ensures
            final(self)@ == (QuestionView {
                text: formatted(old(self)@.text),
                tags: clean_tags(old(self)@.tags),
                ..old(self)@
            }),
    {
        self.text = format_text(self.text.as_str());
        self.tags = clean_up_tags(&self.tags);
    }

    /// The question as it is shown.
    pub fn to_text(&self) -> (r: String)
        ensures
            r@ == self@.text_shown(),
    {
        let ghost options = self@.question_options;
        let mut lines = String::new();
        let mut i: usize = 0;
        assert(options.take(0) =~= Seq::<QuestionOptionView>::empty());
        while i < self.question_options.len()
            invariant
                i <= self.question_options.len(),
                options == self@.question_options,
                lines@ == option_lines(options.take(i as int)),
            decreases self.question_options.len() - i,
        {
            let option = &self.question_options[i];
            proof {
                let next = options.take(i + 1);
                assert(next.drop_last() =~= options.take(i as int));
                assert(next.last() == option@);
            }
            let code: u8 = ((97u32 + option.reference as u32) % 256) as u8;
            lines.append("\n");
            push_char(&mut lines, code as char);
            lines.append(". ");
            lines.append(option.text.as_str());
            assert(lines@ =~= option_lines(options.take(i + 1)));
            i += 1;
        }
        assert(options.take(i as int) =~= options);
        let mut text = self.text.clone();
        text.append("\n");
        text.append(lines.as_str());
        assert(text@ =~= self@.text_shown());
        text
    }

    /// The key of the topic of the question.
    pub fn topic_key(&self) -> (r: String)
        ensures
            r@ == self@.topic_key(),
    {
        self.topic.key()
    }

    /// The key of the source of the question.
    pub fn source_key(&self) -> (r: String)
        requires
            self@.source.wf(),
        ensures
            r@ == self@.source_key(),
    {
        self.source.key()
    }

    /// Gives the question the topic of that name, which is formatted, and
    /// processes the question.
    pub fn set_topic(&mut self, name: String, topic_by: Option<String>) -> (r: Result<
        (),
        ContentError,
    >)
        ensures
            ({
                let changed = QuestionView {
                    topic: (QuestionTopicView {
                        course_key: old(self)@.course_key,
                        name: name@,
                    }).formatted(),
                    topic_by: optional_text_view(topic_by),
                    ..old(self)@
                };
                &&& final(self)@ == changed.processed()
                &&& r == changed.canonicalized().check()
            }),
    {
        match QuestionTopicData::new(self.course_key.clone(), name) {
            Ok(topic) => {
                self.topic = topic;
            },
            Err(error) => {
                return Err(error);
            },
        }
        self.topic_by = topic_by;
        self.process()
    }

    /// Gives the question an explanation written at `date` and processes the
    /// question. Where the explanation is rejected, the question is left as it
    /// was.
    pub fn set_explanation(&mut self, text: String, by: String, date: Timestamp) -> (r:
        Result<(), ContentError>)
        ensures
            (final(self)@, r) == old(self)@.with_explanation(text@, by@, date),
    {
        match ExplanationData::new(text, by, date) {
            Ok(explanation) => {
                self.explanation = Some(explanation);
            },
            Err(error) => {
                return Err(error);
            },
        }
        self.process()
    }

    /// Makes each option belong to the question and the first one correct,
    /// processes each option and then the question.
    pub fn prepare_for_test(&mut self) -> (r: Result<(), ContentError>)
        ensures
            final(self)@ == old(self)@.prepared().processed(),
            r == old(self)@.prepared().canonicalized().check(),
    {
        let ghost start = self@;
        prepare_options(&mut self.question_options, self.id);
        assert(self@.question_options =~= start.prepared().question_options);
        self.process()
    }

    /// The path of the image of the question, if it has one.
    pub fn full_image_path(&self) -> (r: Option<String>)
        ensures
            match r {
                Some(path) => self@.image_file_name matches Some(name) && path@ == image_path(
                    self@.course_key,
                    name,
                ),
                None => self@.image_file_name is None,
            },
    {
        match &self.image_file_name {
            Some(name) => Some(full_image_path(self.course_key.as_str(), name.as_str())),
            None => None,
        }
    }

    /// Stores the fingerprint of the question as it is now, and that of its
    /// explanation.
    pub fn refresh_hash(&mut self)
        requires
            old(self)@.wf(),
        ensures
            final(self)@ == old(self)@.fingerprinted(),
    {
        match &mut self.explanation {
            Some(explanation) => {
                explanation.refresh_hash();
            },
            None => {},
        }
        self.hash = self.fingerprint();
    }
}

} // verus!

//! What holds of canonicalization and fingerprinting as a whole.

use crate::bundle_data::BundleView;
use crate::course_data::{
    canonical_questions, canonicalized_questions, fingerprinted_questions, first_question_error,
    question_fingerprints, CourseView,
};
use crate::explanation_data::ExplanationView;
use crate::hashing::{fingerprints_bytes, text_bytes, texts_bytes, DIGEST_LENGTH};
use crate::hashing_laws::{
    have_digest_length, lemma_fingerprint_is_digest, lemma_fingerprints_bytes_len,
    lemma_fingerprints_bytes_tell_fingerprints, lemma_same_end, lemma_same_start,
};
use crate::icon_data::IconView;
use crate::ordering::{
    deduplicated, has_no_ties, inserted, lemma_filter_all_pass, lemma_filter_keeps,
    lemma_map_ignores_order, lemma_text_order, stably_sorted,
};
use crate::question_data::{
    canonical_options, clean_tags, option_fingerprints, tag_presence, trimmed_tags, QuestionData,
    QuestionView,
};
use crate::question_source_data::QuestionSourceView;
use crate::question_option_data::{
    lemma_option_change_shows, lemma_option_order_has_no_ties, lemma_option_processing_settles,
    processed_options, QuestionOptionData, QuestionOptionView,
};
use crate::siblings::{
    are_canonical_siblings, lemma_canonical_siblings, lemma_canonical_siblings_ignore_order,
    lemma_canonical_siblings_stay, sibling_order, sibling_presence, sibling_sameness,
    without_blank, Sibling,
};
use crate::text::trimmed;
use crate::text_laws::{lemma_formatted_settles, lemma_trimmed};
use vstd::prelude::*;

verus! {

/// The order in which the options of a question are given matters neither to
/// the processed question, nor to what its check says, nor to its
/// fingerprint.
pub proof fn lemma_option_order_is_irrelevant(a: QuestionView, b: QuestionView)
    requires
        b == (QuestionView { question_options: b.question_options, ..a }),
        a.question_options.to_multiset() == b.question_options.to_multiset(),
    ensures
        a.processed() == b.processed(),
        a.canonicalized().check() == b.canonicalized().check(),
        a.processed().hash == b.processed().hash,
        a.canonicalized().fingerprint() == b.canonicalized().fingerprint(),
{
    let kept = without_blank::<QuestionOptionData>(processed_options(a.question_options));
    let order = sibling_order::<QuestionOptionData>();
    assert(has_no_ties(kept, order)) by {
        assert forall|i: int, j: int|
            0 <= i < kept.len() && 0 <= j < kept.len() && #[trigger] order(kept[i], kept[j])
                && order(kept[j], kept[i]) implies kept[i] == kept[j] by {
            lemma_option_order_has_no_ties(kept[i], kept[j]);
        }
    }
    lemma_map_ignores_order(
        a.question_options,
        b.question_options,
        |option: QuestionOptionView| option.processed(),
    );
    lemma_canonical_siblings_ignore_order::<QuestionOptionData>(
        processed_options(a.question_options),
        processed_options(b.question_options),
    );
}

/// Two questions that stand at one place in the order of questions have one
/// identifier.
pub proof fn lemma_question_tie_has_one_id(a: QuestionView, b: QuestionView)
    requires
        QuestionData::spec_not_after(a, b),
        QuestionData::spec_not_after(b, a),
    ensures
        a.id == b.id,
        a.text == b.text,
        a.source.kind == b.source.kind,
        a.source.date == b.source.date,
{
    lemma_text_order(a.text, b.text, a.text);
}

/// The order in which the questions of a course are given matters neither to
/// the processed course, nor to whether its check passes, nor to its
/// fingerprint, where an identifier names one question: no two different
/// questions of the course have one identifier.
pub proof fn lemma_question_order_is_irrelevant(a: CourseView, b: CourseView)
    requires
        b == (CourseView { questions: b.questions, ..a }),
        a.questions.to_multiset() == b.questions.to_multiset(),
        forall|i: int, j: int|
            0 <= i < a.questions.len() && 0 <= j < a.questions.len() && (
            #[trigger] a.questions[i]).id == (#[trigger] a.questions[j]).id ==> a.questions[i]
                == a.questions[j],
    ensures
        a.processed() == b.processed(),
        a.canonicalized().check() == b.canonicalized().check(),
        a.processed().hash == b.processed().hash,
        a.canonicalized().fingerprint() == b.canonicalized().fingerprint(),
{
    let each = canonicalized_questions(a.questions);
    let kept = without_blank::<QuestionData>(each);
    let order = sibling_order::<QuestionData>();
    lemma_filter_keeps(each, sibling_presence::<QuestionData>());
    assert(has_no_ties(kept, order)) by {
        assert forall|i: int, j: int|
            0 <= i < kept.len() && 0 <= j < kept.len() && #[trigger] order(kept[i], kept[j])
                && order(kept[j], kept[i]) implies kept[i] == kept[j] by {
            lemma_question_tie_has_one_id(kept[i], kept[j]);
            assert(kept.contains(kept[i]));
            assert(kept.contains(kept[j]));
            assert(each.contains(kept[i]));
            assert(each.contains(kept[j]));
            let k = choose|k: int| 0 <= k < each.len() && each[k] == kept[i];
            let l = choose|l: int| 0 <= l < each.len() && each[l] == kept[j];
            assert(a.questions[k].id == a.questions[l].id);
        }
    }
    lemma_map_ignores_order(
        a.questions,
        b.questions,
        |question: QuestionView| question.canonicalized(),
    );
    lemma_canonical_siblings_ignore_order::<QuestionData>(
        canonicalized_questions(a.questions),
        canonicalized_questions(b.questions),
    );
}

/// Two questions of a course that say the same collapse to one, whichever is
/// given first: the one with the smaller identifier stays. The two are taken
/// as they are in canonical form, where neither is blank.
pub proof fn lemma_same_questions_collapse(first: QuestionView, second: QuestionView)
    requires
        !first.canonicalized().is_blank(),
        !second.canonicalized().is_blank(),
        first.canonicalized().eq_data(second.canonicalized()),
        second.canonicalized().eq_data(first.canonicalized()),
        first.id < second.id,
    ensures
        canonical_questions(seq![first, second]) == seq![first.canonicalized()],
        canonical_questions(seq![second, first]) == seq![first.canonicalized()],
{
    let a = first.canonicalized();
    let b = second.canonicalized();
    let order = sibling_order::<QuestionData>();
    let same = sibling_sameness::<QuestionData>();
    let present = sibling_presence::<QuestionData>();
    lemma_text_order(a.text, b.text, a.text);
    assert(order(a, b) && !order(b, a));
    assert(same(b, a) && same(a, b));
    assert(canonicalized_questions(seq![first, second]) =~= seq![a, b]);
    assert(canonicalized_questions(seq![second, first]) =~= seq![b, a]);
    assert(present(a) && present(b));
    lemma_filter_all_pass(seq![a, b], present);
    lemma_filter_all_pass(seq![b, a], present);
    lemma_sorted_pair(a, b, order);
    lemma_deduplicated_pair(a, b, same);
}

/// Two values of which the first comes before the second are sorted to that
/// order, however they are given.
pub proof fn lemma_sorted_pair<T>(a: T, b: T, order: spec_fn(T, T) -> bool)
    requires
        order(a, b),
        !order(b, a),
    ensures
        stably_sorted(seq![a, b], order) == seq![a, b],
        stably_sorted(seq![b, a], order) == seq![a, b],
{
    let empty = Seq::<T>::empty();
    assert(seq![a, b].drop_last() =~= seq![a]);
    assert(seq![b, a].drop_last() =~= seq![b]);
    assert(seq![a].drop_last() =~= empty);
    assert(seq![b].drop_last() =~= empty);
    assert(stably_sorted(empty, order) =~= empty);
    assert(inserted(empty, a, order) =~= seq![a]);
    assert(inserted(empty, b, order) =~= seq![b]);
    assert(stably_sorted(seq![a], order) == seq![a]);
    assert(stably_sorted(seq![b], order) == seq![b]);
    assert(inserted(seq![a], b, order) =~= seq![a, b]);
    assert(inserted(seq![b], a, order) =~= seq![a, b]) by {
        assert(seq![b].last() == b);
        assert(inserted(seq![b].drop_last(), a, order) == seq![a]);
    }
}

/// Of two values that say the same, the first alone is kept.
pub proof fn lemma_deduplicated_pair<T>(a: T, b: T, same: spec_fn(T, T) -> bool)
    requires
        same(b, a),
    ensures
        deduplicated(seq![a, b], same) == seq![a],
{
    let empty = Seq::<T>::empty();
    assert(seq![a, b].drop_last() =~= seq![a]);
    assert(seq![a].drop_last() =~= empty);
    assert(deduplicated(empty, same) =~= empty);
    assert(deduplicated(seq![a], same) =~= seq![a]);
    assert(seq![a].last() == a);
}

/// Trimming tags that are trimmed changes nothing.
pub proof fn lemma_trimmed_tags_settle(tags: Seq<Seq<char>>)
    ensures
        trimmed_tags(trimmed_tags(tags)) == trimmed_tags(tags),
{
    assert forall|i: int| 0 <= i < tags.len() implies trimmed(#[trigger] trimmed_tags(tags)[i])
        == trimmed_tags(tags)[i] by {
        lemma_trimmed(tags[i]);
    }
    assert(trimmed_tags(trimmed_tags(tags)) =~= trimmed_tags(tags));
}

/// Cleaning tags that are clean changes nothing.
pub proof fn lemma_clean_tags_settle(tags: Seq<Seq<char>>)
    ensures
        clean_tags(clean_tags(tags)) == clean_tags(tags),
{
    let all = trimmed_tags(tags);
    let clean = clean_tags(tags);
    lemma_filter_keeps(all, tag_presence());
    assert forall|i: int| 0 <= i < clean.len() implies trimmed(#[trigger] clean[i]) == clean[i]
        && tag_presence()(clean[i]) by {
        assert(clean.contains(clean[i]));
        assert(all.contains(clean[i]));
        let k = choose|k: int| 0 <= k < all.len() && all[k] == clean[i];
        lemma_trimmed(tags[k]);
    }
    assert(trimmed_tags(clean) =~= clean);
    lemma_filter_all_pass(clean, tag_presence());
}

/// The canonical form of the options of a question is in canonical form:
/// each option is processed, and bringing the options into canonical form
/// again changes nothing.
pub proof fn lemma_canonical_options_settle(options: Seq<QuestionOptionView>)
    ensures
        canonical_options(canonical_options(options)) == canonical_options(options),
        are_canonical_siblings::<QuestionOptionData>(canonical_options(options)),
        forall|i: int|
            0 <= i < canonical_options(options).len() ==> (
            #[trigger] canonical_options(options)[i]).is_canonical(),
{
    let processed = processed_options(options);
    let canonical = canonical_options(options);
    lemma_canonical_siblings::<QuestionOptionData>(processed);
    assert forall|i: int| 0 <= i < canonical.len() implies (#[trigger] canonical[i]).processed()
        == canonical[i] && canonical[i].is_canonical() by {
        assert(processed.contains(canonical[i]));
        let k = choose|k: int| 0 <= k < processed.len() && processed[k] == canonical[i];
        lemma_option_processing_settles(options[k]);
    }
    assert(processed_options(canonical) =~= canonical);
    lemma_canonical_siblings_stay::<QuestionOptionData>(canonical);
}

/// Among the options of a question in canonical form no two say the same:
/// options that agree in text and correctness collapse to one, however many
/// they are and wherever they stood.
pub proof fn lemma_canonical_options_differ(options: Seq<QuestionOptionView>)
    ensures
        forall|i: int, j: int|
            0 <= i < j < canonical_options(options).len() ==> !(
            #[trigger] canonical_options(options)[i]).eq_data(
                #[trigger] canonical_options(options)[j],
            ),
{
    let canonical = canonical_options(options);
    let order = sibling_order::<QuestionOptionData>();
    let same = sibling_sameness::<QuestionOptionData>();
    lemma_canonical_options_settle(options);
    assert forall|i: int, j: int| 0 <= i < j < canonical.len() implies !(
    #[trigger] canonical[i]).eq_data(#[trigger] canonical[j]) by {
        if canonical[i].eq_data(canonical[j]) {
            let x = canonical[i];
            let y = canonical[j - 1];
            let z = canonical[j];
            assert(order(y, z));
            if i < j - 1 {
                assert(order(x, y));
            }
            lemma_text_order(x.text, y.text, z.text);
            lemma_text_order(y.text, x.text, y.text);
            assert(same(z, y));
            assert(!same(canonical[j], canonical[j - 1]));
        }
    }
}

/// Bringing a question that is in canonical form into canonical form changes
/// nothing.
pub proof fn lemma_question_canonicalization_settles(question: QuestionView)
    ensures
        question.canonicalized().canonicalized() == question.canonicalized(),
{
    let once = question.canonicalized();
    lemma_formatted_settles(question.text);
    lemma_clean_tags_settle(question.tags);
    lemma_canonical_options_settle(question.question_options);
    if let Some(name) = question.source.name {
        lemma_trimmed(name);
    }
    if let Some(explanation) = question.explanation {
        lemma_trimmed(explanation.text);
        lemma_trimmed(explanation.by);
    }
}

/// Storing the fingerprints of a question in canonical form leaves it in
/// canonical form and touches nothing that its check, its order among its
/// siblings or its fingerprint depend on.
pub proof fn lemma_fingerprints_are_no_content(question: QuestionView)
    requires
        question.canonicalized() == question,
    ensures
        question.fingerprinted().canonicalized() == question.fingerprinted(),
        question.fingerprinted().check() == question.check(),
        question.fingerprinted().fingerprint() == question.fingerprint(),
        question.fingerprinted().fingerprinted() == question.fingerprinted(),
        question.fingerprinted().is_blank() == question.is_blank(),
{
}

/// Processing a question that was processed changes nothing: neither the
/// question nor its fingerprint.
pub proof fn lemma_question_processing_settles(question: QuestionView)
    ensures
        question.processed().processed() == question.processed(),
        question.processed().fingerprint() == question.canonicalized().fingerprint(),
{
    lemma_question_canonicalization_settles(question);
    lemma_fingerprints_are_no_content(question.canonicalized());
}

/// The first complaint among questions does not depend on their stored
/// fingerprints.
pub proof fn lemma_first_error_ignores_fingerprints(questions: Seq<QuestionView>)
    requires
        forall|i: int|
            0 <= i < questions.len() ==> (#[trigger] questions[i]).canonicalized() == questions[i],
    ensures
        first_question_error(fingerprinted_questions(questions)) == first_question_error(
            questions,
        ),
    decreases questions.len(),
{
    if questions.len() > 0 {
        let rest = questions.drop_last();
        assert forall|i: int| 0 <= i < rest.len() implies (#[trigger] rest[i]).canonicalized()
            == rest[i] by {
            assert(rest[i] == questions[i]);
        }
        lemma_first_error_ignores_fingerprints(rest);
        assert(fingerprinted_questions(questions).drop_last() =~= fingerprinted_questions(rest));
        lemma_fingerprints_are_no_content(questions[questions.len() - 1]);
    }
}

/// The canonical form of the questions of a course is in canonical form, and
/// stays so when the fingerprints of the questions are stored.
pub proof fn lemma_canonical_questions_settle(questions: Seq<QuestionView>)
    ensures
        canonical_questions(canonical_questions(questions)) == canonical_questions(questions),
        canonical_questions(fingerprinted_questions(canonical_questions(questions)))
            == fingerprinted_questions(canonical_questions(questions)),
        forall|i: int|
            0 <= i < canonical_questions(questions).len() ==> (
            #[trigger] canonical_questions(questions)[i]).canonicalized() == canonical_questions(
                questions,
            )[i],
{
    let each = canonicalized_questions(questions);
    let canonical = canonical_questions(questions);
    let printed = fingerprinted_questions(canonical);
    lemma_canonical_siblings::<QuestionData>(each);
    assert forall|i: int| 0 <= i < canonical.len() implies (
    #[trigger] canonical[i]).canonicalized() == canonical[i] by {
        assert(each.contains(canonical[i]));
        let k = choose|k: int| 0 <= k < each.len() && each[k] == canonical[i];
        lemma_question_canonicalization_settles(questions[k]);
    }
    assert(canonicalized_questions(canonical) =~= canonical);
    lemma_canonical_siblings_stay::<QuestionData>(canonical);
    assert forall|i: int| 0 <= i < printed.len() implies (#[trigger] printed[i]).canonicalized()
        == printed[i] by {
        lemma_fingerprints_are_no_content(canonical[i]);
    }
    assert(canonicalized_questions(printed) =~= printed);
    assert(are_canonical_siblings::<QuestionData>(printed)) by {
        let order = sibling_order::<QuestionData>();
        let same = sibling_sameness::<QuestionData>();
        assert forall|i: int| 0 <= i < printed.len() implies !QuestionData::spec_blank(
            #[trigger] printed[i],
        ) by {
            assert(!QuestionData::spec_blank(canonical[i]));
        }
        assert forall|i: int, j: int| 0 <= i < j < printed.len() implies #[trigger] order(
            printed[i],
            printed[j],
        ) by {
            assert(order(canonical[i], canonical[j]));
        }
        assert forall|i: int| 0 < i < printed.len() implies !#[trigger] same(
            printed[i],
            printed[i - 1],
        ) by {
            assert(!same(canonical[i], canonical[i - 1]));
            assert(canonical[i].eq_data(canonical[i - 1]) == printed[i].eq_data(printed[i - 1]))
                by {
                let a = canonical[i];
                let b = canonical[i - 1];
                let c = printed[i];
                let d = printed[i - 1];
                assert(a.question_options == c.question_options);
                assert(b.question_options == d.question_options);
                assert forall|option: QuestionOptionView|
                    b.has_option_like(option) == d.has_option_like(option) by {}
            }
        }
    }
    lemma_canonical_siblings_stay::<QuestionData>(printed);
}

/// Bringing a course that is in canonical form into canonical form changes
/// nothing.
pub proof fn lemma_course_canonicalization_settles(course: CourseView)
    ensures
        course.canonicalized().canonicalized() == course.canonicalized(),
{
    lemma_trimmed(course.name);
    lemma_trimmed(course.short_name);
    if let Some(description) = course.description {
        lemma_trimmed(description);
    }
    lemma_trimmed_tags_settle(course.tags);
    lemma_canonical_questions_settle(course.questions);
}

/// Processing a course that was processed changes nothing: neither the
/// course, nor any of its questions, nor a fingerprint.
pub proof fn lemma_course_processing_settles(course: CourseView)
    ensures
        course.processed().processed() == course.processed(),
        course.processed().fingerprint() == course.canonicalized().fingerprint(),
{
    let once = course.canonicalized();
    let done = course.processed();
    lemma_course_canonicalization_settles(course);
    lemma_canonical_questions_settle(course.questions);
    let canonical = once.questions;
    let printed = fingerprinted_questions(canonical);
    lemma_first_error_ignores_fingerprints(canonical);
    assert(question_fingerprints(printed) =~= question_fingerprints(canonical)) by {
        assert forall|i: int| 0 <= i < canonical.len() implies (
        #[trigger] printed[i]).fingerprint() == canonical[i].fingerprint() by {
            lemma_fingerprints_are_no_content(canonical[i]);
        }
    }
    assert(fingerprinted_questions(printed) =~= printed) by {
        assert forall|i: int| 0 <= i < canonical.len() implies (
        #[trigger] printed[i]).fingerprinted() == printed[i] by {
            lemma_fingerprints_are_no_content(canonical[i]);
        }
    }
    if once.check() is Ok {
        assert(done == once.fingerprinted());
        assert(done.canonicalized() == done);
        assert(done.check() == once.check());
        assert(done.fingerprint() == once.fingerprint());
    }
}

/// Processing a bundle that was processed changes nothing.
pub proof fn lemma_bundle_processing_settles(bundle: BundleView)
    ensures
        bundle.processed().processed() == bundle.processed(),
        bundle.processed().fingerprint() == bundle.formatted().fingerprint(),
{
    lemma_trimmed(bundle.key);
    lemma_trimmed(bundle.name);
    lemma_trimmed(bundle.description);
}

/// Processing an icon that was processed changes nothing.
pub proof fn lemma_icon_processing_settles(icon: IconView)
    ensures
        icon.processed().processed() == icon.processed(),
        icon.processed().fingerprint() == icon.formatted().fingerprint(),
{
    lemma_trimmed(icon.key);
    if let Some(description) = icon.description {
        lemma_formatted_settles(description);
    }
}

/// Processing an explanation that was processed changes nothing.
pub proof fn lemma_explanation_processing_settles(explanation: ExplanationView)
    ensures
        explanation.processed().processed() == explanation.processed(),
        explanation.processed().fingerprint() == explanation.formatted().fingerprint(),
{
    lemma_trimmed(explanation.text);
    lemma_trimmed(explanation.by);
}

/// Formatting a source that was formatted changes nothing.
pub proof fn lemma_source_formatting_settles(source: QuestionSourceView)
    ensures
        source.formatted().formatted() == source.formatted(),
        source.formatted().is_canonical(),
{
    if let Some(name) = source.name {
        lemma_trimmed(name);
    }
}

/// The fingerprints of options have the length of a digest.
pub proof fn lemma_option_fingerprints_have_digest_length(options: Seq<QuestionOptionView>)
    ensures
        have_digest_length(option_fingerprints(options)),
{
    let prints = option_fingerprints(options);
    assert forall|i: int| 0 <= i < prints.len() implies text_bytes(#[trigger] prints[i]).len()
        == DIGEST_LENGTH by {
        lemma_fingerprint_is_digest(options[i].canonical_bytes());
    }
}

/// The fingerprints of questions have the length of a digest.
pub proof fn lemma_question_fingerprints_have_digest_length(questions: Seq<QuestionView>)
    ensures
        have_digest_length(question_fingerprints(questions)),
{
    let prints = question_fingerprints(questions);
    assert forall|i: int| 0 <= i < prints.len() implies text_bytes(#[trigger] prints[i]).len()
        == DIGEST_LENGTH by {
        lemma_fingerprint_is_digest(questions[i].canonical_bytes());
    }
}

/// A change of the fingerprint of an option changes the encoding of the
/// question, and so its fingerprint unless BLAKE3 gives one digest for the
/// two encodings.
pub proof fn lemma_option_change_reaches_question(a: QuestionView, b: QuestionView)
    requires
        b == (QuestionView { question_options: b.question_options, hash: b.hash, ..a }),
        a.question_options.len() == b.question_options.len(),
        option_fingerprints(a.question_options) != option_fingerprints(b.question_options),
    ensures
        a.canonical_bytes() != b.canonical_bytes(),
{
    let x = fingerprints_bytes(option_fingerprints(a.question_options));
    let y = fingerprints_bytes(option_fingerprints(b.question_options));
    lemma_option_fingerprints_have_digest_length(a.question_options);
    lemma_option_fingerprints_have_digest_length(b.question_options);
    if a.canonical_bytes() == b.canonical_bytes() {
        let start = a.canonical_bytes().take(a.canonical_bytes().len() - x.len());
        assert(a.canonical_bytes() =~= start + x);
        lemma_fingerprints_bytes_len(option_fingerprints(a.question_options));
        lemma_fingerprints_bytes_len(option_fingerprints(b.question_options));
        assert(b.canonical_bytes() =~= start + y);
        lemma_same_start(start, x, y);
        lemma_fingerprints_bytes_tell_fingerprints(
            option_fingerprints(a.question_options),
            option_fingerprints(b.question_options),
        );
    }
}

/// A change of what one option of a question holds changes the encoding of
/// the option and, unless BLAKE3 gives one digest for the two encodings of
/// the option, the encoding of the question. The fingerprint of the question
/// then changes too unless BLAKE3 gives one digest for its two encodings.
pub proof fn lemma_option_content_reaches_question(a: QuestionView, b: QuestionView, place: int)
    requires
        b == (QuestionView { question_options: b.question_options, hash: b.hash, ..a }),
        a.question_options.len() == b.question_options.len(),
        0 <= place < a.question_options.len(),
        ({
            let x = a.question_options[place];
            let y = b.question_options[place];
            x.id != y.id || x.question_id != y.question_id || x.text != y.text || x.correct
                != y.correct
        }),
    ensures
        a.question_options[place].canonical_bytes() != b.question_options[place].canonical_bytes(),
        a.question_options[place].fingerprint() != b.question_options[place].fingerprint()
            ==> a.canonical_bytes() != b.canonical_bytes(),
{
    lemma_option_change_shows(a.question_options[place], b.question_options[place]);
    if a.question_options[place].fingerprint() != b.question_options[place].fingerprint() {
        assert(option_fingerprints(a.question_options)[place] != option_fingerprints(
            b.question_options,
        )[place]);
        lemma_option_change_reaches_question(a, b);
    }
}

/// A change of the fingerprint of a question changes the encoding of the
/// course, and so its fingerprint unless BLAKE3 gives one digest for the two
/// encodings.
pub proof fn lemma_question_change_reaches_course(a: CourseView, b: CourseView)
    requires
        b == (CourseView { questions: b.questions, hash: b.hash, ..a }),
        a.questions.len() == b.questions.len(),
        question_fingerprints(a.questions) != question_fingerprints(b.questions),
    ensures
        a.canonical_bytes() != b.canonical_bytes(),
{
    let x = fingerprints_bytes(question_fingerprints(a.questions));
    let y = fingerprints_bytes(question_fingerprints(b.questions));
    let end = text_bytes("valid_topics"@) + texts_bytes(a.valid_topics);
    lemma_question_fingerprints_have_digest_length(a.questions);
    lemma_question_fingerprints_have_digest_length(b.questions);
    if a.canonical_bytes() == b.canonical_bytes() {
        lemma_fingerprints_bytes_len(question_fingerprints(a.questions));
        lemma_fingerprints_bytes_len(question_fingerprints(b.questions));
        let start = a.canonical_bytes().take(a.canonical_bytes().len() - x.len() - end.len());
        assert(a.canonical_bytes() =~= start + x + end);
        assert(b.canonical_bytes() =~= start + y + end);
        lemma_same_end(start + x, start + y, end);
        lemma_same_start(start, x, y);
        lemma_fingerprints_bytes_tell_fingerprints(
            question_fingerprints(a.questions),
            question_fingerprints(b.questions),
        );
    }
}

/// Where no question is complained of, the check of each question passes.
pub proof fn lemma_no_error_means_all_pass(questions: Seq<QuestionView>)
    requires
        first_question_error(questions) is Ok,
    ensures
        forall|i: int| 0 <= i < questions.len() ==> (#[trigger] questions[i]).check() is Ok,
    decreases questions.len(),
{
    if questions.len() > 0 {
        let rest = questions.drop_last();
        lemma_no_error_means_all_pass(rest);
        assert forall|i: int| 0 <= i < questions.len() implies (#[trigger] questions[i]).check()
            is Ok by {
            if i < rest.len() {
                assert(rest[i] == questions[i]);
            }
        }
    }
}

/// Each option of a processed question is one of the options that were given,
/// processed by itself: what it holds and its fingerprint depend on no other
/// option and on nothing else in the question.
pub proof fn lemma_options_are_processed_alone(question: QuestionView)
    ensures
        forall|i: int|
            0 <= i < question.processed().question_options.len() ==> exists|k: int|
                0 <= k < question.question_options.len() && #[trigger] question.processed().question_options[i]
                    == (#[trigger] question.question_options[k]).processed(),
{
    let given = question.question_options;
    let each = processed_options(given);
    let kept = question.processed().question_options;
    lemma_canonical_siblings::<QuestionOptionData>(each);
    assert forall|i: int| 0 <= i < kept.len() implies exists|k: int|
        0 <= k < given.len() && #[trigger] kept[i] == (#[trigger] given[k]).processed() by {
        assert(each.contains(kept[i]));
        let k = choose|k: int| 0 <= k < each.len() && each[k] == kept[i];
        assert(kept[i] == given[k].processed());
    }
}

/// Each question of a processed course that passed its check is one of the
/// questions that were given, processed by itself: what it holds and its
/// fingerprint depend on no other question and on nothing else in the
/// course.
pub proof fn lemma_questions_are_processed_alone(course: CourseView)
    requires
        course.canonicalized().check() is Ok,
    ensures
        forall|i: int|
            0 <= i < course.processed().questions.len() ==> exists|k: int|
                0 <= k < course.questions.len() && #[trigger] course.processed().questions[i] == (
                #[trigger] course.questions[k]).processed(),
{
    let given = course.questions;
    let each = canonicalized_questions(given);
    let canonical = canonical_questions(given);
    let kept = course.processed().questions;
    lemma_canonical_siblings::<QuestionData>(each);
    lemma_no_error_means_all_pass(canonical);
    assert forall|i: int| 0 <= i < kept.len() implies exists|k: int|
        0 <= k < given.len() && #[trigger] kept[i] == (#[trigger] given[k]).processed() by {
        assert(kept[i] == canonical[i].fingerprinted());
        assert(each.contains(canonical[i]));
        let k = choose|k: int| 0 <= k < each.len() && each[k] == canonical[i];
        assert(canonical[i] == given[k].canonicalized());
        assert(canonical[i].check() is Ok);
        assert(kept[i] == given[k].processed());
    }
}

/// The fingerprints stored in a question that passed its check are those of
/// what the question, its explanation and its options hold.
pub proof fn lemma_processed_question_is_fingerprinted(question: QuestionView)
    requires
        question.canonicalized().check() is Ok,
    ensures
        question.processed().is_fingerprinted(),
        question.processed().hash == question.processed().fingerprint(),
{
    let canonical = question.canonicalized();
    lemma_canonical_options_settle(question.question_options);
    assert forall|i: int| 0 <= i < canonical.question_options.len() implies (
    #[trigger] question.processed().question_options[i]).is_fingerprinted() by {
        assert(canonical.question_options[i].is_canonical());
    }
}

/// The fingerprints stored in a course that passed its check are those of
/// what the course and everything in it hold.
pub proof fn lemma_processed_course_is_fingerprinted(course: CourseView)
    requires
        course.canonicalized().check() is Ok,
    ensures
        course.processed().is_fingerprinted(),
        course.processed().hash == course.processed().fingerprint(),
{
    let canonical = course.canonicalized();
    let done = course.processed();
    lemma_canonical_questions_settle(course.questions);
    assert(question_fingerprints(done.questions) =~= question_fingerprints(canonical.questions))
        by {
        assert forall|i: int| 0 <= i < canonical.questions.len() implies (
        #[trigger] done.questions[i]).fingerprint() == canonical.questions[i].fingerprint() by {
            lemma_fingerprints_are_no_content(canonical.questions[i]);
        }
    }
    let each = canonicalized_questions(course.questions);
    lemma_canonical_siblings::<QuestionData>(each);
    lemma_no_error_means_all_pass(canonical.questions);
    assert forall|i: int| 0 <= i < done.questions.len() implies (
    #[trigger] done.questions[i]).is_fingerprinted() by {
        assert(each.contains(canonical.questions[i]));
        let k = choose|k: int| 0 <= k < each.len() && each[k] == canonical.questions[i];
        assert(canonical.questions[i].check() is Ok);
        lemma_processed_question_is_fingerprinted(course.questions[k]);
    }
}

} // verus!

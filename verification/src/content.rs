//! The records of every collection as they are now, gathered from the
//! courses, bundles and icons.

use crate::bundle_data::BundleData;
use crate::course_data::{CourseData, CourseView};
use crate::icon_data::IconData;
use crate::question_data::{
    duplicate_questions, have_source, have_topic, sources_of, topics_of, QuestionData,
    QuestionView,
};
use crate::question_option_data::{duplicate_options, QuestionOptionData, QuestionOptionView};
use crate::question_source_data::{QuestionSourceData, QuestionSourceView};
use crate::question_topic_data::{QuestionTopicData, QuestionTopicView};
use crate::siblings::views;
use vstd::prelude::*;

verus! {

/// The records of every collection as they are now.
#[derive(Clone, Debug, PartialEq, Eq)]
pub struct CurrentContent {
    pub courses: Vec<CourseData>,
    pub questions: Vec<QuestionData>,
    pub question_options: Vec<QuestionOptionData>,
    pub question_topics: Vec<QuestionTopicData>,
    pub question_sources: Vec<QuestionSourceData>,
    pub bundles: Vec<BundleData>,
    pub icons: Vec<IconData>,
}

/// The questions of the courses, course after course.
pub open spec fn all_questions(courses: Seq<CourseView>) -> Seq<QuestionView>
    decreases courses.len(),
{
    if courses.len() == 0 {
        Seq::empty()
    } else {
        all_questions(courses.drop_last()) + courses.last().questions
    }
}

/// The options of the questions, question after question.
pub open spec fn all_options(questions: Seq<QuestionView>) -> Seq<QuestionOptionView>
    decreases questions.len(),
{
    if questions.len() == 0 {
        Seq::empty()
    } else {
        all_options(questions.drop_last()) + questions.last().question_options
    }
}

/// The questions of the courses, course after course.
pub fn questions_of(courses: &Vec<CourseData>) -> (r: Vec<QuestionData>)
    ensures
        views(r@) == all_questions(views(courses@)),
{
    let ghost all = views(courses@);
    let mut questions: Vec<QuestionData> = Vec::new();
    let mut i: usize = 0;
    assert(views(questions@) =~= all_questions(all.take(0)));
    while i < courses.len()
        invariant
            i <= courses.len(),
            all == views(courses@),
            views(questions@) == all_questions(all.take(i as int)),
        decreases courses.len() - i,
    {
        let mut copy = duplicate_questions(&courses[i].questions);
        let ghost before = questions@;
        let ghost added = copy@;
        questions.append(&mut copy);
        proof {
            let next = all.take(i + 1);
            assert(next.drop_last() =~= all.take(i as int));
            assert(next.last() == courses@[i as int]@);
            assert(views(before + added) =~= views(before) + views(added));
        }
        i += 1;
    }
    assert(all.take(courses.len() as int) =~= all);
    questions
}

/// The options of the questions, question after question.
pub fn options_of(questions: &Vec<QuestionData>) -> (r: Vec<QuestionOptionData>)
    ensures
        views(r@) == all_options(views(questions@)),
{
    let ghost all = views(questions@);
    let mut options: Vec<QuestionOptionData> = Vec::new();
    let mut i: usize = 0;
    assert(views(options@) =~= all_options(all.take(0)));
    while i < questions.len()
        invariant
            i <= questions.len(),
            all == views(questions@),
            views(options@) == all_options(all.take(i as int)),
        decreases questions.len() - i,
    {
        let mut copy = duplicate_options(&questions[i].question_options);
        let ghost before = options@;
        let ghost added = copy@;
        options.append(&mut copy);
        proof {
            let next = all.take(i + 1);
            assert(next.drop_last() =~= all.take(i as int));
            assert(next.last() == questions@[i as int]@);
            assert(views(before + added) =~= views(before) + views(added));
        }
        i += 1;
    }
    assert(all.take(questions.len() as int) =~= all);
    options
}

impl CurrentContent {
    /// Gathers the records of every collection: the courses, their questions,
    /// the options, topics and sources of those, the bundles and the icons.
    /// Each topic and each source stands once.
    pub fn collect(courses: Vec<CourseData>, bundles: Vec<BundleData>, icons: Vec<IconData>) -> (r:
        Self)
        ensures
            r.courses == courses,
            r.bundles == bundles,
            r.icons == icons,
            views(r.questions@) == all_questions(views(courses@)),
            views(r.question_options@) == all_options(all_questions(views(courses@))),
            views(r.question_topics@).no_duplicates(),
            forall|topic: QuestionTopicView|
                views(r.question_topics@).contains(topic) <==> #[trigger] have_topic(
                    all_questions(views(courses@)),
                    topic,
                ),
            views(r.question_sources@).no_duplicates(),
            forall|source: QuestionSourceView|
                views(r.question_sources@).contains(source) <==> #[trigger] have_source(
                    all_questions(views(courses@)),
                    source,
                ),
    {
        let questions = questions_of(&courses);
        let question_options = options_of(&questions);
        let question_topics = topics_of(&questions);
        let question_sources = sources_of(&questions);
        CurrentContent {
            courses,
            questions,
            question_options,
            question_topics,
            question_sources,
            bundles,
            icons,
        }
    }
}

} // verus!

use content_sync::bundle_data::BundleData;
use content_sync::content::CurrentContent;
use content_sync::course_data::CourseData;
use content_sync::diff::compute_sync_data;
use content_sync::icon_data::IconData;
use content_sync::question_data::QuestionData;
use content_sync::question_option_data::QuestionOptionData;
use content_sync::question_source_data::{QuestionSourceData, QuestionSourceType};
use content_sync::question_topic_data::QuestionTopicData;
use content_sync::types::{SyncData, SyncMetadata};
use content_sync::values::{Amount, CalendarDate};

fn question(course: &str, id: u128, text: &str, answer: &str) -> QuestionData {
    let option = |option_id: u128, text: &str, correct: bool| QuestionOptionData {
        id: option_id,
        question_id: id,
        text: text.to_string(),
        correct,
        reference: 0,
        preserve_case: false,
        hash: String::new(),
    };
    QuestionData {
        id,
        course_key: course.to_string(),
        source: QuestionSourceData {
            course_key: course.to_string(),
            kind: QuestionSourceType::Exam,
            name: None,
            date: Some(CalendarDate { year: 2024, month: 3, day: 5 }),
            variant: None,
        },
        text: text.to_string(),
        explanation: None,
        topic: QuestionTopicData { course_key: course.to_string(), name: "_".to_string() },
        topic_by: None,
        tags: vec![],
        image_file_name: None,
        question_options: vec![option(id * 10 + 1, answer, true), option(id * 10 + 2, "no", false)],
        hash: String::new(),
    }
}

fn course(key: &str, questions: Vec<QuestionData>) -> CourseData {
    let mut data = CourseData {
        key: key.to_string(),
        name: key.to_uppercase(),
        short_name: key.to_string(),
        description: None,
        price_in_uyu: Amount { mantissa: 0, scale: 0 },
        tags: vec![],
        image_file_name: format!("{key}.png"),
        year: None,
        order: None,
        questions,
        valid_topics: vec![],
        hash: String::new(),
    };
    data.process().unwrap();
    data
}

fn content(answer: &str) -> CurrentContent {
    let bundle = BundleData::new(
        "all".to_string(),
        "All".to_string(),
        String::new(),
        vec!["math".to_string(), "phys".to_string()],
        Amount { mantissa: 10, scale: 0 },
        "all.png".to_string(),
    )
    .unwrap();
    let icon =
        IconData::new("star".to_string(), true, None, None, "star.svg".to_string()).unwrap();

    CurrentContent::collect(
        vec![
            course(
                "math",
                vec![question("math", 1, "first?", "yes"), question("math", 2, "second?", answer)],
            ),
            course("phys", vec![question("phys", 3, "third?", "yes")]),
        ],
        vec![bundle],
        vec![icon],
    )
}

fn recorded(content: &CurrentContent) -> SyncMetadata {
    let mut metadata = SyncMetadata::new();
    for course in &content.courses {
        metadata.courses.insert(course.key.clone(), course.hash.clone());
    }
    for question in &content.questions {
        metadata.questions.insert(question.id, question.hash.clone());
    }
    for option in &content.question_options {
        metadata.question_options.insert(option.id, option.hash.clone());
    }
    for topic in &content.question_topics {
        metadata.question_topics.insert_key(topic.key());
    }
    for source in &content.question_sources {
        metadata.question_sources.insert_key(source.key());
    }
    for bundle in &content.bundles {
        metadata.bundles.insert(bundle.key.clone(), bundle.hash.clone());
    }
    for icon in &content.icons {
        metadata.icons.insert(icon.key.clone(), icon.hash.clone());
    }
    metadata
}

fn counts(data: &SyncData) -> Vec<(usize, usize)> {
    vec![
        data.courses.counts(),
        data.questions.counts(),
        data.question_options.counts(),
        data.question_topics.counts(),
        data.question_sources.counts(),
        data.bundles.counts(),
        data.icons.counts(),
    ]
}

#[test]
fn content_is_gathered_from_the_courses() {
    let content = content("yes");

    assert_eq!(content.courses.len(), 2);
    let questions: Vec<u128> = content.questions.iter().map(|q| q.id).collect();
    assert_eq!(questions, vec![1, 2, 3]);
    let options: Vec<u128> = content.question_options.iter().map(|o| o.id).collect();
    assert_eq!(options, vec![11, 12, 21, 22, 31, 32]);
    let topics: Vec<String> = content.question_topics.iter().map(|t| t.key()).collect();
    assert_eq!(topics, vec!["math::_".to_string(), "phys::_".to_string()]);
    assert_eq!(content.question_sources.len(), 2);
    assert_eq!(content.questions[1], content.courses[0].questions[1]);
}

#[test]
fn first_cycle_writes_everything() {
    let data = compute_sync_data(content("yes"), &SyncMetadata::new()).unwrap();

    assert_eq!(
        counts(&data),
        vec![(2, 0), (3, 0), (6, 0), (2, 0), (2, 0), (1, 0), (1, 0)]
    );
}

#[test]
fn cycle_without_change_writes_nothing() {
    let metadata = recorded(&content("yes"));

    let data = compute_sync_data(content("yes"), &metadata).unwrap();

    assert!(data.is_empty());
}

#[test]
fn change_of_one_option_is_written_with_its_question_and_course_alone() {
    let metadata = recorded(&content("yes"));

    let data = compute_sync_data(content("yes, always"), &metadata).unwrap();

    assert_eq!(
        counts(&data),
        vec![(1, 0), (1, 0), (1, 0), (0, 0), (0, 0), (0, 0), (0, 0)]
    );
    assert_eq!(data.courses.for_sync[0].key, "math");
    assert_eq!(data.questions.for_sync[0].id, 2);
    assert_eq!(data.question_options.for_sync[0].id, 21);
    assert_eq!(data.question_options.for_sync[0].text, "Yes, always.");
}

#[test]
fn records_that_are_gone_are_deleted() {
    let metadata = recorded(&content("yes"));
    let mut now = content("yes");
    now.courses.remove(1);
    let now = CurrentContent::collect(now.courses, now.bundles, vec![]);

    let data = compute_sync_data(now, &metadata).unwrap();

    assert_eq!(
        counts(&data),
        vec![(0, 1), (0, 1), (0, 2), (0, 1), (0, 1), (0, 0), (0, 1)]
    );
    assert_eq!(data.courses.for_deletion, vec!["phys".to_string()]);
    assert_eq!(data.questions.for_deletion, vec![3]);
    assert_eq!(data.icons.for_deletion, vec!["star".to_string()]);
}

use content_sync::course_data::CourseData;
use content_sync::error::ContentError;
use content_sync::hashing::Hashable;
use content_sync::question_data::QuestionData;
use content_sync::question_option_data::QuestionOptionData;
use content_sync::question_source_data::{QuestionSourceData, QuestionSourceType};
use content_sync::question_topic_data::QuestionTopicData;
use content_sync::values::{Amount, CalendarDate};

fn option(question_id: u128, id: u128, text: &str, correct: bool) -> QuestionOptionData {
    QuestionOptionData {
        id,
        question_id,
        text: text.to_string(),
        correct,
        reference: 0,
        preserve_case: false,
        hash: String::new(),
    }
}

fn source(kind: QuestionSourceType, date: Option<CalendarDate>) -> QuestionSourceData {
    QuestionSourceData {
        course_key: "math101".to_string(),
        kind,
        name: Some("first".to_string()),
        date,
        variant: None,
    }
}

fn question(id: u128, text: &str, topic: &str) -> QuestionData {
    QuestionData {
        id,
        course_key: "math101".to_string(),
        source: source(
            QuestionSourceType::Exam,
            Some(CalendarDate { year: 2024, month: 3, day: 5 }),
        ),
        text: text.to_string(),
        explanation: None,
        topic: QuestionTopicData { course_key: "math101".to_string(), name: topic.to_string() },
        topic_by: None,
        tags: vec![],
        image_file_name: None,
        question_options: vec![
            option(id, id * 10 + 1, "yes", true),
            option(id, id * 10 + 2, "no", false),
        ],
        hash: String::new(),
    }
}

fn course(questions: Vec<QuestionData>) -> CourseData {
    CourseData {
        key: "math101".to_string(),
        name: " Mathematics ".to_string(),
        short_name: " Math ".to_string(),
        description: Some(" first course ".to_string()),
        price_in_uyu: Amount { mantissa: 0, scale: 0 },
        tags: vec![" basic ".to_string(), " ".to_string()],
        image_file_name: "cover.png".to_string(),
        year: Some(1),
        order: None,
        questions,
        valid_topics: vec!["Limits".to_string()],
        hash: String::new(),
    }
}

#[test]
fn course_data_test_process() {
    let mut data = course(vec![question(1, "first?", "_"), question(2, "second?", "Limits")]);

    data.process().unwrap();
}

#[test]
fn course_fields_are_trimmed() {
    let mut data = course(vec![]);
    data.process().unwrap();

    assert_eq!(data.name, "Mathematics");
    assert_eq!(data.short_name, "Math");
    assert_eq!(data.description.as_deref(), Some("first course"));
    assert_eq!(data.tags, vec!["basic".to_string(), "".to_string()]);
}

#[test]
fn course_encoding_is_fields_in_order_with_question_fingerprints() {
    let mut data = course(vec![question(1, "first?", "_")]);
    data.price_in_uyu = Amount { mantissa: 12345, scale: 2 };
    data.order = Some(0x0201);
    data.process().unwrap();

    let mut expected = Vec::new();
    expected.extend_from_slice(b"keymath101nameMathematicsshort_nameMath");
    expected.extend_from_slice(b"descriptionfirst courseprice_in_uyu123.45tagsbasic");
    expected.extend_from_slice(b"image_file_namecover.pngyear");
    expected.extend_from_slice(&1u16.to_le_bytes());
    expected.extend_from_slice(b"order");
    expected.extend_from_slice(&[0x01, 0x02]);
    expected.extend_from_slice(b"questions");
    expected.extend_from_slice(data.questions[0].hash.as_bytes());
    expected.extend_from_slice(b"valid_topicsLimits");

    assert_eq!(data.to_bytes(), expected);
    assert_eq!(data.hash, blake3::hash(&expected).to_string());
    assert_eq!(data.questions[0].hash, data.questions[0].compute_hash());
}

#[test]
fn course_rules() {
    let mut without_name = course(vec![]);
    without_name.name = "  ".to_string();
    assert_eq!(without_name.process(), Err(ContentError::InvalidCourse));

    let mut without_key = course(vec![]);
    without_key.key = String::new();
    assert_eq!(without_key.process(), Err(ContentError::InvalidCourse));

    let mut with_blank_key = course(vec![]);
    with_blank_key.key = " \t".to_string();
    assert_eq!(with_blank_key.process(), Err(ContentError::InvalidCourse));
    assert_eq!(with_blank_key.hash, "");

    let mut without_short_name = course(vec![]);
    without_short_name.short_name = String::new();
    assert_eq!(without_short_name.process(), Err(ContentError::InvalidCourse));

    let mut negative = course(vec![]);
    negative.price_in_uyu = Amount { mantissa: -1, scale: 2 };
    assert_eq!(negative.process(), Err(ContentError::InvalidCoursePrice));

    let mut malformed = course(vec![]);
    malformed.price_in_uyu = Amount { mantissa: 1, scale: 40 };
    assert_eq!(malformed.process(), Err(ContentError::MalformedAmount));

    let mut free = course(vec![]);
    free.price_in_uyu = Amount { mantissa: 0, scale: 0 };
    assert_eq!(free.process(), Ok(()));
}

#[test]
fn a_question_that_fails_fails_the_course() {
    let mut bad = question(2, "second?", "_");
    bad.question_options.truncate(1);
    let mut data = course(vec![question(1, "first?", "_"), bad]);

    assert_eq!(
        data.process(),
        Err(ContentError::QuestionOptionCount { question_id: 2, count: 1 })
    );
    assert_eq!(data.hash, "");
}

#[test]
fn questions_are_sorted_by_kind_date_text_and_identifier() {
    let mut late = question(1, "alpha?", "_");
    late.source = source(
        QuestionSourceType::Exam,
        Some(CalendarDate { year: 2024, month: 6, day: 1 }),
    );
    let early = question(2, "beta?", "_");
    let mut partial = question(3, "aardvark?", "_");
    partial.source = source(
        QuestionSourceType::Partial,
        Some(CalendarDate { year: 2020, month: 1, day: 1 }),
    );
    let mut undated = question(4, "zulu?", "_");
    undated.source = source(QuestionSourceType::Other, None);
    let early_twin = question(5, "alpha?", "_");
    let mut tied = question(0, "beta?", "_");
    tied.question_options[1].text = "never".to_string();

    let mut data = course(vec![undated, partial, late, early, early_twin, tied]);
    data.process().unwrap();

    let ids: Vec<u128> = data.questions.iter().map(|q| q.id).collect();
    assert_eq!(ids, vec![5, 0, 2, 1, 3, 4]);
}

#[test]
fn questions_that_say_the_same_collapse_to_one() {
    let first = question(1, "which one?", "_");
    let mut second = question(2, "which one?", "Limits");
    second.question_options.reverse();
    second.question_options[0].id = 77;
    second.question_options[1].id = 78;

    let mut data = course(vec![second, first]);
    data.process().unwrap();

    assert_eq!(data.questions.len(), 1);
    assert_eq!(data.questions[0].id, 1);
}

#[test]
fn blank_questions_are_dropped() {
    let mut blank = question(9, "  ", "_");
    blank.question_options.clear();
    let mut blank_with_blank_option = question(8, "", "_");
    blank_with_blank_option.question_options.truncate(1);
    blank_with_blank_option.question_options[0].text = " ".to_string();

    let mut data = course(vec![blank, question(1, "first?", "_"), blank_with_blank_option]);
    data.process().unwrap();

    assert_eq!(data.questions.len(), 1);
    assert_eq!(data.questions[0].id, 1);
}

#[test]
fn order_of_questions_does_not_matter_to_the_fingerprint() {
    let mut data1 = course(vec![
        question(1, "first?", "_"),
        question(2, "second?", "_"),
        question(3, "third?", "_"),
    ]);
    let mut data2 = course(vec![
        question(3, "third?", "_"),
        question(1, "first?", "_"),
        question(2, "second?", "_"),
    ]);

    data1.process().unwrap();
    data2.process().unwrap();

    assert_eq!(data1.hash, data2.hash);
    assert_eq!(data1, data2);
}

#[test]
fn change_of_a_leaf_changes_every_ancestor_and_no_sibling() {
    let mut data1 = course(vec![question(1, "first?", "_"), question(2, "second?", "_")]);
    let mut changed = question(2, "second?", "_");
    changed.question_options[1].text = "never".to_string();
    let mut data2 = course(vec![question(1, "first?", "_"), changed]);

    data1.process().unwrap();
    data2.process().unwrap();

    assert_ne!(data1.hash, data2.hash);
    assert_ne!(data1.questions[1].hash, data2.questions[1].hash);
    assert_eq!(data1.questions[0].hash, data2.questions[0].hash);
    assert_eq!(data1.questions[0], data2.questions[0]);
}

#[test]
fn processing_a_course_twice_changes_nothing() {
    let mut data = course(vec![
        question(2, " second  ?", "_"),
        question(1, "first?", "_"),
        question(3, "first?", "_"),
    ]);

    data.process().unwrap();
    let once = data.clone();
    data.process().unwrap();

    assert_eq!(data, once);
}

#[test]
fn replace_question_processes_the_course_anew() {
    let mut data = course(vec![question(1, "first?", "_"), question(2, "second?", "_")]);
    data.process().unwrap();
    let before = data.clone();

    assert!(data.has_question(2));
    assert!(!data.has_question(3));
    assert_eq!(data.find_question(2), 1);
    assert_eq!(data.find_question(3), 2);

    data.replace_question(question(2, "a new text?", "_")).unwrap();

    assert_eq!(data.questions.len(), 2);
    assert_eq!(data.questions[0].id, 2);
    assert_eq!(data.questions[0].text, "a new text?");
    assert_eq!(data.questions[1], before.questions[0]);
    assert_ne!(data.hash, before.hash);
    assert_eq!(data.hash, data.compute_hash());
}

#[test]
fn topics_and_sources_of_the_questions_are_listed_once() {
    let mut other_source = question(3, "third?", "Limits");
    other_source.source = source(QuestionSourceType::Other, None);
    let data = course(vec![
        question(1, "first?", "_"),
        question(2, "second?", "Limits"),
        other_source,
        question(4, "fourth?", "_"),
    ]);

    let topics = data.question_topics();
    let names: Vec<&str> = topics.iter().map(|topic| topic.name.as_str()).collect();
    assert_eq!(names, vec!["_", "Limits"]);

    let sources = data.question_sources();
    assert_eq!(sources.len(), 2);
    assert_eq!(sources[0], data.questions[0].source);
    assert_eq!(sources[1], data.questions[2].source);
}

#[test]
fn questions_with_invalid_topics_are_found() {
    let data = course(vec![
        question(1, "first?", "_"),
        question(2, "second?", "Limits"),
        question(3, "third?", "Series"),
        question(4, "fourth?", "limits"),
    ]);

    let found: Vec<u128> = data
        .questions_with_invalid_topics()
        .iter()
        .map(|question| question.id)
        .collect();

    assert_eq!(found, vec![3, 4]);
    assert!(data.is_valid_topic("Limits"));
    assert!(!data.is_valid_topic("Series"));
}

#[test]
fn course_image_path() {
    let data = course(vec![]);

    assert_eq!(data.full_image_path(), "math101/cover.png");
}

#[test]
fn course_new_processes_the_course() {
    let data = CourseData::new(
        "math101".to_string(),
        " Mathematics ".to_string(),
        "Math".to_string(),
        None,
        Amount { mantissa: 100, scale: 0 },
        vec![],
        "cover.png".to_string(),
        None,
        None,
        vec![question(1, "first?", "_")],
        vec![],
    )
    .unwrap();

    assert_eq!(data.name, "Mathematics");
    assert_eq!(data.hash.len(), 64);
    assert_eq!(data.questions[0].question_options[0].text, "Yes.");
}

#[test]
fn refreshing_through_the_trait_stores_every_fingerprint() {
    let mut data = course(vec![question(1, "first?", "_")]);
    data.canonicalize();
    assert_eq!(data.stored_hash(), None);

    assert!(Hashable::refresh_hash(&mut data));

    assert_eq!(data.hash, data.compute_hash());
    assert_eq!(data.questions[0].hash, data.questions[0].compute_hash());
    assert_eq!(Hashable::hash(&data), data.hash);
}

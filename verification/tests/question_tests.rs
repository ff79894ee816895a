use content_sync::error::ContentError;
use content_sync::explanation_data::ExplanationData;
use content_sync::hashing::Hashable;
use content_sync::question_data::QuestionData;
use content_sync::question_option_data::QuestionOptionData;
use content_sync::question_source_data::{QuestionSourceData, QuestionSourceType};
use content_sync::question_topic_data::QuestionTopicData;
use content_sync::values::{CalendarDate, Timestamp};

const QUESTION_ID: u128 = 0x00112233_4455_6677_8899_aabbccddeeff;

fn option(id: u128, text: &str, correct: bool) -> QuestionOptionData {
    QuestionOptionData {
        id,
        question_id: QUESTION_ID,
        text: text.to_string(),
        correct,
        reference: 0,
        preserve_case: false,
        hash: String::new(),
    }
}

fn source() -> QuestionSourceData {
    QuestionSourceData {
        course_key: "math101".to_string(),
        kind: QuestionSourceType::Exam,
        name: None,
        date: Some(CalendarDate { year: 2024, month: 3, day: 5 }),
        variant: None,
    }
}

fn question(text: &str, options: Vec<QuestionOptionData>) -> QuestionData {
    QuestionData {
        id: QUESTION_ID,
        course_key: "math101".to_string(),
        source: source(),
        text: text.to_string(),
        explanation: None,
        topic: QuestionTopicData { course_key: "math101".to_string(), name: "_".to_string() },
        topic_by: None,
        tags: vec![],
        image_file_name: None,
        question_options: options,
        hash: String::new(),
    }
}

fn options_with_correct(count: usize, correct: usize) -> Vec<QuestionOptionData> {
    (0..count)
        .map(|index| option(index as u128 + 1, &format!("answer {index}"), index < correct))
        .collect()
}

#[test]
fn test_check() {
    let data = QuestionData {
        id: QUESTION_ID,
        course_key: "course".to_string(),
        source: QuestionSourceData {
            course_key: "course".to_string(),
            kind: QuestionSourceType::Other,
            name: Some("source".to_string()),
            date: None,
            variant: None,
        },
        text: "text".to_string(),
        explanation: None,
        topic: QuestionTopicData { course_key: "course".to_string(), name: "eva".to_string() },
        topic_by: None,
        tags: vec![],
        image_file_name: None,
        question_options: vec![],
        hash: String::new(),
    };

    assert!(data.check().is_err());
}

#[test]
fn question_data_test_process() {
    let mut data = question("¿what  is it ?", options_with_correct(4, 0));
    data.prepare_for_test().unwrap();

    assert_eq!(data.text, "¿what is it?");
    assert!(data.question_options[0].correct);
    assert!(data.question_options.iter().all(|option| option.question_id == QUESTION_ID));
}

#[test]
fn test_blank_option() {
    const INITIAL_QUESTION_OPTION_COUNT: usize = 3;
    let mut data = question("which one?", options_with_correct(INITIAL_QUESTION_OPTION_COUNT, 0));

    data.prepare_for_test().unwrap();
    data.question_options.last_mut().unwrap().text = "".into();
    data.process().unwrap();

    assert_eq!(
        data.question_options.len(),
        INITIAL_QUESTION_OPTION_COUNT - 1
    );
}

#[test]
fn test_deduplicate() {
    for size in 3..=5usize {
        let mut options = options_with_correct(size, 0);
        for (index, option) in options.iter_mut().enumerate() {
            if index != 0 {
                option.text = "same_text".to_string();
            }
        }
        let mut data = question("which one?", options);

        data.prepare_for_test().unwrap();

        assert_eq!(data.question_options.len(), 2);
    }
}

#[test]
fn question_with_one_option_fails() {
    let mut data = question("which one?", options_with_correct(1, 1));

    assert_eq!(
        data.process(),
        Err(ContentError::QuestionOptionCount { question_id: QUESTION_ID, count: 1 })
    );
    assert_eq!(data.hash, "");
}

#[test]
fn question_with_two_options_one_correct_passes() {
    let mut data = question("which one?", options_with_correct(2, 1));

    assert_eq!(data.process(), Ok(()));
    assert_eq!(data.hash.len(), 64);
}

#[test]
fn question_with_two_correct_options_among_three_fails() {
    let mut data = question("which one?", options_with_correct(3, 2));

    assert_eq!(
        data.process(),
        Err(ContentError::CorrectOptionCount { question_id: QUESTION_ID, count: 2 })
    );
}

#[test]
fn question_with_no_correct_option_fails() {
    let mut data = question("which one?", options_with_correct(3, 0));

    assert_eq!(
        data.process(),
        Err(ContentError::CorrectOptionCount { question_id: QUESTION_ID, count: 0 })
    );
}

#[test]
fn question_with_six_options_fails() {
    let mut data = question("which one?", options_with_correct(6, 1));

    assert_eq!(
        data.process(),
        Err(ContentError::QuestionOptionCount { question_id: QUESTION_ID, count: 6 })
    );
}

#[test]
fn question_with_five_options_passes() {
    let mut data = question("which one?", options_with_correct(5, 1));

    assert_eq!(data.process(), Ok(()));
}

#[test]
fn question_with_two_options_of_one_text_fails() {
    let first = option(1, "same", true);
    let second = option(2, "same", false);
    let mut data = question("which one?", vec![first, second, option(3, "other", false)]);

    assert_eq!(
        data.process(),
        Err(ContentError::DuplicateQuestionOption { question_id: QUESTION_ID })
    );
}

#[test]
fn blank_question_passes_the_check() {
    let mut data = question("  ", vec![option(1, " ", false)]);

    assert_eq!(data.process(), Ok(()));
    assert!(data.is_blank());
}

#[test]
fn question_without_text_but_with_options_is_checked() {
    let mut data = question("", options_with_correct(1, 1));

    assert!(!data.is_blank());
    assert_eq!(
        data.process(),
        Err(ContentError::QuestionOptionCount { question_id: QUESTION_ID, count: 1 })
    );
}

#[test]
fn options_are_sorted_correct_first_then_by_text() {
    let mut data = question(
        "which one?",
        vec![
            option(1, "pear", false),
            option(2, "zebra", true),
            option(3, "apple", false),
            option(4, "Banana", false),
        ],
    );

    data.process().unwrap();

    let texts: Vec<&str> = data.question_options.iter().map(|o| o.text.as_str()).collect();
    assert_eq!(texts, vec!["Zebra.", "Apple.", "Banana.", "Pear."]);
}

#[test]
fn order_of_options_does_not_matter_to_the_fingerprint() {
    let mut data1 = question(
        "which one?",
        vec![option(1, "pear", false), option(2, "zebra", true), option(3, "apple", false)],
    );
    let mut data2 = question(
        "which one?",
        vec![option(3, "apple", false), option(1, "pear", false), option(2, "zebra", true)],
    );

    data1.process().unwrap();
    data2.process().unwrap();

    assert_eq!(data1.hash, data2.hash);
    assert_eq!(data1, data2);
}

#[test]
fn change_of_an_option_changes_the_question_but_not_the_other_options() {
    let mut data1 = question(
        "which one?",
        vec![option(1, "apple", true), option(2, "pear", false), option(3, "plum", false)],
    );
    let mut data2 = question(
        "which one?",
        vec![option(1, "apple", true), option(2, "pear", false), option(3, "plums", false)],
    );

    data1.process().unwrap();
    data2.process().unwrap();

    assert_ne!(data1.hash, data2.hash);
    assert_ne!(data1.question_options[2].hash, data2.question_options[2].hash);
    assert_eq!(data1.question_options[0].hash, data2.question_options[0].hash);
    assert_eq!(data1.question_options[1].hash, data2.question_options[1].hash);
}

#[test]
fn processing_a_question_twice_changes_nothing() {
    let mut data = question(
        "  which   one ?",
        vec![option(1, " pear ", false), option(2, "zebra", true), option(3, "pear.", false)],
    );
    data.tags = vec![" a ".to_string(), "  ".to_string()];
    data.explanation = Some(ExplanationData {
        text: " because ".to_string(),
        by: "ann".to_string(),
        date: Timestamp { seconds: 1_700_000_000, nanoseconds: 0 },
        hash: String::new(),
    });

    data.process().unwrap();
    let once = data.clone();
    data.process().unwrap();

    assert_eq!(data, once);
    assert_eq!(data.tags, vec!["a".to_string()]);
    assert_eq!(data.question_options.len(), 2);
}

#[test]
fn question_encoding_is_fields_in_order_with_option_fingerprints() {
    let mut data = question(
        "which one?",
        vec![option(1, "apple", true), option(2, "pear", false)],
    );
    data.topic_by = Some("ann".to_string());
    data.tags = vec!["x".to_string(), "y".to_string()];
    data.image_file_name = Some("q.png".to_string());
    data.explanation = Some(ExplanationData {
        text: "because".to_string(),
        by: "ann".to_string(),
        date: Timestamp { seconds: 0, nanoseconds: 0 },
        hash: String::new(),
    });
    data.process().unwrap();

    let mut expected = Vec::new();
    expected.extend_from_slice(b"id");
    expected.extend_from_slice(&QUESTION_ID.to_be_bytes());
    expected.extend_from_slice(b"course_keymath101");
    expected.extend_from_slice(b"sourcemath101::exam::!::2024-03-05::!");
    expected.extend_from_slice(b"textwhich one?");
    expected.extend_from_slice(b"explanationtextbecausebyanndate1970-01-01T00:00:00+00:00");
    expected.extend_from_slice(b"topicmath101::_");
    expected.extend_from_slice(b"topic_byann");
    expected.extend_from_slice(b"tagsxy");
    expected.extend_from_slice(b"image_file_nameq.png");
    expected.extend_from_slice(b"question_options");
    expected.extend_from_slice(data.question_options[0].hash.as_bytes());
    expected.extend_from_slice(data.question_options[1].hash.as_bytes());

    assert_eq!(data.to_bytes(), expected);
    assert_eq!(data.hash, blake3::hash(&expected).to_string());
    assert_eq!(
        data.explanation.as_ref().unwrap().hash,
        data.explanation.as_ref().unwrap().compute_hash()
    );
}

#[test]
fn question_text_is_formatted_without_forced_capital() {
    let mut data = question("  which   one ?", options_with_correct(2, 1));
    data.process().unwrap();

    assert_eq!(data.text, "which one?");
}

#[test]
fn question_new_makes_the_topic_from_its_name() {
    let data = QuestionData::new(
        QUESTION_ID,
        "math101".to_string(),
        "which one?".to_string(),
        None,
        " limits. ".to_string(),
        None,
        vec![],
        Some("q.png".to_string()),
        options_with_correct(2, 1),
        source(),
    )
    .unwrap();

    assert_eq!(data.topic.name, "Limits");
    assert_eq!(data.topic_key(), "math101::Limits");
    assert_eq!(data.source_key(), "math101::exam::!::2024-03-05::!");
    assert_eq!(data.full_image_path(), Some("math101/q.png".to_string()));
}

#[test]
fn question_new_reports_what_the_check_says() {
    let result = QuestionData::new(
        QUESTION_ID,
        "math101".to_string(),
        "which one?".to_string(),
        None,
        "limits".to_string(),
        None,
        vec![],
        None,
        options_with_correct(1, 1),
        source(),
    );

    assert_eq!(
        result,
        Err(ContentError::QuestionOptionCount { question_id: QUESTION_ID, count: 1 })
    );
}

#[test]
fn question_with_an_invalid_source_is_rejected() {
    let mut data = question("which one?", options_with_correct(2, 1));
    data.source.date = None;

    assert_eq!(data.process(), Err(ContentError::InvalidQuestionSource));
}

#[test]
fn set_topic_formats_the_name_and_processes() {
    let mut data = question("which one?", options_with_correct(2, 1));
    data.process().unwrap();
    let before = data.hash.clone();

    data.set_topic(" series. ".to_string(), Some("ann".to_string())).unwrap();

    assert_eq!(data.topic.name, "Series");
    assert_eq!(data.topic_by.as_deref(), Some("ann"));
    assert_ne!(data.hash, before);
    assert_eq!(data.hash, data.compute_hash());
}

#[test]
fn set_explanation_processes_or_leaves_the_question() {
    let mut data = question("which one?", options_with_correct(2, 1));
    data.process().unwrap();
    let before = data.clone();

    let date = Timestamp { seconds: 1_700_000_000, nanoseconds: 0 };
    assert_eq!(
        data.set_explanation(" ".to_string(), "ann".to_string(), date),
        Err(ContentError::InvalidExplanation)
    );
    assert_eq!(data, before);

    data.set_explanation(" because ".to_string(), "ann".to_string(), date).unwrap();
    assert_eq!(data.explanation.as_ref().unwrap().text, "because");
    assert_ne!(data.hash, before.hash);
}

#[test]
fn eq_data_ignores_identifiers_and_order_of_options() {
    let data1 = question(
        "which one?",
        vec![option(1, "apple", true), option(2, "pear", false)],
    );
    let mut data2 = question(
        "which one?",
        vec![option(7, "pear", false), option(8, "apple", true)],
    );
    data2.id = QUESTION_ID + 1;

    assert!(data1.eq_data(&data2));

    data2.question_options[0].text = "plum".to_string();
    assert!(!data1.eq_data(&data2));

    let data3 = question("which two?", data1.question_options.clone());
    assert!(!data1.eq_data(&data3));
}

#[test]
fn question_as_it_is_shown() {
    let mut first = option(1, "Apple.", true);
    first.reference = 0;
    let mut second = option(2, "Pear.", false);
    second.reference = 1;
    let mut third = option(3, "Plum.", false);
    third.reference = 25;
    let data = question("Which one?", vec![first, second, third]);

    assert_eq!(data.to_text(), "Which one?\n\na. Apple.\nb. Pear.\nz. Plum.");
    assert_eq!(data.question_options[0].to_text(), "Apple.");
    assert_eq!(question("Which one?", vec![]).to_text(), "Which one?\n");
}

#[test]
fn steps_of_the_options_one_by_one() {
    let mut data = question(
        "which one?",
        vec![
            option(1, "Pear.", false),
            option(2, "", false),
            option(3, "Apple.", true),
            option(4, "Pear.", false),
        ],
    );

    data.clean();
    assert_eq!(data.question_options.len(), 3);

    data.sort_options();
    let ids: Vec<u128> = data.question_options.iter().map(|o| o.id).collect();
    assert_eq!(ids, vec![3, 1, 4]);

    data.deduplicate_options();
    let ids: Vec<u128> = data.question_options.iter().map(|o| o.id).collect();
    assert_eq!(ids, vec![3, 1]);
}

#[test]
fn order_of_options_that_say_the_same_does_not_matter() {
    let mut data1 = question(
        "which one?",
        vec![option(9, "pear", false), option(2, "apple", true), option(4, "pear", false)],
    );
    let mut data2 = question(
        "which one?",
        vec![option(4, "pear", false), option(9, "pear", false), option(2, "apple", true)],
    );

    data1.process().unwrap();
    data2.process().unwrap();

    let ids: Vec<u128> = data1.question_options.iter().map(|o| o.id).collect();
    assert_eq!(ids, vec![2, 4]);
    assert_eq!(data1, data2);
    assert_eq!(data1.hash, data2.hash);
}

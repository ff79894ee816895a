use content_sync::bundle_data::BundleData;
use content_sync::course_evaluation_data::CourseEvaluationData;
use content_sync::error::{ContentError, ErrorKind};
use content_sync::explanation_data::ExplanationData;
use content_sync::hashing::Hashable;
use content_sync::icon_data::IconData;
use content_sync::question_source_data::{QuestionSourceData, QuestionSourceType};
use content_sync::question_topic_data::QuestionTopicData;
use content_sync::values::{Amount, CalendarDate, Timestamp};

fn sample_source() -> QuestionSourceData {
    QuestionSourceData {
        course_key: "math101".to_string(),
        kind: QuestionSourceType::Partial,
        name: Some(" first ".to_string()),
        date: Some(CalendarDate { year: 2024, month: 3, day: 5 }),
        variant: None,
    }
}

#[test]
fn test_format() {
    let mut data = QuestionTopicData {
        course_key: "math101".to_string(),
        name: " topic 1. ".to_string(),
    };
    data.format();

    assert_eq!(data.name, "Topic 1");
}

#[test]
fn topic_key_joins_course_and_name() {
    let data = QuestionTopicData::new("math101".to_string(), "limits.".to_string()).unwrap();

    assert_eq!(data.name, "Limits");
    assert_eq!(data.key(), "math101::Limits");
    assert_eq!(data.to_bytes(), b"math101::Limits".to_vec());
    assert!(!data.is_blank());
    assert!(!data.is_default());
}

#[test]
fn topic_default_and_blank() {
    let default_topic = QuestionTopicData::new("math101".to_string(), "_".to_string()).unwrap();
    assert!(default_topic.is_default());
    assert!(QuestionTopicData::is_default_topic_name("_"));
    assert!(!QuestionTopicData::is_default_topic_name("__"));
    assert!(!QuestionTopicData::is_default_topic_name(""));

    let blank = QuestionTopicData::new("math101".to_string(), " . ".to_string()).unwrap();
    assert!(blank.is_blank());
}

#[test]
fn question_source_data_test_process() {
    let mut data = sample_source();
    data.kind = QuestionSourceType::Exam;
    data.date = None;

    assert!(data.process().is_err());
}

#[test]
fn source_rules_by_kind() {
    let mut partial_without_name = sample_source();
    partial_without_name.name = None;
    assert_eq!(
        partial_without_name.process(),
        Err(ContentError::InvalidQuestionSource)
    );

    let mut partial_without_date = sample_source();
    partial_without_date.date = None;
    assert_eq!(
        partial_without_date.process(),
        Err(ContentError::InvalidQuestionSource)
    );

    let mut exam_without_name = sample_source();
    exam_without_name.kind = QuestionSourceType::Exam;
    exam_without_name.name = None;
    assert_eq!(exam_without_name.process(), Ok(()));

    let mut other = sample_source();
    other.kind = QuestionSourceType::Other;
    other.name = None;
    other.date = None;
    assert_eq!(other.process(), Ok(()));

    let mut self_assessment = sample_source();
    self_assessment.kind = QuestionSourceType::SelfAssessment;
    self_assessment.date = None;
    assert_eq!(self_assessment.process(), Ok(()));
}

#[test]
fn source_with_a_day_that_does_not_exist_is_malformed() {
    let mut data = sample_source();
    data.date = Some(CalendarDate { year: 2023, month: 2, day: 29 });

    let error = data.process().unwrap_err();
    assert_eq!(error, ContentError::MalformedDate);
    assert_eq!(error.kind(), ErrorKind::MalformedInput);
}

#[test]
fn source_key_names_every_part() {
    let data = QuestionSourceData::new(
        "math101".to_string(),
        QuestionSourceType::Partial,
        Some(" first ".to_string()),
        Some(CalendarDate { year: 2024, month: 3, day: 5 }),
        None,
    )
    .unwrap();

    assert_eq!(data.name.as_deref(), Some("first"));
    assert_eq!(data.key(), "math101::partial::first::2024-03-05::!");
    assert_eq!(data.to_bytes(), b"math101::partial::first::2024-03-05::!".to_vec());

    let other = QuestionSourceData::new(
        "math101".to_string(),
        QuestionSourceType::SelfAssessment,
        None,
        None,
        Some("b".to_string()),
    )
    .unwrap();

    assert_eq!(other.key(), "math101::self_assessment::!::!::b");
}

#[test]
fn source_kind_names_and_ranks() {
    assert_eq!(QuestionSourceType::Exam.name(), "exam");
    assert_eq!(QuestionSourceType::Other.name(), "other");
    assert!(QuestionSourceType::Exam.rank() < QuestionSourceType::Partial.rank());
    assert!(QuestionSourceType::Partial.rank() < QuestionSourceType::SelfAssessment.rank());
    assert!(QuestionSourceType::SelfAssessment.rank() < QuestionSourceType::Other.rank());
}

#[test]
fn source_same_as_and_duplicate() {
    let data = sample_source();
    let copy = data.duplicate();
    assert!(data.same_as(&copy));
    assert_eq!(data, copy);

    let mut other = sample_source();
    other.variant = Some("b".to_string());
    assert!(!data.same_as(&other));
}

#[test]
fn explanation_data_test_process() {
    let mut data = ExplanationData {
        text: " because ".to_string(),
        by: " ann ".to_string(),
        date: Timestamp { seconds: 1_700_000_000, nanoseconds: 0 },
        hash: String::new(),
    };

    data.process().unwrap();

    assert_eq!(data.text, "because");
    assert_eq!(data.by, "ann");
}

#[test]
fn explanation_encoding_holds_the_instant_in_rfc3339() {
    let data = ExplanationData::new(
        "because".to_string(),
        "ann".to_string(),
        Timestamp { seconds: 1_704_067_200, nanoseconds: 500_000_000 },
    )
    .unwrap();

    let expected = b"textbecausebyanndate2024-01-01T00:00:00.500+00:00".to_vec();

    assert_eq!(data.to_bytes(), expected);
    assert_eq!(data.hash, blake3::hash(&expected).to_string());
}

#[test]
fn explanation_without_text_or_author_is_rejected() {
    let date = Timestamp { seconds: 0, nanoseconds: 0 };

    assert_eq!(
        ExplanationData::new("  ".to_string(), "ann".to_string(), date),
        Err(ContentError::InvalidExplanation)
    );
    assert_eq!(
        ExplanationData::new("because".to_string(), "".to_string(), date),
        Err(ContentError::InvalidExplanation)
    );
    assert_eq!(
        ExplanationData::new(
            "because".to_string(),
            "ann".to_string(),
            Timestamp { seconds: 0, nanoseconds: 1_000_000_000 }
        ),
        Err(ContentError::MalformedTimestamp)
    );
}

#[test]
fn bundle_is_formatted_checked_and_fingerprinted() {
    let data = BundleData::new(
        " all ".to_string(),
        " Everything ".to_string(),
        " every course ".to_string(),
        vec!["math101".to_string(), "phys101".to_string()],
        Amount { mantissa: 1250, scale: 2 },
        "all.png".to_string(),
    )
    .unwrap();

    let expected =
        b"keyallnameEverythingdescriptionevery coursecourse_keysmath101phys101discount12.50image_file_nameall.png"
            .to_vec();

    assert_eq!(data.key, "all");
    assert_eq!(data.to_bytes(), expected);
    assert_eq!(data.hash, blake3::hash(&expected).to_string());
    assert_eq!(data.full_image_path(), "bundles/all.png");
}

#[test]
fn bundle_rules() {
    let make = |name: &str, discount: Amount| {
        BundleData::new(
            "all".to_string(),
            name.to_string(),
            String::new(),
            vec![],
            discount,
            "all.png".to_string(),
        )
    };

    assert_eq!(
        make(" ", Amount { mantissa: 1, scale: 0 }),
        Err(ContentError::InvalidBundleName)
    );
    assert_eq!(
        make("All", Amount { mantissa: 0, scale: 0 }),
        Err(ContentError::InvalidBundleDiscount)
    );
    assert_eq!(
        make("All", Amount { mantissa: -5, scale: 1 }),
        Err(ContentError::InvalidBundleDiscount)
    );
    assert_eq!(
        make("All", Amount { mantissa: 5, scale: 29 }),
        Err(ContentError::MalformedAmount)
    );
    assert!(make("All", Amount { mantissa: 5, scale: 1 }).is_ok());
}

#[test]
fn icon_is_formatted_checked_and_fingerprinted() {
    let data = IconData::new(
        " star ".to_string(),
        true,
        Some(" a  gold   star ".to_string()),
        Some(Amount { mantissa: 99, scale: 0 }),
        "star.svg".to_string(),
    )
    .unwrap();

    let expected =
        b"keystaris_initialtruedescriptiona gold starprice_in_uyu99image_file_namestar.svg"
            .to_vec();

    assert_eq!(data.to_bytes(), expected);
    assert_eq!(data.hash, blake3::hash(&expected).to_string());
    assert_eq!(data.full_image_path(), "icons/star.svg");
}

#[test]
fn icon_without_description_and_price_contributes_no_bytes_for_them() {
    let data = IconData::new("star".to_string(), false, None, None, "star.svg".to_string())
        .unwrap();

    assert_eq!(
        data.to_bytes(),
        b"keystaris_initialfalsedescriptionprice_in_uyuimage_file_namestar.svg".to_vec()
    );
}

#[test]
fn icon_price_has_to_be_above_zero() {
    let make = |price: Amount| {
        IconData::new("star".to_string(), false, None, Some(price), "star.svg".to_string())
    };

    assert_eq!(
        make(Amount { mantissa: 0, scale: 0 }),
        Err(ContentError::InvalidIconPrice)
    );
    assert_eq!(
        make(Amount { mantissa: -1, scale: 0 }),
        Err(ContentError::InvalidIconPrice)
    );
    assert!(make(Amount { mantissa: 1, scale: 2 }).is_ok());
}

#[test]
fn evaluation_encoding_and_keys() {
    let data = CourseEvaluationData::new(
        "final".to_string(),
        "math101".to_string(),
        "Final exam".to_string(),
        -2,
    )
    .unwrap();

    let mut expected = b"math101Final exam".to_vec();
    expected.extend_from_slice(&(-2i16).to_be_bytes());

    assert_eq!(data.hashable_data(), expected);
    assert_eq!(data.to_bytes(), expected);
    assert_eq!(data.hash, blake3::hash(&expected).to_string());
    assert_eq!(data.full_key(), "math101/final");
    assert_eq!(CourseEvaluationData::do_full_key("a", "b"), "a/b");

    let positive =
        CourseEvaluationData::new("k".to_string(), "c".to_string(), "n".to_string(), 258)
            .unwrap();
    assert_eq!(positive.hashable_data(), vec![b'c', b'n', 1, 2]);
}

#[test]
fn error_kinds() {
    assert_eq!(
        ContentError::QuestionOptionCount { question_id: 1, count: 1 }.kind(),
        ErrorKind::Validation
    );
    assert_eq!(ContentError::InvalidCourse.kind(), ErrorKind::Validation);
    assert_eq!(ContentError::DuplicateKey.kind(), ErrorKind::DuplicateKey);
    assert_eq!(ContentError::AssetRename.kind(), ErrorKind::AssetRename);
    assert_eq!(ContentError::MalformedAmount.kind(), ErrorKind::MalformedInput);
    assert_eq!(ContentError::MalformedTimestamp.kind(), ErrorKind::MalformedInput);
}

#[test]
fn records_without_a_fingerprint_of_their_own_store_none() {
    let mut topic = QuestionTopicData::new("math101".to_string(), "limits".to_string()).unwrap();

    assert_eq!(topic.stored_hash(), None);
    assert!(!topic.store_hash("h".to_string()));
    assert!(!topic.refresh_hash());
    assert_eq!(topic.hash(), blake3::hash(b"math101::Limits").to_string());

    let mut source = sample_source();
    assert!(!source.refresh_hash());
    assert_eq!(source.stored_hash(), None);
    assert_eq!(
        source.compute_hash(),
        blake3::hash(b"math101::partial:: first ::2024-03-05::!").to_string()
    );
}

#[test]
fn stored_fingerprint_is_a_memo_until_it_is_refreshed() {
    let mut data = CourseEvaluationData::new(
        "final".to_string(),
        "math101".to_string(),
        "Final exam".to_string(),
        1,
    )
    .unwrap();
    let print = data.compute_hash();

    assert_eq!(data.stored_hash(), Some(print.as_str()));

    data.name = "Final".to_string();
    assert_eq!(data.stored_hash(), Some(print.as_str()));
    assert_ne!(data.hash(), print);
    assert_eq!(data.hash(), data.compute_hash());

    assert!(Hashable::refresh_hash(&mut data));
    assert_eq!(data.hash, data.compute_hash());

    assert!(data.store_hash(String::new()));
    assert_eq!(data.stored_hash(), None);
    assert_eq!(data.hash(), data.compute_hash());
}

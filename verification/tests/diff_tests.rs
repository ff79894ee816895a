use content_sync::bundle_data::BundleData;
use content_sync::content::CurrentContent;
use content_sync::diff::{compute_sync_data, diff};
use content_sync::question_source_data::{QuestionSourceData, QuestionSourceType};
use content_sync::error::ContentError;
use content_sync::question_option_data::QuestionOptionData;
use content_sync::question_topic_data::QuestionTopicData;
use content_sync::types::{ElementSyncData, SyncData, SyncMetadata, SyncRecords};
use content_sync::values::{Amount, CalendarDate};

fn bundle(key: &str, hash: &str) -> BundleData {
    BundleData {
        key: key.to_string(),
        name: key.to_uppercase(),
        description: String::new(),
        course_keys: vec![],
        discount: Amount { mantissa: 10, scale: 0 },
        image_file_name: format!("{key}.png"),
        hash: hash.to_string(),
    }
}

fn records(pairs: &[(&str, &str)]) -> SyncRecords<String> {
    let mut records = SyncRecords::new();
    for (key, hash) in pairs {
        records.insert(key.to_string(), hash.to_string());
    }
    records
}

#[test]
fn diff_of_a_and_b_against_a_and_c() {
    let current = vec![bundle("a", "h1"), bundle("b", "h2")];
    let previous = records(&[("a", "h1"), ("c", "h3")]);

    let data = diff(current, &previous).unwrap();

    let for_sync: Vec<&str> = data.for_sync.iter().map(|b| b.key.as_str()).collect();
    assert_eq!(for_sync, vec!["b"]);
    assert_eq!(data.for_deletion, vec!["c".to_string()]);
    assert!(!data.for_sync.iter().any(|b| b.key == "a"));
    assert!(!data.for_deletion.contains(&"a".to_string()));
}

#[test]
fn a_changed_fingerprint_is_synchronized() {
    let current = vec![bundle("a", "h1"), bundle("b", "h2"), bundle("c", "h3")];
    let previous = records(&[("c", "h3"), ("b", "old"), ("a", "h1")]);

    let data = diff(current, &previous).unwrap();

    assert_eq!(data.for_sync, vec![bundle("b", "h2")]);
    assert!(data.for_deletion.is_empty());
    assert_eq!(data.counts(), (1, 0));
}

#[test]
fn nothing_recorded_means_everything_is_written() {
    let current = vec![bundle("a", "h1"), bundle("b", "h2")];

    let data = diff(current.clone(), &SyncRecords::new()).unwrap();

    assert_eq!(data.for_sync, current);
    assert!(data.for_deletion.is_empty());
}

#[test]
fn no_records_now_means_everything_recorded_is_deleted() {
    let previous = records(&[("a", "h1"), ("c", "h3")]);

    let data = diff(Vec::<BundleData>::new(), &previous).unwrap();

    assert!(data.for_sync.is_empty());
    assert_eq!(data.for_deletion, vec!["a".to_string(), "c".to_string()]);
}

#[test]
fn unchanged_records_give_an_empty_difference() {
    let current = vec![bundle("a", "h1"), bundle("b", "h2")];
    let previous = records(&[("b", "h2"), ("a", "h1")]);

    let data = diff(current, &previous).unwrap();

    assert!(data.is_empty());
}

#[test]
fn two_records_with_one_key_are_an_error() {
    let current = vec![bundle("a", "h1"), bundle("b", "h2"), bundle("a", "h3")];

    assert_eq!(
        diff(current, &SyncRecords::new()),
        Err(ContentError::DuplicateKey)
    );
}

#[test]
fn diff_twice_gives_the_same() {
    let current = vec![bundle("a", "h1"), bundle("b", "h2"), bundle("d", "h4")];
    let previous = records(&[("a", "h0"), ("c", "h3"), ("e", "h5")]);

    let first = diff(current.clone(), &previous).unwrap();
    let second = diff(current, &previous).unwrap();

    assert_eq!(first, second);
    assert_eq!(first.counts(), (3, 2));
}

#[test]
fn options_are_keyed_by_identifier() {
    let option = |id: u128, hash: &str| QuestionOptionData {
        id,
        question_id: 1,
        text: "yes".to_string(),
        correct: true,
        reference: 0,
        preserve_case: false,
        hash: hash.to_string(),
    };
    let mut previous: SyncRecords<u128> = SyncRecords::new();
    previous.insert(1, "h1".to_string());
    previous.insert(3, "h3".to_string());

    let data = diff(vec![option(1, "h1"), option(2, "h2")], &previous).unwrap();

    assert_eq!(data.for_sync, vec![option(2, "h2")]);
    assert_eq!(data.for_deletion, vec![3]);
}

#[test]
fn topics_are_compared_by_key_alone() {
    let topic = |name: &str| QuestionTopicData {
        course_key: "math101".to_string(),
        name: name.to_string(),
    };
    let mut previous: SyncRecords<String> = SyncRecords::new();
    previous.insert_key("math101::Limits".to_string());
    previous.insert_key("math101::Series".to_string());

    let data = diff(vec![topic("Limits"), topic("Sets")], &previous).unwrap();

    assert_eq!(data.for_sync, vec![topic("Sets")]);
    assert_eq!(data.for_deletion, vec!["math101::Series".to_string()]);
}

#[test]
fn records_behave_as_a_map() {
    let mut records: SyncRecords<String> = SyncRecords::new();
    assert_eq!(records.len(), 0);
    assert_eq!(records.get(&"a".to_string()), None);

    records.insert("a".to_string(), "h1".to_string());
    records.insert("b".to_string(), "h2".to_string());
    records.insert("a".to_string(), "h3".to_string());

    assert_eq!(records.len(), 2);
    assert_eq!(records.get(&"a".to_string()), Some(&"h3".to_string()));
    assert_eq!(records.get(&"b".to_string()), Some(&"h2".to_string()));
    assert!(records.contains_key(&"b".to_string()));
    assert!(!records.contains_key(&"c".to_string()));
}

#[test]
fn empty_sync_data_and_metadata() {
    let data = SyncData::new();
    assert!(data.is_empty());

    let element: ElementSyncData<BundleData, String> = ElementSyncData::new();
    assert!(element.is_empty());

    let metadata = SyncMetadata::new();
    assert_eq!(metadata.courses.len(), 0);
    assert_eq!(metadata.questions.len(), 0);
}

#[test]
fn sync_data_of_every_collection() {
    let source = |date: Option<CalendarDate>| QuestionSourceData {
        course_key: "math101".to_string(),
        kind: QuestionSourceType::Other,
        name: None,
        date,
        variant: None,
    };
    let content = |sources: Vec<QuestionSourceData>, bundles: Vec<BundleData>| CurrentContent {
        courses: vec![],
        questions: vec![],
        question_options: vec![],
        question_topics: vec![QuestionTopicData {
            course_key: "math101".to_string(),
            name: "Limits".to_string(),
        }],
        question_sources: sources,
        bundles,
        icons: vec![],
    };
    let mut metadata = SyncMetadata::new();
    metadata.bundles.insert("a".to_string(), "h1".to_string());
    metadata.bundles.insert("c".to_string(), "h3".to_string());
    metadata.question_topics.insert_key("math101::Limits".to_string());
    metadata.icons.insert("star".to_string(), "h".to_string());

    let data = compute_sync_data(
        content(
            vec![source(Some(CalendarDate { year: 2024, month: 3, day: 5 }))],
            vec![bundle("a", "h1"), bundle("b", "h2")],
        ),
        &metadata,
    )
    .unwrap();

    assert_eq!(data.bundles.for_sync, vec![bundle("b", "h2")]);
    assert_eq!(data.bundles.for_deletion, vec!["c".to_string()]);
    assert!(data.question_topics.is_empty());
    assert_eq!(data.question_sources.for_sync.len(), 1);
    assert_eq!(data.icons.for_deletion, vec!["star".to_string()]);
    assert!(data.courses.is_empty());
    assert_eq!(
        data.to_text(),
        "Courses: (sync: 0; delete: 0)\nQuestions: (sync: 0; delete: 0)\nQuestion options: (sync: 0; delete: 0)\nQuestion topics: (sync: 0; delete: 0)\nQuestion sources: (sync: 1; delete: 0)\nBundles: (sync: 1; delete: 1)\nIcons: (sync: 0; delete: 1)"
    );

    assert_eq!(
        compute_sync_data(
            content(
                vec![source(Some(CalendarDate { year: 2024, month: 2, day: 30 }))],
                vec![]
            ),
            &metadata
        ),
        Err(ContentError::MalformedDate)
    );
    assert_eq!(
        compute_sync_data(
            content(vec![source(None), source(None)], vec![]),
            &metadata
        ),
        Err(ContentError::DuplicateKey)
    );
    assert_eq!(
        compute_sync_data(
            content(vec![], vec![bundle("a", "h1"), bundle("a", "h1")]),
            &metadata
        ),
        Err(ContentError::DuplicateKey)
    );
}

#[test]
fn difference_in_words() {
    let mut data: ElementSyncData<BundleData, String> = ElementSyncData::default();
    assert_eq!(data.to_text(), "(sync: 0; delete: 0)");

    for index in 0..12 {
        data.for_sync.push(bundle(&format!("b{index}"), "h"));
    }
    data.for_deletion.push("gone".to_string());

    assert_eq!(data.to_text(), "(sync: 12; delete: 1)");
    assert!(SyncData::default().is_empty());
}

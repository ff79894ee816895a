use content_sync::assets::{
    canonical_name_for, complete_rename, plan_rename, stem_differs, RenameOutcome, RenameRequest,
};
use content_sync::bundle_data::BundleData;
use content_sync::course_data::CourseData;
use content_sync::error::ContentError;
use content_sync::icon_data::IconData;
use content_sync::question_data::QuestionData;
use content_sync::question_option_data::QuestionOptionData;
use content_sync::question_source_data::{QuestionSourceData, QuestionSourceType};
use content_sync::question_topic_data::QuestionTopicData;
use content_sync::values::Amount;

const QUESTION_ID: u128 = 0xa1a2a3a4_b1b2_c1c2_d1d2_d3d4d5d6d7d8;

fn request(from: &str, to: &str) -> Option<RenameRequest> {
    Some(RenameRequest { from: from.to_string(), to: to.to_string() })
}

fn course(image: &str) -> CourseData {
    CourseData {
        key: "math101".to_string(),
        name: "Mathematics".to_string(),
        short_name: "Math".to_string(),
        description: None,
        price_in_uyu: Amount { mantissa: 0, scale: 0 },
        tags: vec![],
        image_file_name: image.to_string(),
        year: None,
        order: None,
        questions: vec![],
        valid_topics: vec![],
        hash: String::new(),
    }
}

fn question(image: Option<&str>) -> QuestionData {
    let option = |id: u128, text: &str, correct: bool| QuestionOptionData {
        id,
        question_id: QUESTION_ID,
        text: text.to_string(),
        correct,
        reference: 0,
        preserve_case: false,
        hash: String::new(),
    };
    QuestionData {
        id: QUESTION_ID,
        course_key: "math101".to_string(),
        source: QuestionSourceData {
            course_key: "math101".to_string(),
            kind: QuestionSourceType::Other,
            name: None,
            date: None,
            variant: None,
        },
        text: "which one?".to_string(),
        explanation: None,
        topic: QuestionTopicData { course_key: "math101".to_string(), name: "_".to_string() },
        topic_by: None,
        tags: vec![],
        image_file_name: image.map(str::to_string),
        question_options: vec![option(1, "yes", true), option(2, "no", false)],
        hash: String::new(),
    }
}

#[test]
fn rename_of_old_name_to_math101() {
    let mut data = course("old_name.png");
    data.process().unwrap();
    let stale = data.hash.clone();

    assert_eq!(
        data.plan_image_rename(),
        request("math101/old_name.png", "math101/math101.png")
    );

    data.complete_image_rename(RenameOutcome::Renamed).unwrap();

    assert_eq!(data.image_file_name, "math101.png");
    assert_ne!(data.hash, stale);
    assert_eq!(data.plan_image_rename(), None);

    let settled = data.clone();
    data.process().unwrap();
    assert_eq!(data, settled);
    assert_eq!(data.plan_image_rename(), None);
}

#[test]
fn failed_rename_leaves_the_record_and_reports() {
    let mut data = course("old_name.png");
    data.process().unwrap();
    let before = data.clone();

    assert_eq!(
        data.complete_image_rename(RenameOutcome::Failed),
        Err(ContentError::AssetRename)
    );
    assert_eq!(data, before);
}

#[test]
fn stem_and_extension_follow_the_last_period() {
    assert_eq!(canonical_name_for("math101", "old.tar.gz"), "math101.gz");
    assert_eq!(canonical_name_for("math101", "old"), "math101");
    assert_eq!(canonical_name_for("math101", ".hidden"), "math101");
    assert_eq!(canonical_name_for("math101", "old."), "math101.");
    assert_eq!(canonical_name_for("math101", ""), "math101");
    assert_eq!(canonical_name_for("math101", "ñandú.jpeg"), "math101.jpeg");

    assert!(!stem_differs("math101", "math101.png"));
    assert!(!stem_differs("math101", "math101"));
    assert!(!stem_differs("old.tar", "old.tar.gz"));
    assert!(!stem_differs(".hidden", ".hidden"));
    assert!(stem_differs("math101", "math101.png.bak"));
    assert!(stem_differs("math101", "Math101.png"));
    assert!(stem_differs("math101", ""));
}

#[test]
fn plan_rename_names_both_paths() {
    assert_eq!(
        plan_rename("bundles", "all", "everything.webp"),
        request("bundles/everything.webp", "bundles/all.webp")
    );
    assert_eq!(plan_rename("bundles", "all", "all.webp"), None);
}

#[test]
fn complete_rename_takes_the_answer_of_the_store() {
    let mut reference = "old_name.png".to_string();

    assert_eq!(
        complete_rename(&mut reference, "math101", RenameOutcome::Failed),
        Err(ContentError::AssetRename)
    );
    assert_eq!(reference, "old_name.png");

    assert_eq!(complete_rename(&mut reference, "math101", RenameOutcome::Renamed), Ok(()));
    assert_eq!(reference, "math101.png");

    assert_eq!(complete_rename(&mut reference, "math101", RenameOutcome::Renamed), Ok(()));
    assert_eq!(reference, "math101.png");
}

#[test]
fn question_image_is_named_after_the_identifier() {
    let mut data = question(Some("photo.jpg"));
    data.process().unwrap();

    assert_eq!(
        data.plan_image_rename(),
        request(
            "math101/photo.jpg",
            "math101/a1a2a3a4-b1b2-c1c2-d1d2-d3d4d5d6d7d8.jpg"
        )
    );

    data.complete_image_rename(RenameOutcome::Renamed).unwrap();

    assert_eq!(
        data.image_file_name.as_deref(),
        Some("a1a2a3a4-b1b2-c1c2-d1d2-d3d4d5d6d7d8.jpg")
    );
    assert_eq!(data.plan_image_rename(), None);
}

#[test]
fn question_without_image_needs_no_rename() {
    let mut data = question(None);
    data.process().unwrap();
    let before = data.clone();

    assert_eq!(data.plan_image_rename(), None);
    assert_eq!(data.complete_image_rename(RenameOutcome::Renamed), Ok(()));
    assert_eq!(data, before);
    assert_eq!(
        data.complete_image_rename(RenameOutcome::Failed),
        Err(ContentError::AssetRename)
    );
}

#[test]
fn bundle_and_icon_images_are_named_after_their_keys() {
    let mut bundle = BundleData::new(
        "all".to_string(),
        "Everything".to_string(),
        String::new(),
        vec![],
        Amount { mantissa: 10, scale: 0 },
        "everything.webp".to_string(),
    )
    .unwrap();

    assert_eq!(
        bundle.plan_image_rename(),
        request("bundles/everything.webp", "bundles/all.webp")
    );
    bundle.complete_image_rename(RenameOutcome::Renamed).unwrap();
    assert_eq!(bundle.image_file_name, "all.webp");
    assert_eq!(bundle.plan_image_rename(), None);

    let mut icon =
        IconData::new("star".to_string(), true, None, None, "star.svg".to_string()).unwrap();

    assert_eq!(icon.plan_image_rename(), None);
    icon.image_file_name = "gold.svg".to_string();
    assert_eq!(icon.plan_image_rename(), request("icons/gold.svg", "icons/star.svg"));
    icon.complete_image_rename(RenameOutcome::Renamed).unwrap();
    assert_eq!(icon.image_file_name, "star.svg");
}

#[test]
fn a_canonical_name_with_a_period_settles_too() {
    let mut reference = "cover".to_string();

    assert!(stem_differs("v1.2", &reference));
    complete_rename(&mut reference, "v1.2", RenameOutcome::Renamed).unwrap();
    assert_eq!(reference, "v1.2");
    assert!(!stem_differs("v1.2", &reference));
    assert_eq!(plan_rename("dir", "v1.2", &reference), None);

    complete_rename(&mut reference, "v1.2", RenameOutcome::Renamed).unwrap();
    assert_eq!(reference, "v1.2");

    let mut reference = "cover.tar.gz".to_string();
    complete_rename(&mut reference, "v1.2", RenameOutcome::Renamed).unwrap();
    assert_eq!(reference, "v1.2.gz");
    assert!(!stem_differs("v1.2", &reference));

    let mut reference = "cover.png".to_string();
    complete_rename(&mut reference, "", RenameOutcome::Renamed).unwrap();
    assert_eq!(reference, ".png");
    assert!(!stem_differs("", &reference));
}

use content_sync::hashing::Hashable;
use content_sync::question_option_data::QuestionOptionData;

const OPTION_ID: u128 = 0xa1a2a3a4_b1b2_c1c2_d1d2_d3d4d5d6d7d8;
const QUESTION_ID: u128 = 0x00112233_4455_6677_8899_aabbccddeeff;

fn sample_option(text: &str) -> QuestionOptionData {
    QuestionOptionData {
        id: OPTION_ID,
        question_id: QUESTION_ID,
        text: text.to_string(),
        correct: false,
        reference: 3,
        preserve_case: false,
        hash: String::new(),
    }
}

fn expected_bytes(id: u128, question_id: u128, text: &str, correct: bool) -> Vec<u8> {
    let mut bytes = Vec::new();
    bytes.extend_from_slice(b"id");
    bytes.extend_from_slice(&id.to_be_bytes());
    bytes.extend_from_slice(b"question_id");
    bytes.extend_from_slice(&question_id.to_be_bytes());
    bytes.extend_from_slice(b"text");
    bytes.extend_from_slice(text.as_bytes());
    bytes.extend_from_slice(b"correct");
    bytes.extend_from_slice(if correct { b"true" } else { b"false" });
    bytes
}

#[test]
fn question_option_data_test_process() {
    let mut data = sample_option("  option  1  ");
    data.process().unwrap();

    assert_eq!(data.text, "Option 1.");
}

#[test]
fn test_process_preserve_case() {
    let mut data = sample_option("o");
    data.preserve_case = true;
    data.process().unwrap();

    assert_eq!(data.text, "o.");
}

#[test]
fn test_hash() {
    let mut data1 = sample_option("first answer");
    data1.process().unwrap();

    let mut data2 = sample_option("second answer");
    data2.id = OPTION_ID + 1;
    data2.process().unwrap();

    assert_ne!(data1.hash, data2.hash);
}

#[test]
fn option_text_example_with_default_settings() {
    let mut data = sample_option("  option  1 ");
    data.process().unwrap();

    assert_eq!(data.text, "Option 1.");
}

#[test]
fn option_text_example_with_preserved_case() {
    let mut data = sample_option("  option  1 ");
    data.preserve_case = true;
    data.process().unwrap();

    assert_eq!(data.text, "option 1.");
}

#[test]
fn option_new_processes_the_option() {
    let data =
        QuestionOptionData::new(OPTION_ID, QUESTION_ID, " yes ".to_string(), true, 0, false)
            .unwrap();

    assert_eq!(data.text, "Yes.");
    assert!(data.correct);
    assert_eq!(data.hash.len(), 64);
    assert_eq!(data.hash, data.compute_hash());
}

#[test]
fn option_keeps_a_period_that_is_there() {
    let mut data = sample_option("done.");
    data.process().unwrap();

    assert_eq!(data.text, "Done.");
}

#[test]
fn blank_option_stays_blank() {
    let mut data = sample_option("   ");
    data.process().unwrap();

    assert_eq!(data.text, "");
    assert!(data.is_blank());
}

#[test]
fn option_encoding_is_fields_in_order_with_their_names() {
    let mut data = sample_option("Paris.");
    data.correct = true;

    assert_eq!(
        data.to_bytes(),
        expected_bytes(OPTION_ID, QUESTION_ID, "Paris.", true)
    );
    assert_eq!(data.to_bytes(), data.encode());
    assert_eq!(data.bytes(), data.encode());
}

#[test]
fn option_fingerprint_is_the_blake3_digest_of_the_encoding() {
    let mut data = sample_option("Paris");
    data.process().unwrap();

    let expected = blake3::hash(&expected_bytes(OPTION_ID, QUESTION_ID, "Paris.", false));

    assert_eq!(data.hash, expected.to_string());
    assert_eq!(data.fingerprint(), expected.to_string());
}

#[test]
fn option_fingerprint_ignores_reference_and_case_flag() {
    let mut data1 = sample_option("Paris.");
    data1.process().unwrap();

    let mut data2 = sample_option("Paris.");
    data2.reference = 9;
    data2.process().unwrap();

    assert_eq!(data1.hash, data2.hash);
}

#[test]
fn option_fingerprint_follows_each_content_field() {
    let mut base = sample_option("Paris.");
    base.process().unwrap();

    let mut other_text = sample_option("Rome.");
    other_text.process().unwrap();
    assert_ne!(base.hash, other_text.hash);

    let mut other_flag = sample_option("Paris.");
    other_flag.correct = true;
    other_flag.process().unwrap();
    assert_ne!(base.hash, other_flag.hash);

    let mut other_question = sample_option("Paris.");
    other_question.question_id = QUESTION_ID + 1;
    other_question.process().unwrap();
    assert_ne!(base.hash, other_question.hash);
}

#[test]
fn option_processing_twice_changes_nothing() {
    let mut data = sample_option("  option  1 ");
    data.process().unwrap();
    let once = data.clone();
    data.process().unwrap();

    assert_eq!(data, once);
}

#[test]
fn option_eq_data_ignores_the_identifiers() {
    let data1 = sample_option("Paris.");
    let mut data2 = sample_option("Paris.");
    data2.id = OPTION_ID + 7;
    data2.question_id = QUESTION_ID + 7;
    data2.reference = 1;

    assert!(data1.eq_data(&data2));

    data2.correct = true;
    assert!(!data1.eq_data(&data2));
}

#[test]
fn option_hash_is_that_of_the_content_as_it_is_now() {
    let mut data = sample_option("Paris.");
    assert_eq!(data.stored_hash(), None);
    assert_eq!(data.hash(), data.fingerprint());

    data.process().unwrap();
    let stored = data.hash.clone();
    assert_eq!(data.stored_hash(), Some(stored.as_str()));
    assert_eq!(data.hash(), stored);

    data.text = "Rome.".to_string();
    assert_eq!(data.stored_hash(), Some(stored.as_str()));
    assert_ne!(data.hash(), stored);
    assert_eq!(
        data.hash(),
        blake3::hash(&expected_bytes(OPTION_ID, QUESTION_ID, "Rome.", false)).to_string()
    );

    data.refresh_hash();
    assert_eq!(data.hash, data.hash());
}

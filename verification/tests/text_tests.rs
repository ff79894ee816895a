use content_sync::text::{
    capitalize_first_char, format_text, full_image_path, is_digit, is_space, remove_end_period,
};

#[test]
fn test_format_text() {
    assert_eq!(
        format_text(" test  “text”   12.34%  . "),
        "test \"text\" 12.34 %."
    );
}

#[test]
fn format_text_keeps_a_single_white_space_character() {
    assert_eq!(format_text("a\tb"), "a\tb");
    assert_eq!(format_text("a \t\n b"), "a b");
    assert_eq!(format_text("a\u{a0}\u{2003}b"), "a b");
}

#[test]
fn format_text_trims_unicode_white_space() {
    assert_eq!(format_text("\u{3000} title \u{2028}"), "title");
    assert_eq!(format_text(" \t "), "");
    assert_eq!(format_text(""), "");
}

#[test]
fn format_text_tightens_only_the_last_mark() {
    assert_eq!(format_text("why ?"), "why?");
    assert_eq!(format_text("as follows :"), "as follows:");
    assert_eq!(format_text("a . b ."), "a . b.");
    assert_eq!(format_text("wait !"), "wait !");
    assert_eq!(format_text("end .\n"), "end.");
}

#[test]
fn format_text_spaces_every_percentage() {
    assert_eq!(format_text("5% of 10%"), "5 % of 10 %");
    assert_eq!(format_text("5 %"), "5 %");
    assert_eq!(format_text("x%"), "x%");
    assert_eq!(format_text("\u{0663}%"), "\u{0663} %");
}

#[test]
fn format_text_is_stable_on_its_own_output() {
    for raw in [" test  “text”   12.34%  . ", "a  b  c ?", "7% \t ."] {
        let once = format_text(raw);
        assert_eq!(format_text(&once), once);
    }
}

#[test]
fn remove_end_period_drops_one_period() {
    assert_eq!(remove_end_period("Topic 1."), "Topic 1");
    assert_eq!(remove_end_period("Topic 1.."), "Topic 1.");
    assert_eq!(remove_end_period("Topic.1"), "Topic.1");
    assert_eq!(remove_end_period(""), "");
}

#[test]
fn capitalize_first_char_touches_ascii_letters_only() {
    let mut text = String::from("option");
    capitalize_first_char(&mut text);
    assert_eq!(text, "Option");

    let mut text = String::from("élan");
    capitalize_first_char(&mut text);
    assert_eq!(text, "élan");

    let mut text = String::from("1st");
    capitalize_first_char(&mut text);
    assert_eq!(text, "1st");

    let mut text = String::new();
    capitalize_first_char(&mut text);
    assert_eq!(text, "");
}

#[test]
fn full_image_path_joins_with_a_slash() {
    assert_eq!(full_image_path("math101", "cover.png"), "math101/cover.png");
}

#[test]
fn white_space_is_what_the_patterns_and_std_take_for_it() {
    let pattern = regex::Regex::new(r"^\s$").unwrap();
    let mut buffer = [0u8; 4];
    for code in 0..=0x10ffffu32 {
        if let Some(c) = char::from_u32(code) {
            let text = c.encode_utf8(&mut buffer);
            assert_eq!(is_space(c), pattern.is_match(text), "U+{code:04X}");
            assert_eq!(is_space(c), c.is_whitespace(), "U+{code:04X}");
        }
    }
}

#[test]
fn digits_are_what_the_patterns_take_for_them() {
    let pattern = regex::Regex::new(r"^\d$").unwrap();
    let mut buffer = [0u8; 4];
    for code in 0..=0x10ffffu32 {
        if let Some(c) = char::from_u32(code) {
            let text = c.encode_utf8(&mut buffer);
            assert_eq!(is_digit(c), pattern.is_match(text), "U+{code:04X}");
        }
    }
}

#[test]
fn every_digit_is_parted_from_a_percent_sign() {
    let mut text = String::new();
    let mut expected = String::new();
    for code in 0..=0x10ffffu32 {
        if let Some(c) = char::from_u32(code) {
            if is_space(c) {
                continue;
            }
            text.push(c);
            text.push('%');
            text.push('x');
            expected.push(c);
            if is_digit(c) {
                expected.push(' ');
            }
            expected.push('%');
            expected.push('x');
        }
    }
    let expected = expected.replace('\u{201c}', "\"").replace('\u{201d}', "\"");

    assert_eq!(format_text(&text), expected);
}

#[test]
fn trimming_agrees_with_std() {
    for text in ["", " ", "a", " a", "a ", "\u{3000}a b\u{85}\u{a0}", "\t\n", " . ", "\u{200b}a\u{200b}"] {
        let mut record = content_sync::explanation_data::ExplanationData {
            text: text.to_string(),
            by: String::new(),
            date: content_sync::values::Timestamp { seconds: 0, nanoseconds: 0 },
            hash: String::new(),
        };
        record.format();
        assert_eq!(record.text, text.trim());
    }
}

#[test]
fn format_text_drops_a_period_before_the_terminal_mark() {
    assert_eq!(format_text("Why.?"), "Why?");
    assert_eq!(format_text("Why. ?"), "Why?");
    assert_eq!(format_text(" Why ..  . ? "), "Why?");
    assert_eq!(format_text("Stop.!"), "Stop!");
    assert_eq!(format_text("as follows.:"), "as follows:");
    assert_eq!(format_text(".?"), "?");
    assert_eq!(format_text("wait !"), "wait !");
    assert_eq!(format_text("Wait..."), "Wait...");
    assert_eq!(format_text("a.b?"), "a.b?");
    assert_eq!(format_text("3.5%?"), "3.5 %?");
    assert_eq!(format_text("Why.? no"), "Why.? no");

    for raw in ["Why.?", " Why ..  . ? ", "x . !", "..:", "a. .?"] {
        let once = format_text(raw);
        assert_eq!(format_text(&once), once);
    }
}

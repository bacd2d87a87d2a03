use markdown_ingest::front_matter::{decode_front_matter, extract_front_matter, DecodeError};

#[test]
fn extract_returns_block_and_body() {
    let r = extract_front_matter("---\ntitle: T\n---\nbody text\n");
    let (block, body) = r.expect("front matter expected");
    assert_eq!(block, "title: T\n");
    assert_eq!(body, "body text\n");
}

#[test]
fn extract_handles_crlf_fences() {
    let r = extract_front_matter("---\r\ntitle: A\r\n---\r\nB");
    let (block, body) = r.expect("front matter expected");
    assert_eq!(block, "title: A\r\n");
    assert_eq!(body, "B");
}

#[test]
fn extract_tolerates_a_leading_byte_order_mark() {
    let r = extract_front_matter("\u{feff}---\ntitle: T\n---\nbody\n");
    let (block, body) = r.expect("front matter expected");
    assert_eq!(block, "title: T\n");
    assert_eq!(body, "body\n");
    // only directly before the fence, and only one
    assert!(extract_front_matter("\u{feff}\u{feff}---\ntitle: T\n---\n").is_none());
    assert!(extract_front_matter(" \u{feff}---\ntitle: T\n---\n").is_none());
}

#[test]
fn extract_without_opening_fence_is_none() {
    assert!(extract_front_matter("title: T\n---\n").is_none());
    assert!(extract_front_matter("").is_none());
    assert!(extract_front_matter("body only\n").is_none());
}

#[test]
fn extract_without_closing_fence_is_none() {
    assert!(extract_front_matter("---\ntitle: T\n").is_none());
    assert!(extract_front_matter("---\ntitle: T\n--- trailing\n").is_none());
}

#[test]
fn extract_with_closing_fence_at_end_has_empty_body() {
    let (block, body) = extract_front_matter("---\ntitle: T\n---").expect("front matter");
    assert_eq!(block, "title: T\n");
    assert_eq!(body, "");
}

#[test]
fn decode_reads_all_fields() {
    let fm = decode_front_matter(
        "title: My Post\nauthor: Someone\ntags: [a, b]\ndate: 2024-02-29\n",
    )
    .expect("decodes");
    assert_eq!(fm.title, "My Post");
    assert_eq!(fm.author, "Someone");
    assert_eq!(fm.tags, vec!["a".to_string(), "b".to_string()]);
    assert_eq!(fm.date.as_deref(), Some("2024-02-29"));
}

#[test]
fn decode_accepts_block_sequence_tags() {
    let fm = decode_front_matter("title: T\nauthor: A\ntags:\n- one\n- two\n").expect("decodes");
    assert_eq!(fm.tags, vec!["one".to_string(), "two".to_string()]);
}

#[test]
fn decode_accepts_empty_flow_tags() {
    let fm = decode_front_matter("title: T\nauthor: A\ntags: []\n").expect("decodes");
    assert!(fm.tags.is_empty());
}

#[test]
fn decode_strips_quotes_and_splits_at_first_colon() {
    let fm = decode_front_matter(
        "title: \"Hello: World\"\nauthor: 'X'\ntags: [\"q\", 'r']\n",
    )
    .expect("decodes");
    assert_eq!(fm.title, "Hello: World");
    assert_eq!(fm.author, "X");
    assert_eq!(fm.tags, vec!["q".to_string(), "r".to_string()]);
}

#[test]
fn decode_resolves_escapes_in_double_quotes() {
    let fm = decode_front_matter(
        "title: \"He said \\\"hi\\\"\\nbye\"\nauthor: \"a\\\\b\\tc\"\ntags: []\n",
    )
    .expect("decodes");
    assert_eq!(fm.title, "He said \"hi\"\nbye");
    assert_eq!(fm.author, "a\\b\tc");
}

#[test]
fn decode_keeps_unrecognized_escapes_as_written() {
    let fm = decode_front_matter("title: \"a\\xb\"\nauthor: A\ntags: []\n").expect("decodes");
    assert_eq!(fm.title, "a\\xb");
}

#[test]
fn decode_resolves_doubled_single_quotes() {
    let fm = decode_front_matter("title: T\nauthor: 'O''Brien'\ntags: []\n").expect("decodes");
    assert_eq!(fm.author, "O'Brien");
}

#[test]
fn decode_keeps_quoted_commas_inside_flow_tags() {
    let fm = decode_front_matter(
        "title: T\nauthor: A\ntags: [\"a,b\", c, 'd, e']\n",
    )
    .expect("decodes");
    assert_eq!(fm.tags, vec!["a,b".to_string(), "c".to_string(), "d, e".to_string()]);
}

#[test]
fn decode_ignores_blank_lines_and_unknown_keys() {
    let fm = decode_front_matter("\ntitle: T\n\nlayout: post\nauthor: A\ntags: [x]\n\n")
        .expect("decodes");
    assert_eq!(fm.title, "T");
    assert_eq!(fm.date, None);
}

#[test]
fn decode_without_title_is_missing_title() {
    let e = decode_front_matter("author: A\ntags: [x]\n").unwrap_err();
    assert!(matches!(e, DecodeError::MissingTitle));
}

#[test]
fn decode_without_author_is_missing_author() {
    let e = decode_front_matter("title: T\ntags: [x]\n").unwrap_err();
    assert!(matches!(e, DecodeError::MissingAuthor));
}

#[test]
fn decode_without_tags_is_missing_tags() {
    let e = decode_front_matter("title: T\nauthor: A\n").unwrap_err();
    assert!(matches!(e, DecodeError::MissingTags));
}

#[test]
fn decode_empty_block_is_missing_title() {
    let e = decode_front_matter("").unwrap_err();
    assert!(matches!(e, DecodeError::MissingTitle));
}

#[test]
fn decode_duplicate_key_is_rejected() {
    let e = decode_front_matter("title: T\ntitle: U\nauthor: A\ntags: [x]\n").unwrap_err();
    assert!(matches!(e, DecodeError::DuplicateKey));
}

#[test]
fn decode_empty_title_value_is_null_value() {
    let e = decode_front_matter("title:\nauthor: A\ntags: [x]\n").unwrap_err();
    assert!(matches!(e, DecodeError::NullValue));
}

#[test]
fn decode_bare_tags_key_is_null_value() {
    let e = decode_front_matter("title: T\nauthor: A\ntags:\n").unwrap_err();
    assert!(matches!(e, DecodeError::NullValue));
}

#[test]
fn decode_scalar_tags_is_malformed() {
    let e = decode_front_matter("title: T\nauthor: A\ntags: x\n").unwrap_err();
    assert!(matches!(e, DecodeError::MalformedLine));
}

#[test]
fn decode_line_without_colon_is_malformed() {
    let e = decode_front_matter("junk\ntitle: T\nauthor: A\ntags: [x]\n").unwrap_err();
    assert!(matches!(e, DecodeError::MalformedLine));
}

#[test]
fn decode_empty_flow_item_is_malformed() {
    let e = decode_front_matter("title: T\nauthor: A\ntags: [a,,b]\n").unwrap_err();
    assert!(matches!(e, DecodeError::MalformedLine));
}

#[test]
fn decode_bad_calendar_dates_are_invalid() {
    for bad in [
        "2024-13-01",
        "2024-00-10",
        "2024-01-32",
        "2023-02-29",
        "2100-02-29",
        "24-01-01",
        "not-a-date",
        "2024/01/01",
    ] {
        let text = format!("title: T\nauthor: A\ntags: [x]\ndate: {bad}\n");
        let e = decode_front_matter(&text).unwrap_err();
        assert!(matches!(e, DecodeError::InvalidDate), "accepted {bad}");
    }
}

#[test]
fn decode_good_calendar_dates_are_accepted() {
    for good in ["2024-02-29", "2000-02-29", "1999-12-31", "2023-06-30", "0001-01-01"] {
        let text = format!("title: T\nauthor: A\ntags: [x]\ndate: {good}\n");
        let fm = decode_front_matter(&text).expect("decodes");
        assert_eq!(fm.date.as_deref(), Some(good));
    }
}

#[test]
fn decode_normalizes_unpadded_dates() {
    for (raw, norm) in [
        ("2024-1-2", "2024-01-02"),
        ("2024-01-2", "2024-01-02"),
        ("2024-1-02", "2024-01-02"),
        ("1999-12-5", "1999-12-05"),
    ] {
        let text = format!("title: T\nauthor: A\ntags: [x]\ndate: {raw}\n");
        let fm = decode_front_matter(&text).expect("decodes");
        assert_eq!(fm.date.as_deref(), Some(norm));
    }
}

#[test]
fn decode_empty_date_value_means_no_date() {
    let fm = decode_front_matter("title: T\nauthor: A\ntags: [x]\ndate:\n").expect("decodes");
    assert_eq!(fm.date, None);
}

#[test]
fn decode_error_messages_name_the_cause() {
    assert_eq!(DecodeError::MissingTitle.message(), "missing title");
    assert_eq!(DecodeError::InvalidDate.message(), "invalid date");
}

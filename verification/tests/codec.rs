use scratchpad::codec::{encode_note, parse_markdown_note};
use scratchpad::note::Note;
use scratchpad::num::{i64_to_string, parse_i64};

fn sample_note() -> Note {
    Note {
        id: "n1".to_string(),
        title: "Groceries".to_string(),
        content: "milk\neggs\n".to_string(),
        folder: "default".to_string(),
        parent_id: None,
        created_at: 1700000000123,
        updated_at: 1700000000456,
    }
}

#[test]
fn encode_exact_text() {
    let text = encode_note(&sample_note());
    assert_eq!(
        text,
        "---\nid: n1\ntitle: Groceries\nfolder: default\nparent_id: null\ncreated_at: 1700000000123\nupdated_at: 1700000000456\n---\n\nmilk\neggs\n"
    );
}

#[test]
fn round_trip_plain_note() {
    let n = sample_note();
    let back = parse_markdown_note(&encode_note(&n)).expect("well-formed note must decode");
    assert_eq!(back.id, n.id);
    assert_eq!(back.title, n.title);
    assert_eq!(back.content, n.content);
    assert_eq!(back.folder, n.folder);
    assert_eq!(back.parent_id, n.parent_id);
    assert_eq!(back.created_at, n.created_at);
    assert_eq!(back.updated_at, n.updated_at);
}

#[test]
fn round_trip_with_parent_and_negative_timestamps() {
    let n = Note {
        id: "child".to_string(),
        title: "a: b: c".to_string(),
        content: String::new(),
        folder: "work".to_string(),
        parent_id: Some("n1".to_string()),
        created_at: -42,
        updated_at: i64::MIN,
    };
    let back = parse_markdown_note(&encode_note(&n)).expect("well-formed note must decode");
    assert_eq!(back.id, n.id);
    assert_eq!(back.title, n.title);
    assert_eq!(back.content, n.content);
    assert_eq!(back.folder, n.folder);
    assert_eq!(back.parent_id, n.parent_id);
    assert_eq!(back.created_at, n.created_at);
    assert_eq!(back.updated_at, n.updated_at);
}

#[test]
fn round_trip_content_holding_delimiter() {
    let n = Note {
        content: "before\n---\n\nafter".to_string(),
        ..sample_note()
    };
    let back = parse_markdown_note(&encode_note(&n)).expect("well-formed note must decode");
    assert_eq!(back.content, n.content);
    assert_eq!(back.id, n.id);
}

#[test]
fn missing_folder_defaults() {
    let text = "---\nid: x\ntitle: t\n---\n\nbody";
    let note = parse_markdown_note(text).expect("note with delimiter must decode");
    assert_eq!(note.folder, "default");
    assert_eq!(note.id, "x");
    assert_eq!(note.title, "t");
    assert_eq!(note.content, "body");
}

#[test]
fn garbage_created_at_defaults_to_zero() {
    let text = "---\nid: x\ncreated_at: yesterday\nupdated_at: 99zz\n---\n\n";
    let note = parse_markdown_note(text).expect("note with delimiter must decode");
    assert_eq!(note.created_at, 0);
    assert_eq!(note.updated_at, 0);
}

#[test]
fn missing_keys_default_everywhere() {
    let text = "---\n---\n\n";
    let note = parse_markdown_note(text).expect("note with delimiter must decode");
    assert_eq!(note.id, "");
    assert_eq!(note.title, "");
    assert_eq!(note.folder, "default");
    assert_eq!(note.parent_id, None);
    assert_eq!(note.created_at, 0);
    assert_eq!(note.updated_at, 0);
    assert_eq!(note.content, "");
}

#[test]
fn parent_null_token_reads_as_absent() {
    let text = "---\nparent_id: null\n---\n\n";
    let note = parse_markdown_note(text).expect("note with delimiter must decode");
    assert_eq!(note.parent_id, None);
    let text2 = "---\nparent_id: nullish\n---\n\n";
    let note2 = parse_markdown_note(text2).expect("note with delimiter must decode");
    assert_eq!(note2.parent_id, Some("nullish".to_string()));
}

#[test]
fn unknown_keys_are_ignored() {
    let text = "---\nid: x\ncolor: red\n---\n\nbody";
    let note = parse_markdown_note(text).expect("note with delimiter must decode");
    assert_eq!(note.id, "x");
    assert_eq!(note.content, "body");
}

#[test]
fn text_without_delimiter_is_no_note() {
    assert!(parse_markdown_note("just some markdown").is_none());
    assert!(parse_markdown_note("---\nid: x\n---\nno blank line").is_none());
    assert!(parse_markdown_note("").is_none());
}

#[test]
fn later_header_lines_overwrite_earlier_ones() {
    let text = "---\nid: first\nid: second\n---\n\n";
    let note = parse_markdown_note(text).expect("note with delimiter must decode");
    assert_eq!(note.id, "second");
}

#[test]
fn decimal_rendering_exact() {
    assert_eq!(i64_to_string(0), "0");
    assert_eq!(i64_to_string(7), "7");
    assert_eq!(i64_to_string(-5), "-5");
    assert_eq!(i64_to_string(i64::MAX), "9223372036854775807");
    assert_eq!(i64_to_string(i64::MIN), "-9223372036854775808");
}

#[test]
fn tolerant_integer_parse_exact() {
    assert_eq!(parse_i64("123"), 123);
    assert_eq!(parse_i64("+5"), 5);
    assert_eq!(parse_i64("-0"), 0);
    assert_eq!(parse_i64("007"), 7);
    assert_eq!(parse_i64("-9223372036854775808"), i64::MIN);
    assert_eq!(parse_i64("9223372036854775807"), i64::MAX);
    assert_eq!(parse_i64("9223372036854775808"), 0);
    assert_eq!(parse_i64("-9223372036854775809"), 0);
    assert_eq!(parse_i64("12a"), 0);
    assert_eq!(parse_i64(""), 0);
    assert_eq!(parse_i64("-"), 0);
    assert_eq!(parse_i64(" 5"), 0);
}

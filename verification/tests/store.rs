use scratchpad::codec::encode_note;
use scratchpad::note::Note;
use scratchpad::store::{decode_notes, note_filename};

fn note_with_id(id: &str) -> Note {
    Note {
        id: id.to_string(),
        title: format!("title of {}", id),
        content: "body".to_string(),
        folder: "default".to_string(),
        parent_id: None,
        created_at: 1,
        updated_at: 2,
    }
}

#[test]
fn filename_is_id_with_md_extension() {
    assert_eq!(note_filename("abc"), "abc.md");
    assert_eq!(note_filename(""), ".md");
}

#[test]
fn bulk_load_skips_malformed_file() {
    let good = encode_note(&note_with_id("good"));
    let bad = "this file has no delimiter at all".to_string();
    let notes = decode_notes(&vec![good, bad]);
    assert_eq!(notes.len(), 1);
    assert_eq!(notes[0].id, "good");
}

#[test]
fn bulk_load_keeps_order() {
    let texts = vec![
        encode_note(&note_with_id("a")),
        "garbage".to_string(),
        encode_note(&note_with_id("b")),
        encode_note(&note_with_id("c")),
    ];
    let notes = decode_notes(&texts);
    let ids: Vec<&str> = notes.iter().map(|n| n.id.as_str()).collect();
    assert_eq!(ids, ["a", "b", "c"]);
}

#[test]
fn bulk_load_of_nothing_is_empty() {
    let notes = decode_notes(&Vec::new());
    assert!(notes.is_empty());
}

#[test]
fn delete_removes_exactly_one_file() {
    // The store's files, simulated as (filename, text) pairs: save "a",
    // save "b", delete "a", then load all.
    let mut files: Vec<(String, String)> = Vec::new();
    files.push((note_filename("a"), encode_note(&note_with_id("a"))));
    files.push((note_filename("b"), encode_note(&note_with_id("b"))));
    let doomed = note_filename("a");
    files.retain(|(name, _)| *name != doomed);
    let texts: Vec<String> = files.iter().map(|(_, text)| text.clone()).collect();
    let notes = decode_notes(&texts);
    assert_eq!(notes.len(), 1);
    assert_eq!(notes[0].id, "b");
}

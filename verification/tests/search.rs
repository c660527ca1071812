use scratchpad::note::Note;
use scratchpad::search::search_notes;

fn titled(id: &str, title: &str, content: &str) -> Note {
    Note {
        id: id.to_string(),
        title: title.to_string(),
        content: content.to_string(),
        folder: "default".to_string(),
        parent_id: None,
        created_at: 0,
        updated_at: 0,
    }
}

fn sample_notes() -> Vec<Note> {
    vec![
        titled("1", "Groceries", "milk, eggs"),
        titled("2", "Meeting Notes", "agenda for monday"),
    ]
}

#[test]
fn search_matches_title_case_insensitively() {
    let hits = search_notes("meet", sample_notes());
    assert_eq!(hits.len(), 1);
    assert_eq!(hits[0].id, "2");
}

#[test]
fn search_uppercase_query_still_matches() {
    let hits = search_notes("MEET", sample_notes());
    assert_eq!(hits.len(), 1);
    assert_eq!(hits[0].id, "2");
    let hits2 = search_notes("gRoCeRiEs", sample_notes());
    assert_eq!(hits2.len(), 1);
    assert_eq!(hits2[0].id, "1");
}

#[test]
fn search_empty_query_matches_every_note() {
    let hits = search_notes("", sample_notes());
    assert_eq!(hits.len(), 2);
    assert_eq!(hits[0].id, "1");
    assert_eq!(hits[1].id, "2");
}

#[test]
fn search_looks_into_content_too() {
    let hits = search_notes("MONDAY", sample_notes());
    assert_eq!(hits.len(), 1);
    assert_eq!(hits[0].id, "2");
}

#[test]
fn search_without_hit_is_empty() {
    let hits = search_notes("tuesday", sample_notes());
    assert!(hits.is_empty());
}

#[test]
fn search_keeps_input_order() {
    let hits = search_notes("e", sample_notes());
    assert_eq!(hits.len(), 2);
    assert_eq!(hits[0].id, "1");
    assert_eq!(hits[1].id, "2");
}

use scratchpad::folders::{default_folders, load_folders_step, Folder};

#[test]
fn default_collection_is_one_notes_folder() {
    let seed = default_folders();
    assert_eq!(seed.len(), 1);
    assert_eq!(seed[0].id, "default");
    assert_eq!(seed[0].name, "Notes");
    assert_eq!(seed[0].parent_id, None);
}

#[test]
fn missing_store_seeds_and_persists_default() {
    let (first, persist_first) = load_folders_step(None);
    assert!(persist_first);
    assert_eq!(first.len(), 1);
    assert_eq!(first[0].id, "default");
    assert_eq!(first[0].name, "Notes");
    assert_eq!(first[0].parent_id, None);

    // A second load sees what the first one persisted and seeds nothing.
    let (second, persist_second) = load_folders_step(Some(first));
    assert!(!persist_second);
    assert_eq!(second.len(), 1);
    assert_eq!(second[0].id, "default");
    assert_eq!(second[0].name, "Notes");
    assert_eq!(second[0].parent_id, None);
}

#[test]
fn existing_store_is_returned_unchanged() {
    let stored = vec![
        Folder {
            id: "default".to_string(),
            name: "Notes".to_string(),
            parent_id: None,
        },
        Folder {
            id: "work".to_string(),
            name: "Work".to_string(),
            parent_id: Some("default".to_string()),
        },
    ];
    let (loaded, persist) = load_folders_step(Some(stored));
    assert!(!persist);
    assert_eq!(loaded.len(), 2);
    assert_eq!(loaded[1].id, "work");
    assert_eq!(loaded[1].parent_id, Some("default".to_string()));
}

use argo_notes::storage::desktop::DesktopStorage;
use argo_notes::storage::web::WebStorage;
use argo_notes::storage::{create_storage, StorageError};

#[test]
fn desktop_paths_follow_the_layout() {
    let storage = create_storage();
    assert!(storage.notes_dir.ends_with("/.argo/notes"));
    let path = storage.note_path("abc-123");
    assert_eq!(path, format!("{}/abc-123.json", storage.notes_dir));
}

#[test]
fn desktop_default_matches_new() {
    let d = DesktopStorage::default();
    assert!(d.notes_dir.ends_with("/.argo/notes"));
}

#[test]
fn web_note_keys_follow_the_layout() {
    let key = WebStorage::note_key("abc-123");
    assert_eq!(key, "argo_note_abc-123");
}

#[test]
fn storage_error_carries_its_message() {
    let e = StorageError { message: String::from("disk unhappy") };
    let copy = e.clone();
    assert_eq!(copy.message(), "disk unhappy");
}

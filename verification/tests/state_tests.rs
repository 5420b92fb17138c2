use argo_notes::note::{Note, SaveStatus};
use argo_notes::state::AppState;
use argo_notes::storage::mem::MemoryStorage;
use argo_notes::storage::summaries_from_texts;
use argo_notes::storage::StorageBackend;

fn note_with(id: &str, content: &str, stamp: i64) -> Note {
    let mut n = Note {
        id: String::from(id),
        title: String::new(),
        content: String::from(content),
        created_at: stamp,
        updated_at: stamp,
    };
    n.extract_title();
    n
}

fn store_with(notes: &[Note]) -> MemoryStorage {
    let mut st = MemoryStorage::new();
    for n in notes {
        st.save_note(n).expect("in-memory save succeeds");
    }
    st
}

#[test]
fn list_orders_newest_first() {
    let st = store_with(&[
        note_with("a", "first", 1),
        note_with("b", "second", 5),
        note_with("c", "third", 3),
    ]);
    let listed = st.list_notes();
    let stamps: Vec<i64> = listed.iter().map(|s| s.updated_at).collect();
    assert_eq!(stamps, vec![5, 3, 1]);
    let ids: Vec<&str> = listed.iter().map(|s| s.id.as_str()).collect();
    assert_eq!(ids, vec!["b", "c", "a"]);
}

#[test]
fn listing_skips_corrupt_entries() {
    let texts = vec![
        argo_notes::codec::encode_note(&note_with("a", "alpha", 1)),
        String::from("this entry is corrupt"),
        argo_notes::codec::encode_note(&note_with("b", "beta", 9)),
    ];
    let listed = summaries_from_texts(&texts);
    assert_eq!(listed.len(), 2);
    assert_eq!(listed[0].id, "b");
    assert_eq!(listed[1].id, "a");
}

#[test]
fn soft_delete_then_undo_restores_the_note() {
    let st = store_with(&[note_with("keep", "kept", 1), note_with("gone", "# Target\nbody", 9)]);
    let mut app = AppState::new(st);
    app.select_note("gone");
    let before = app.current_note.clone().expect("selected note is open");

    app.delete_current_note();
    assert!(app.deleted_note.is_some());
    assert!(app.storage.load_note("gone").is_none());

    app.undo_delete();
    assert!(app.deleted_note.is_none());
    let after = app.current_note.clone().expect("undo re-selects the note");
    assert_eq!(after, before);
    let listed = app.storage.list_notes();
    assert!(listed.iter().any(|s| s.id == "gone" && s.title == before.title));
}

#[test]
fn deleting_the_open_note_selects_the_remaining_one() {
    let st = store_with(&[note_with("other", "the other", 1), note_with("open", "open one", 9)]);
    let mut app = AppState::new(st);
    app.select_note("open");
    app.delete_current_note();
    let now_open = app.current_note.as_ref().expect("the other note becomes current");
    assert_eq!(now_open.id, "other");
    assert_eq!(app.save_status, SaveStatus::Saved);
}

#[test]
fn deleting_the_last_note_leaves_nothing_open() {
    let st = store_with(&[note_with("only", "alone", 1)]);
    let mut app = AppState::new(st);
    app.select_note("only");
    app.delete_current_note();
    assert!(app.current_note.is_none());
    assert!(app.deleted_note.is_some());
    assert!(app.notes.is_empty());
}

#[test]
fn clear_deleted_note_expires_the_undo_window() {
    let st = store_with(&[note_with("n", "x", 1)]);
    let mut app = AppState::new(st);
    app.select_note("n");
    app.delete_current_note();
    assert!(app.deleted_note.is_some());
    app.clear_deleted_note();
    assert!(app.deleted_note.is_none());
    // with the slot cleared, undo has nothing to restore
    app.undo_delete();
    assert!(app.storage.load_note("n").is_none());
}

#[test]
fn save_failure_preserves_content_and_surfaces_error() {
    let st = store_with(&[note_with("n", "untouched text", 1)]);
    let mut app = AppState::new(st);
    app.select_note("n");
    app.update_content(String::from("edited but unsaved"));
    assert_eq!(app.save_status, SaveStatus::Modified);

    app.storage.set_fail_writes(true);
    app.save_current_note();
    assert_eq!(app.save_status, SaveStatus::Error);
    let still_open = app.current_note.as_ref().expect("note stays open");
    assert_eq!(still_open.content, "edited but unsaved");
    // the store still holds the old content
    let stored = app.storage.load_note("n").expect("old record is intact");
    assert_eq!(stored.content, "untouched text");

    app.storage.set_fail_writes(false);
    app.save_current_note();
    assert_eq!(app.save_status, SaveStatus::Saved);
    let stored = app.storage.load_note("n").expect("record is there");
    assert_eq!(stored.content, "edited but unsaved");
}

#[test]
fn failed_delete_changes_nothing() {
    let st = store_with(&[note_with("n", "body", 1)]);
    let mut app = AppState::new(st);
    app.select_note("n");
    app.storage.set_fail_writes(true);
    app.delete_current_note();
    assert!(app.deleted_note.is_none());
    let open = app.current_note.as_ref().expect("note still open");
    assert_eq!(open.id, "n");
    app.storage.set_fail_writes(false);
    assert!(app.storage.load_note("n").is_some());
}

#[test]
fn update_content_rederives_title_and_marks_modified() {
    let st = store_with(&[note_with("n", "old", 3)]);
    let mut app = AppState::new(st);
    app.select_note("n");
    app.update_content(String::from("# Fresh Title\nbody"));
    let open = app.current_note.as_ref().expect("note open");
    assert_eq!(open.title, "Fresh Title");
    assert_eq!(open.content, "# Fresh Title\nbody");
    assert_eq!(app.save_status, SaveStatus::Modified);
}

#[test]
fn update_content_without_open_note_does_nothing() {
    let mut app = AppState::new(MemoryStorage::new());
    app.update_content(String::from("ignored"));
    assert!(app.current_note.is_none());
    assert_eq!(app.save_status, SaveStatus::Saved);
}

#[test]
fn selecting_an_unknown_id_opens_nothing() {
    let st = store_with(&[note_with("n", "x", 1)]);
    let mut app = AppState::new(st);
    app.select_note("n");
    app.select_note("no-such-id");
    assert!(app.current_note.is_none());
}

#[test]
fn create_note_opens_a_fresh_empty_note_and_keeps_the_old_one() {
    let mut app = AppState::new(MemoryStorage::new());
    app.create_note();
    let first = app.current_note.clone().expect("fresh note open");
    assert_eq!(first.title, "Untitled");
    assert_eq!(first.content, "");
    assert_eq!(app.save_status, SaveStatus::Saved);

    app.update_content(String::from("precious edit"));
    app.create_note();
    let second = app.current_note.clone().expect("second fresh note open");
    assert_ne!(second.id, first.id);
    // the edited first note was saved before the second was created
    let stored = app.storage.load_note(first.id.as_str()).expect("first note persisted");
    assert_eq!(stored.content, "precious edit");
    assert_eq!(app.notes.len(), 2);
}

#[test]
fn create_aborts_when_the_open_note_cannot_be_saved() {
    let st = store_with(&[note_with("n", "body", 1)]);
    let mut app = AppState::new(st);
    app.select_note("n");
    app.update_content(String::from("unsaved edits"));
    app.storage.set_fail_writes(true);
    app.create_note();
    // the open note is not replaced and the failure is shown
    let open = app.current_note.as_ref().expect("note still open");
    assert_eq!(open.id, "n");
    assert_eq!(open.content, "unsaved edits");
    assert_eq!(app.save_status, SaveStatus::Error);
    assert_eq!(app.notes.len(), 1);
}

#[test]
fn update_stamps_are_pinned_when_handed_in() {
    let mut n = note_with("a", "c", 5);
    n.touch_at(99);
    assert_eq!(n.updated_at, 99);
    assert_eq!(n.created_at, 5);
    assert_eq!(n.content, "c");

    let st = store_with(&[note_with("n", "x", 1)]);
    let mut app = AppState::new(st);
    app.select_note("n");
    app.update_content_at(String::from("y"), 4242);
    assert_eq!(app.current_note.as_ref().unwrap().updated_at, 4242);
    assert_eq!(app.current_note.as_ref().unwrap().content, "y");
    assert_eq!(app.save_status, SaveStatus::Modified);
}

#[test]
fn visibility_toggles_flip_independently() {
    let mut app = AppState::new(MemoryStorage::new());
    assert!(!app.is_sidebar_visible);
    app.toggle_sidebar();
    assert!(app.is_sidebar_visible);
    app.toggle_outline();
    app.toggle_preview();
    app.toggle_focus_mode();
    assert!(app.is_outline_visible && app.is_preview_visible && app.is_focus_mode);
    app.toggle_sidebar();
    assert!(!app.is_sidebar_visible);
    assert!(app.is_outline_visible && app.is_preview_visible && app.is_focus_mode);
}

#[test]
fn second_delete_overwrites_the_pending_undo_slot() {
    let st = store_with(&[note_with("a", "first", 5), note_with("b", "second", 1)]);
    let mut app = AppState::new(st);
    app.select_note("a");
    app.delete_current_note();
    assert_eq!(app.deleted_note.as_ref().unwrap().id, "a");
    // the remaining note was auto-selected; deleting it supersedes the slot
    app.delete_current_note();
    assert_eq!(app.deleted_note.as_ref().unwrap().id, "b");
    app.undo_delete();
    // only the latest deletion can be restored
    assert!(app.storage.load_note("b").is_some());
    assert!(app.storage.load_note("a").is_none());
}

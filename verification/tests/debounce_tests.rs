use argo_notes::debounce::{debounce_fire_times, TokenCell, AUTOSAVE_DELAY_MS};
use argo_notes::note::SaveStatus;
use argo_notes::state::AppState;
use argo_notes::storage::mem::MemoryStorage;
use argo_notes::storage::StorageBackend;

#[test]
fn rapid_edits_coalesce_into_one_save() {
    // edits at t=0, t=0.3 and t=0.9 with a delay of one time unit:
    // exactly one save fires, at t=1.9
    let edits = vec![0u64, 300, 900];
    let fires = debounce_fire_times(&edits, AUTOSAVE_DELAY_MS);
    assert_eq!(fires, vec![1900]);
}

#[test]
fn spaced_edits_each_fire() {
    let edits = vec![0u64, 5000, 10_000];
    let fires = debounce_fire_times(&edits, AUTOSAVE_DELAY_MS);
    assert_eq!(fires, vec![1000, 6000, 11_000]);
}

#[test]
fn no_edits_no_fires() {
    let edits: Vec<u64> = Vec::new();
    assert!(debounce_fire_times(&edits, AUTOSAVE_DELAY_MS).is_empty());
}

#[test]
fn only_the_latest_token_fires_and_sees_the_latest_content() {
    let mut store = MemoryStorage::new();
    let note = {
        let mut n = argo_notes::note::Note::new();
        n.id = String::from("n");
        n
    };
    store.save_note(&note).expect("in-memory save succeeds");
    let mut app = AppState::new(store);
    app.select_note("n");

    let mut cell = TokenCell::new();

    // t = 0
    app.update_content(String::from("draft one"));
    let t1 = cell.arm();
    // t = 300
    app.update_content(String::from("draft two"));
    let t2 = cell.arm();
    // t = 900
    app.update_content(String::from("draft three"));
    let t3 = cell.arm();

    // t = 1000, 1300: the first two timers come due but are superseded
    let mut saves: u32 = 0;
    for stale in [t1, t2] {
        if cell.is_current(stale) {
            app.save_current_note();
            saves += 1;
        }
    }
    assert_eq!(saves, 0);
    assert_eq!(app.save_status, SaveStatus::Modified);

    // t = 1900: the last timer still holds the current token
    assert!(cell.is_current(t3));
    app.save_current_note();

    assert_eq!(app.save_status, SaveStatus::Saved);
    let stored = app.storage.load_note("n").expect("note persisted");
    assert_eq!(stored.content, "draft three");
}

#[test]
fn arming_supersedes_every_older_token() {
    let mut cell = TokenCell::new();
    let a = cell.arm();
    assert!(cell.is_current(a));
    let b = cell.arm();
    assert!(!cell.is_current(a));
    assert!(cell.is_current(b));
    assert_ne!(a, b);
}

//! Core of a distraction-free note-taking application: the note entity with
//! its derived title, the storage-backend abstraction with its verified
//! in-memory model, the record codec used by the durable backends, the
//! application state manager, and the token-based debounce policy.

pub mod codec;
pub mod debounce;
pub mod note;
pub mod outline;
pub mod quick_switcher;
pub mod relative_time;
pub mod state;
pub mod status_bar;
pub mod storage;
pub mod text;
pub mod title;

//! The filesystem-backed store's layout: one record file per note at
//! `<home>/.argo/notes/<id>.json`. This module owns the path arithmetic; the
//! reading and writing of the files themselves is the shell's concern, which
//! hands record texts to and from the verified codec and listing functions.

use vstd::prelude::*;

verus! {

/// The filesystem-backed note store: the directory its record files live in.
#[derive(Debug)]
pub struct DesktopStorage {
    pub notes_dir: String,
}

impl Clone for DesktopStorage {
    fn clone(&self) -> (r: Self)
        ensures
            r == *self,
    {
        DesktopStorage { notes_dir: self.notes_dir.clone() }
    }
}

/// Relies on `dirs::home_dir`: the user's home directory as the platform
/// reports it, or nothing; the path is handed on as a plain string.
#[verifier::external_body]
fn home_dir_string() -> (r: Option<String>) {
    dirs::home_dir().map(|p| p.to_string_lossy().into_owned())
}

impl DesktopStorage {
    /// The store rooted at `.argo/notes` under the home directory, or under
    /// the current directory when the platform reports no home. Creating the
    /// directory, like all file access, is its caller's concern.
    pub fn new() -> (r: DesktopStorage)
        ensures
            exists|prefix: Seq<char>| r.notes_dir@ == prefix + "/.argo/notes"@,
    {
        let mut base = match home_dir_string() {
            Some(h) => h,
            None => String::from_str("."),
        };
        let ghost prefix = base@;
        base.append("/.argo/notes");
        proof {
            assert(base@ == prefix + "/.argo/notes"@);
        }
        DesktopStorage { notes_dir: base }
    }

    /// The path of the record file for the note with the given id.
    pub fn note_path(&self, id: &str) -> (r: String)
        ensures
            r@ == self.notes_dir@ + "/"@ + id@ + ".json"@,
    {
        let mut p = self.notes_dir.clone();
        p.append("/");
        p.append(id);
        p.append(".json");
        p
    }
}

impl Default for DesktopStorage {
    /// The store under the home directory, as `DesktopStorage::new` makes it.
    fn default() -> (r: Self)
        ensures
            exists|prefix: Seq<char>| r.notes_dir@ == prefix + "/.argo/notes"@,
    {
        DesktopStorage::new()
    }
}

} // verus!

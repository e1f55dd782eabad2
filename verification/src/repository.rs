//! Where the settings file lives.

use vstd::prelude::*;
use crate::paths::{join_path, ends_with, plainly_relative, has_verbatim_prefix, plain_base, joined, joined_loosely};

verus! {

/// The settings kept as JSON in a file, written atomically through a
/// temporary file beside it.
#[derive(Debug, Clone)]
pub struct JsonConfigRepository {
    path: String,
}

impl JsonConfigRepository {
    /// The file's path.
    pub closed spec fn path_text(&self) -> Seq<char> {
        self.path@
    }

    /// The settings in the file at `path`.
    pub fn new(path: String) -> (r: Self)
        ensures
            r.path_text() == path@,
    {
        JsonConfigRepository { path }
    }

    /// The file's path.
    pub fn path(&self) -> (r: &str)
        ensures
            r@ == self.path_text(),
    {
        self.path.as_str()
    }

    /// The usual place of the settings: `data/config.json` under the folder
    /// `base` (the project's folder); `None` where the joined path is not
    /// UTF-8, which cannot happen for a base without verbatim prefix.
    pub fn default_path(base: &str) -> (r: Option<String>)
        ensures
            !has_verbatim_prefix(base@) ==> (r matches Some(p) ==> ends_with(p@, "data/config.json"@)),
            !has_verbatim_prefix(base@) ==> r is Some,
            !has_verbatim_prefix(base@) ==> (r matches Some(p) ==> joined_loosely(base@, "data/config.json"@, p@)),
            plain_base(base@) ==> (r matches Some(p) ==> joined(base@, "data/config.json"@, p@)),
    {
        proof {
            reveal_strlit("data/config.json");
            assert(plainly_relative("data/config.json"@));
        }
        join_path(base, "data/config.json")
    }
}

} // verus!

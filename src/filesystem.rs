//! The filesystem backend's own logic: where each key lives below the
//! store's root. Reading and writing the files is left to the caller.

use vstd::prelude::*;
use crate::error::Error;
use crate::keys::{create_path, key_error, key_path, string_views, valid_key};
use crate::text::owned;

verus! {

/// How many directory walks a prefix search runs at once.
pub const MAXIMUM_PARALLEL_SEARCH: usize = 512;

/// A store kept in files below a root directory.
pub struct FileStorage {
    path: String,
}

impl FileStorage {
    pub closed spec fn root(&self) -> Seq<char> {
        self.path@
    }

    /// A store rooted at the current directory.
    pub fn new() -> (r: FileStorage)
        ensures
            r.root() == Seq::<char>::empty(),
    {
        FileStorage { path: String::new() }
    }

    /// A store rooted at `path`.
    pub fn from_path(path: &str) -> (r: FileStorage)
        ensures
            r.root() == path@,
    {
        FileStorage { path: owned(path) }
    }

    /// The root directory.
    pub fn root_path(&self) -> (r: String)
        ensures
            r@ == self.root(),
    {
        self.path.clone()
    }

    /// The path of the leaf file of `key`: the root, the key's directory
    /// names, then `$`.
    pub fn leaf_path(&self, key: &str) -> (r: Result<Vec<String>, Error>)
        ensures
            r is Ok <==> valid_key(key@),
            r is Err ==> key_error(key@) == Some(r->Err_0),
            r is Ok ==> string_views(r->Ok_0@) == seq![self.root()] + key_path(key@),
    {
        let parts = create_path(key)?;
        let mut out: Vec<String> = Vec::new();
        out.push(self.path.clone());
        let mut i: usize = 0;
        while i < parts.len()
            invariant
                0 <= i <= parts@.len(),
                string_views(out@) == seq![self.path@] + string_views(parts@).subrange(0, i as int),
            decreases parts@.len() - i,
        {
            let ghost before = string_views(out@);
            out.push(parts[i].clone());
            assert(string_views(out@) =~= before.push(parts@[i as int]@));
            assert(string_views(parts@).subrange(0, i + 1) =~= string_views(parts@).subrange(0, i as int).push(parts@[i as int]@));
            i = i + 1;
        }
        assert(string_views(parts@).subrange(0, parts@.len() as int) =~= string_views(parts@));
        Ok(out)
    }
}

} // verus!

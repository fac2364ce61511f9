//! Bookkeeping for a file acquired by the peripheral staging helpers.
//!
//! A [`FileWrapper`] records the path a caller handed in, whether a
//! file already existed there, and -- once staging assigns one -- the
//! temporary path holding a duplicate.  The copy walk itself never
//! uses it; it exists for front ends that stage writes through a
//! temporary location.

use vstd::prelude::*;

verus! {

/// A path acquired for writing, with its staging state.
pub struct FileWrapper {
    /// The path the caller handed in.
    pub file_path: String,
    /// Whether a file already existed at that path.
    pub exists: bool,
    /// Where a duplicate was staged, once one was made.
    pub temp_file_path: Option<String>,
}

impl FileWrapper {
    /// A freshly acquired path: no duplicate has been staged yet.
    pub fn new(file_path: String, exists: bool) -> (r: Self)
        ensures
            r.file_path@ == file_path@,
            r.exists == exists,
            r.temp_file_path is None,
    {
        FileWrapper { file_path, exists, temp_file_path: None }
    }
}

} // verus!

//! The local-filesystem backend's path resolution and entry
//! construction.
//!
//! A virtual path is mapped under a configured base directory by
//! stripping its single leading `/`; directory listings and metadata
//! are read by the asynchronous shell, which hands the plain values
//! observed on disk to the constructors here.

use vstd::prelude::*;

use crate::models::FileEntry;
use crate::vpath::{
    join_entry_path, last_segment, path_join, spec_join_entry_path, spec_last_segment,
    spec_path_join, spec_strip_leading_slash, spec_trim_trailing_slashes, strip_leading_slash,
    trim_trailing_slashes,
};

verus! {

/// Serves the virtual tree from a base directory on the local disk.
#[derive(Clone)]
pub struct LocalFileSystem {
    pub base_path: String,
}

impl LocalFileSystem {
    pub fn new(base_path: String) -> (r: LocalFileSystem)
        ensures
            r.base_path@ == base_path@,
    {
        LocalFileSystem { base_path }
    }

    /// Maps a virtual path under the base directory: the leading `/`
    /// is stripped and the remainder joined onto `base_path`.
    pub fn resolve_path(&self, path: &str) -> (r: String)
        ensures
            r@ == spec_path_join(self.base_path@, spec_strip_leading_slash(path@)),
    {
        let rel = strip_leading_slash(path);
        path_join(self.base_path.as_str(), rel)
    }
}

/// Builds the [`FileEntry`] for one child found while listing
/// `parent_path`: its virtual path joins the parent's path and its
/// name, and only a file carries a size.
pub fn local_list_entry(
    name: String,
    parent_path: &str,
    is_dir: bool,
    is_file: bool,
    len: i64,
    accessed_secs: i64,
) -> (r: FileEntry)
    ensures
        r.name@ == name@,
        r.path@ == spec_join_entry_path(parent_path@, name@),
        r.is_dir == is_dir,
        r.size == if is_file {
            Some(len)
        } else {
            None::<i64>
        },
        r.modified_time == accessed_secs,
{
    let path = join_entry_path(parent_path, name.as_str());
    FileEntry {
        name,
        path,
        is_dir,
        size: if is_file {
            Some(len)
        } else {
            None
        },
        modified_time: accessed_secs,
    }
}

/// Builds the [`FileEntry`] for a metadata lookup of `path`, whose
/// resolved on-disk form is `resolved`: the entry's name is the last
/// segment of the resolved path, and a lookup of a path with no last
/// segment fails with nothing.
pub fn local_metadata_entry(
    resolved: &str,
    path: &str,
    is_dir: bool,
    is_file: bool,
    len: i64,
    accessed_secs: i64,
) -> (r: Option<FileEntry>)
    ensures
        ({
            let name = spec_last_segment(spec_trim_trailing_slashes(resolved@));
            match r {
                Some(e) => {
                    &&& name.len() > 0
                    &&& e.name@ == name
                    &&& e.path@ == path@
                    &&& e.is_dir == is_dir
                    &&& e.size == if is_file {
                        Some(len)
                    } else {
                        None::<i64>
                    }
                    &&& e.modified_time == accessed_secs
                },
                None => name.len() == 0,
            }
        }),
{
    let trimmed = trim_trailing_slashes(resolved);
    let name = last_segment(trimmed);
    if name.unicode_len() == 0 {
        return None;
    }
    Some(
        FileEntry {
            name: name.to_owned(),
            path: path.to_owned(),
            is_dir,
            size: if is_file {
                Some(len)
            } else {
                None
            },
            modified_time: accessed_secs,
        },
    )
}

} // verus!

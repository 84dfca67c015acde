//! The normalized metadata snapshot built once for every visited filesystem
//! entry: lowercased base name and extension, entry kind, size, age and the
//! lexical hidden flag.
//!
//! Reading metadata from the filesystem is the caller's business; the
//! snapshot builder here receives the raw readings as plain values and does
//! all the normalization, so that every later textual comparison can assume
//! lowercase forms.

use vstd::prelude::*;
use vstd::seq_lib::*;
use vstd::string::*;

use crate::file::{base_name_opt, file_name, normalize};
use crate::text::{chars_eq_str, last_index_of, lower, lower_str, str_to_chars};

verus! {

/// Raw metadata readings for one filesystem entry, as plain values: the
/// entry kind, its byte length, and its modification time in whole seconds
/// since the epoch (`None` when the time could not be read).
pub struct FsMeta {
    pub is_file: bool,
    pub is_dir: bool,
    pub len: u64,
    pub modified: Option<u64>,
}

/// The normalized snapshot of one filesystem entry.
#[derive(Clone)]
pub struct PathInfo {
    /// The entry's path, kept as given.
    pub path: String,
    /// Base name, ASCII-lowercased.
    pub file_name: String,
    /// Extension without its dot, ASCII-lowercased; `None` when the base
    /// name has no extension.
    pub ext: Option<String>,
    pub is_file: bool,
    pub is_dir: bool,
    /// Byte size; present exactly for files.
    pub size: Option<u64>,
    /// Reference time minus modification time, in seconds; absent when the
    /// modification time is unavailable or lies in the future.
    pub age_secs: Option<u64>,
    /// Whether the base name starts with a dot.
    pub hidden: bool,
}

/// The mathematical image of a snapshot.
pub struct PathInfoModel {
    pub path: Seq<char>,
    pub file_name: Seq<char>,
    pub ext: Option<Seq<char>>,
    pub is_file: bool,
    pub is_dir: bool,
    pub size: Option<u64>,
    pub age_secs: Option<u64>,
    pub hidden: bool,
}

impl View for PathInfo {
    type V = PathInfoModel;

    open spec fn view(&self) -> PathInfoModel {
        PathInfoModel {
            path: self.path@,
            file_name: self.file_name@,
            ext: self.ext.deep_view(),
            is_file: self.is_file,
            is_dir: self.is_dir,
            size: self.size,
            age_secs: self.age_secs,
            hidden: self.hidden,
        }
    }
}

/// The name stored in a snapshot: the base name, lowercased; empty for a
/// path with no base name of its own (`/`, `.`, `..`).
pub open spec fn spec_file_name(p: Seq<char>) -> Seq<char> {
    match base_name_opt(p) {
        Some(n) => lower(n),
        None => Seq::empty(),
    }
}

/// The extension a path carries: the lowercased portion of its base name
/// after the last dot, unless that dot is the name's first character or the
/// path has no base name at all.
pub open spec fn spec_ext(p: Seq<char>) -> Option<Seq<char>> {
    match base_name_opt(p) {
        Some(n) => match n.index_of_last('.') {
            Some(j) => if j >= 1 {
                Some(lower(n.subrange(j + 1, n.len() as int)))
            } else {
                None
            },
            None => None,
        },
        None => None,
    }
}

/// Whether a path's base name starts with a dot; a path with no base name
/// of its own is never hidden.
pub open spec fn spec_hidden(p: Seq<char>) -> bool {
    match base_name_opt(p) {
        Some(n) => n[0] == '.',
        None => false,
    }
}

/// The age assigned to an entry: reference time minus modification time,
/// absent when the time is unavailable or lies after the reference time.
pub open spec fn spec_age(modified: Option<u64>, now_secs: u64) -> Option<u64> {
    match modified {
        Some(m) => if m <= now_secs {
            Some((now_secs - m) as u64)
        } else {
            None
        },
        None => None,
    }
}

/// What a snapshot built from `path`, `meta` and `now_secs` must hold.
pub open spec fn spec_snapshot(
    info: PathInfoModel,
    path: Seq<char>,
    meta: FsMeta,
    now_secs: u64,
) -> bool {
    &&& info.path == path
    &&& info.file_name == spec_file_name(path)
    &&& info.ext == spec_ext(path)
    &&& info.is_file == meta.is_file
    &&& info.is_dir == meta.is_dir
    &&& info.size == (if meta.is_file {
        Some(meta.len)
    } else {
        None::<u64>
    })
    &&& info.age_secs == spec_age(meta.modified, now_secs)
    &&& info.hidden == spec_hidden(path)
}

impl PathInfo {
    /// Build the snapshot for one entry from its raw metadata readings; an
    /// entry whose metadata could not be read (`meta` absent) yields no
    /// snapshot and is thereby skipped.
    pub fn from_fs(path: &str, meta: &Option<FsMeta>, now_secs: u64) -> (r: Option<PathInfo>)
        ensures
            r is Some <==> meta is Some,
            r is Some ==> spec_snapshot(r.unwrap()@, path@, meta.unwrap(), now_secs),
    {
        let m = match meta {
            Some(m) => m,
            None => {
                return None;
            },
        };
        let size = if m.is_file {
            Some(m.len)
        } else {
            None
        };
        let age_secs = match m.modified {
            Some(mt) => {
                if mt <= now_secs {
                    Some(now_secs - mt)
                } else {
                    None
                }
            },
            None => None,
        };
        let bn: &str = file_name(path);
        let bchars = str_to_chars(bn);
        if bchars.len() == 0 || chars_eq_str(&bchars, ".") || chars_eq_str(&bchars, "..") {
            // `/`, `.` and `..` name no entry of their own: empty name, no
            // extension, not hidden.
            return Some(
                PathInfo {
                    path: normalize(path),
                    file_name: String::new(),
                    ext: None,
                    is_file: m.is_file,
                    is_dir: m.is_dir,
                    size,
                    age_secs,
                    hidden: false,
                },
            );
        }
        let lowname: String = lower_str(bn);
        let bl = bn.unicode_len();
        let ext: Option<String> = match last_index_of(&bchars, '.') {
            Some(j) => {
                if j >= 1 {
                    proof {
                        bn@.index_of_last_ensures('.');
                    }
                    let e = bn.substring_char(j + 1, bl);
                    Some(lower_str(e))
                } else {
                    None
                }
            },
            None => None,
        };
        let hidden = bchars[0] == '.';
        Some(
            PathInfo {
                path: normalize(path),
                file_name: lowname,
                ext,
                is_file: m.is_file,
                is_dir: m.is_dir,
                size,
                age_secs,
                hidden,
            },
        )
    }

    /// Build the snapshot for one entry from its raw metadata readings; same
    /// contract as `from_fs`.
    pub fn from_entry(path: &str, meta: &Option<FsMeta>, now_secs: u64) -> (r: Option<PathInfo>)
        ensures
            r is Some <==> meta is Some,
            r is Some ==> spec_snapshot(r.unwrap()@, path@, meta.unwrap(), now_secs),
    {
        Self::from_fs(path, meta, now_secs)
    }
}

} // verus!

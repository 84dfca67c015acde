//! Lexical path helpers: extracting the base name of a slash-separated path
//! and normalizing a path string into an owned value.

use vstd::prelude::*;
use vstd::seq_lib::*;
use vstd::string::*;

use crate::text::str_to_chars;

verus! {

/// The portion of `p` after its last `/`, or all of `p` when it holds none.
pub open spec fn base_name(p: Seq<char>) -> Seq<char> {
    match p.index_of_last('/') {
        Some(j) => p.subrange(j + 1, p.len() as int),
        None => p,
    }
}

/// The base name a path really has: the portion after the last `/`, except
/// that an empty remainder and the special components `.` and `..` name no
/// entry of their own and so have none.
pub open spec fn base_name_opt(p: Seq<char>) -> Option<Seq<char>> {
    let r = base_name(p);
    if r.len() == 0 || r == "."@ || r == ".."@ {
        None
    } else {
        Some(r)
    }
}

/// The base name of a slash-separated path: everything after the final `/`,
/// or the whole path when no `/` occurs.
pub fn file_name(path: &str) -> (r: &str)
    ensures
        r@ == base_name(path@),
{
    let n = path.unicode_len();
    let chars = str_to_chars(path);
    let idx = crate::text::last_index_of(&chars, '/');
    proof {
        path@.index_of_last_ensures('/');
    }
    match idx {
        Some(j) => path.substring_char(j + 1, n),
        None => path,
    }
}

/// An owned copy of the given path string.
pub fn normalize(path: &str) -> (r: String)
    ensures
        r@ == path@,
{
    path.to_owned()
}

} // verus!

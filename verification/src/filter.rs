//! The composable filter predicate: category clauses over a snapshot, the
//! AND-of-categories / OR-within-category evaluation, and the asymmetric
//! merge that layers an overlay predicate over a base one.

use vstd::prelude::*;
use vstd::string::*;

use crate::pathinfo::{PathInfo, PathInfoModel};
use crate::text::{
    contains_sub, ends_with_sub, has_prefix, has_substring, has_suffix, lower, lower_vec,
    starts_with_sub, str_to_chars,
};

verus! {

/// The acceptance criterion assembled from independent category clauses.
/// Empty term lists and absent bounds impose no constraint.
#[derive(Clone)]
pub struct Filter {
    /// Base name must contain one of these (terms lowercased at evaluation).
    pub contains: Vec<String>,
    /// Base name must start with one of these (lowercased at evaluation).
    pub prefix: Vec<String>,
    /// Base name must end with one of these (lowercased at evaluation).
    pub suffix: Vec<String>,
    /// Extension must equal one of these; lowercased, without their dot, at
    /// insertion.
    pub exts: Vec<String>,
    pub ty_file: bool,
    pub ty_dir: bool,
    pub min_age_secs: Option<u64>,
    pub max_age_secs: Option<u64>,
    pub min_size: Option<u64>,
    pub max_size: Option<u64>,
    /// Hidden entries are rejected unless this is set.
    pub include_hidden: bool,
}

/// The mathematical image of a filter.
pub struct FilterModel {
    pub contains: Seq<Seq<char>>,
    pub prefix: Seq<Seq<char>>,
    pub suffix: Seq<Seq<char>>,
    pub exts: Seq<Seq<char>>,
    pub ty_file: bool,
    pub ty_dir: bool,
    pub min_age_secs: Option<u64>,
    pub max_age_secs: Option<u64>,
    pub min_size: Option<u64>,
    pub max_size: Option<u64>,
    pub include_hidden: bool,
}

impl FilterModel {
    /// The filter that accepts every non-hidden entry.
    pub open spec fn empty() -> FilterModel {
        FilterModel {
            contains: Seq::empty(),
            prefix: Seq::empty(),
            suffix: Seq::empty(),
            exts: Seq::empty(),
            ty_file: false,
            ty_dir: false,
            min_age_secs: None,
            max_age_secs: None,
            min_size: None,
            max_size: None,
            include_hidden: false,
        }
    }
}

impl View for Filter {
    type V = FilterModel;

    open spec fn view(&self) -> FilterModel {
        FilterModel {
            contains: self.contains.deep_view(),
            prefix: self.prefix.deep_view(),
            suffix: self.suffix.deep_view(),
            exts: self.exts.deep_view(),
            ty_file: self.ty_file,
            ty_dir: self.ty_dir,
            min_age_secs: self.min_age_secs,
            max_age_secs: self.max_age_secs,
            min_size: self.min_size,
            max_size: self.max_size,
            include_hidden: self.include_hidden,
        }
    }
}

impl Default for Filter {
    /// The filter with every category open: it accepts every non-hidden
    /// entry.
    fn default() -> (r: Filter)
        ensures
            r@ == FilterModel::empty(),
    {
        let r = Filter {
            contains: Vec::new(),
            prefix: Vec::new(),
            suffix: Vec::new(),
            exts: Vec::new(),
            ty_file: false,
            ty_dir: false,
            min_age_secs: None,
            max_age_secs: None,
            min_size: None,
            max_size: None,
            include_hidden: false,
        };
        proof {
            assert(r@.contains =~= FilterModel::empty().contains);
            assert(r@.prefix =~= FilterModel::empty().prefix);
            assert(r@.suffix =~= FilterModel::empty().suffix);
            assert(r@.exts =~= FilterModel::empty().exts);
        }
        r
    }
}

/// Type clause: a files-only filter rejects non-files, a directories-only
/// filter rejects non-directories; both flags together apply both.
pub open spec fn type_ok(f: FilterModel, s: PathInfoModel) -> bool {
    &&& (f.ty_file ==> s.is_file)
    &&& (f.ty_dir ==> s.is_dir)
}

/// Hidden clause: hidden entries pass only when the filter includes them.
pub open spec fn hidden_ok(f: FilterModel, s: PathInfoModel) -> bool {
    f.include_hidden || !s.hidden
}

/// Whether the name contains at least one of the terms, each term
/// lowercased first.
pub open spec fn any_contains(terms: Seq<Seq<char>>, name: Seq<char>) -> bool {
    exists|i: int| 0 <= i < terms.len() && has_substring(name, lower(terms[i]))
}

/// Whether the name starts with at least one of the terms, each term
/// lowercased first.
pub open spec fn any_prefix(terms: Seq<Seq<char>>, name: Seq<char>) -> bool {
    exists|i: int| 0 <= i < terms.len() && has_prefix(name, lower(terms[i]))
}

/// Whether the name ends with at least one of the terms, each term
/// lowercased first.
pub open spec fn any_suffix(terms: Seq<Seq<char>>, name: Seq<char>) -> bool {
    exists|i: int| 0 <= i < terms.len() && has_suffix(name, lower(terms[i]))
}

/// Name-substring clause: an empty term list imposes nothing.
pub open spec fn contains_ok(f: FilterModel, s: PathInfoModel) -> bool {
    f.contains.len() == 0 || any_contains(f.contains, s.file_name)
}

/// Prefix clause.
pub open spec fn prefix_ok(f: FilterModel, s: PathInfoModel) -> bool {
    f.prefix.len() == 0 || any_prefix(f.prefix, s.file_name)
}

/// Suffix clause.
pub open spec fn suffix_ok(f: FilterModel, s: PathInfoModel) -> bool {
    f.suffix.len() == 0 || any_suffix(f.suffix, s.file_name)
}

/// Extension clause: when terms are configured the snapshot must have an
/// extension equal to one of them.
pub open spec fn ext_ok(f: FilterModel, s: PathInfoModel) -> bool {
    f.exts.len() == 0 || match s.ext {
        Some(e) => exists|i: int| 0 <= i < f.exts.len() && f.exts[i] == e,
        None => false,
    }
}

/// Size clause: each configured bound is inclusive, and a missing size
/// fails any configured bound.
pub open spec fn size_ok(f: FilterModel, s: PathInfoModel) -> bool {
    &&& match f.min_size {
        Some(m) => s.size is Some && s.size.unwrap() >= m,
        None => true,
    }
    &&& match f.max_size {
        Some(m) => s.size is Some && s.size.unwrap() <= m,
        None => true,
    }
}

/// Age clause: symmetric to the size clause, over the age instead.
pub open spec fn age_ok(f: FilterModel, s: PathInfoModel) -> bool {
    &&& match f.min_age_secs {
        Some(m) => s.age_secs is Some && s.age_secs.unwrap() >= m,
        None => true,
    }
    &&& match f.max_age_secs {
        Some(m) => s.age_secs is Some && s.age_secs.unwrap() <= m,
        None => true,
    }
}

/// Acceptance: the conjunction of all seven category clauses.
pub open spec fn spec_matches(f: FilterModel, s: PathInfoModel) -> bool {
    &&& type_ok(f, s)
    &&& hidden_ok(f, s)
    &&& contains_ok(f, s)
    &&& prefix_ok(f, s)
    &&& suffix_ok(f, s)
    &&& ext_ok(f, s)
    &&& size_ok(f, s)
    &&& age_ok(f, s)
}

/// Whether the lowercased form of one of the terms is a substring of the
/// name.
fn any_term_contained(terms: &Vec<String>, name: &Vec<char>) -> (r: bool)
    ensures
        r == any_contains(terms.deep_view(), name@),
{
    let mut i: usize = 0;
    while i < terms.len()
        invariant
            i <= terms@.len(),
            forall|k: int| 0 <= k < i ==> !has_substring(name@, lower(terms.deep_view()[k])),
        decreases terms@.len() - i,
    {
        let t = lower_vec(&str_to_chars(terms[i].as_str()));
        if contains_sub(name, &t) {
            proof {
                assert(terms.deep_view()[i as int] == terms@[i as int]@);
                assert(has_substring(name@, lower(terms.deep_view()[i as int])));
            }
            return true;
        }
        i = i + 1;
    }
    false
}

/// Whether the lowercased form of one of the terms is a prefix of the name.
fn any_term_prefix(terms: &Vec<String>, name: &Vec<char>) -> (r: bool)
    ensures
        r == any_prefix(terms.deep_view(), name@),
{
    let mut i: usize = 0;
    while i < terms.len()
        invariant
            i <= terms@.len(),
            forall|k: int| 0 <= k < i ==> !has_prefix(name@, lower(terms.deep_view()[k])),
        decreases terms@.len() - i,
    {
        let t = lower_vec(&str_to_chars(terms[i].as_str()));
        if starts_with_sub(name, &t) {
            proof {
                assert(terms.deep_view()[i as int] == terms@[i as int]@);
                assert(has_prefix(name@, lower(terms.deep_view()[i as int])));
            }
            return true;
        }
        i = i + 1;
    }
    false
}

/// Whether the lowercased form of one of the terms is a suffix of the name.
fn any_term_suffix(terms: &Vec<String>, name: &Vec<char>) -> (r: bool)
    ensures
        r == any_suffix(terms.deep_view(), name@),
{
    let mut i: usize = 0;
    while i < terms.len()
        invariant
            i <= terms@.len(),
            forall|k: int| 0 <= k < i ==> !has_suffix(name@, lower(terms.deep_view()[k])),
        decreases terms@.len() - i,
    {
        let t = lower_vec(&str_to_chars(terms[i].as_str()));
        if ends_with_sub(name, &t) {
            proof {
                assert(terms.deep_view()[i as int] == terms@[i as int]@);
                assert(has_suffix(name@, lower(terms.deep_view()[i as int])));
            }
            return true;
        }
        i = i + 1;
    }
    false
}

/// Whether one of the terms equals the extension exactly.
fn any_ext_equal(terms: &Vec<String>, e: &String) -> (r: bool)
    ensures
        r == exists|i: int| 0 <= i < terms.deep_view().len() && terms.deep_view()[i] == e@,
{
    let mut i: usize = 0;
    while i < terms.len()
        invariant
            i <= terms@.len(),
            forall|k: int| 0 <= k < i ==> terms.deep_view()[k] != e@,
        decreases terms@.len() - i,
    {
        if terms[i].eq(e) {
            proof {
                assert(terms.deep_view()[i as int] == terms@[i as int]@);
            }
            return true;
        }
        i = i + 1;
    }
    false
}

/// The polymorphic matching capability: anything that can accept or reject
/// a snapshot can drive a traversal.
pub trait Matcher {
    /// What this matcher accepts.
    spec fn spec_accepts(&self, info: PathInfoModel) -> bool;

    /// Decide one snapshot.
    fn matches(&self, info: &PathInfo) -> (r: bool)
        ensures
            r == self.spec_accepts(info@),
    ;
}

impl Matcher for Filter {
    open spec fn spec_accepts(&self, info: PathInfoModel) -> bool {
        spec_matches(self@, info)
    }

    /// Evaluate the seven category clauses against one snapshot.
    fn matches(&self, info: &PathInfo) -> (r: bool)
        ensures
            r == spec_matches(self@, info@),
    {
        // type
        if self.ty_file && !info.is_file {
            return false;
        }
        if self.ty_dir && !info.is_dir {
            return false;
        }
        // hidden
        if !self.include_hidden && info.hidden {
            return false;
        }
        // name-based
        let name = str_to_chars(info.file_name.as_str());
        if self.contains.len() > 0 && !any_term_contained(&self.contains, &name) {
            return false;
        }
        if self.prefix.len() > 0 && !any_term_prefix(&self.prefix, &name) {
            return false;
        }
        if self.suffix.len() > 0 && !any_term_suffix(&self.suffix, &name) {
            return false;
        }
        // ext
        if self.exts.len() > 0 {
            match &info.ext {
                Some(e) => {
                    if !any_ext_equal(&self.exts, e) {
                        return false;
                    }
                },
                None => {
                    return false;
                },
            }
        }
        // size
        match self.min_size {
            Some(m) => {
                match info.size {
                    Some(sz) => {
                        if sz < m {
                            return false;
                        }
                    },
                    None => {
                        return false;
                    },
                }
            },
            None => {},
        }
        match self.max_size {
            Some(m) => {
                match info.size {
                    Some(sz) => {
                        if sz > m {
                            return false;
                        }
                    },
                    None => {
                        return false;
                    },
                }
            },
            None => {},
        }
        // age
        match self.min_age_secs {
            Some(m) => {
                match info.age_secs {
                    Some(a) => {
                        if a < m {
                            return false;
                        }
                    },
                    None => {
                        return false;
                    },
                }
            },
            None => {},
        }
        match self.max_age_secs {
            Some(m) => {
                match info.age_secs {
                    Some(a) => {
                        if a > m {
                            return false;
                        }
                    },
                    None => {
                        return false;
                    },
                }
            },
            None => {},
        }
        true
    }
}

/// What the merge of a base and an overlay must hold: list categories are
/// the base's entries followed by the overlay's; the type flags are the
/// overlay's when it sets at least one, otherwise the base's; each scalar
/// bound is the overlay's when present, otherwise the base's; and hidden
/// inclusion is the disjunction of both sides.
pub open spec fn spec_merge(a: FilterModel, b: FilterModel) -> FilterModel {
    FilterModel {
        contains: a.contains + b.contains,
        prefix: a.prefix + b.prefix,
        suffix: a.suffix + b.suffix,
        exts: a.exts + b.exts,
        ty_file: if b.ty_file || b.ty_dir {
            b.ty_file
        } else {
            a.ty_file
        },
        ty_dir: if b.ty_file || b.ty_dir {
            b.ty_dir
        } else {
            a.ty_dir
        },
        min_age_secs: if b.min_age_secs is Some {
            b.min_age_secs
        } else {
            a.min_age_secs
        },
        max_age_secs: if b.max_age_secs is Some {
            b.max_age_secs
        } else {
            a.max_age_secs
        },
        min_size: if b.min_size is Some {
            b.min_size
        } else {
            a.min_size
        },
        max_size: if b.max_size is Some {
            b.max_size
        } else {
            a.max_size
        },
        include_hidden: a.include_hidden || b.include_hidden,
    }
}

/// Merge an overlay filter into a base filter.
pub fn merge(a: Filter, b: Filter) -> (r: Filter)
    ensures
        r@ == spec_merge(a@, b@),
{
    let ghost ga = a@;
    let ghost gb = b@;
    let mut a = a;
    let mut b = b;
    a.contains.append(&mut b.contains);
    a.prefix.append(&mut b.prefix);
    a.suffix.append(&mut b.suffix);
    a.exts.append(&mut b.exts);
    if b.ty_file || b.ty_dir {
        a.ty_file = b.ty_file;
        a.ty_dir = b.ty_dir;
    }
    if b.min_age_secs.is_some() {
        a.min_age_secs = b.min_age_secs;
    }
    if b.max_age_secs.is_some() {
        a.max_age_secs = b.max_age_secs;
    }
    if b.min_size.is_some() {
        a.min_size = b.min_size;
    }
    if b.max_size.is_some() {
        a.max_size = b.max_size;
    }
    if b.include_hidden {
        a.include_hidden = true;
    }
    proof {
        assert(a@.contains =~= spec_merge(ga, gb).contains);
        assert(a@.prefix =~= spec_merge(ga, gb).prefix);
        assert(a@.suffix =~= spec_merge(ga, gb).suffix);
        assert(a@.exts =~= spec_merge(ga, gb).exts);
    }
    a
}

/// Law: a filter holding the files-only flag and nothing else accepts a
/// non-hidden snapshot exactly when the snapshot is a file. (A hidden
/// snapshot is rejected outright, since such a filter does not include
/// hidden entries.)
pub proof fn lemma_files_only_matches(f: FilterModel, s: PathInfoModel)
    requires
        f == (FilterModel { ty_file: true, ..FilterModel::empty() }),
        !s.hidden,
    ensures
        spec_matches(f, s) == s.is_file,
{
}

/// Law: for a filter holding name-substring terms and nothing else,
/// acceptance of a non-hidden snapshot is exactly "the base name contains
/// at least one term", terms lowercased.
pub proof fn lemma_contains_terms_decide(terms: Seq<Seq<char>>, f: FilterModel, s: PathInfoModel)
    requires
        f == (FilterModel { contains: terms, ..FilterModel::empty() }),
        terms.len() > 0,
        !s.hidden,
    ensures
        spec_matches(f, s) == any_contains(terms, s.file_name),
{
}

/// Law: the analogue of `lemma_contains_terms_decide` for prefix terms.
pub proof fn lemma_prefix_terms_decide(terms: Seq<Seq<char>>, f: FilterModel, s: PathInfoModel)
    requires
        f == (FilterModel { prefix: terms, ..FilterModel::empty() }),
        terms.len() > 0,
        !s.hidden,
    ensures
        spec_matches(f, s) == any_prefix(terms, s.file_name),
{
}

/// Law: the analogue of `lemma_contains_terms_decide` for suffix terms.
pub proof fn lemma_suffix_terms_decide(terms: Seq<Seq<char>>, f: FilterModel, s: PathInfoModel)
    requires
        f == (FilterModel { suffix: terms, ..FilterModel::empty() }),
        terms.len() > 0,
        !s.hidden,
    ensures
        spec_matches(f, s) == any_suffix(terms, s.file_name),
{
}

/// Law: the analogue of `lemma_contains_terms_decide` for extension terms:
/// acceptance is exactly "the snapshot has an extension equal to one of the
/// terms".
pub proof fn lemma_ext_terms_decide(terms: Seq<Seq<char>>, f: FilterModel, s: PathInfoModel)
    requires
        f == (FilterModel { exts: terms, ..FilterModel::empty() }),
        terms.len() > 0,
        !s.hidden,
    ensures
        spec_matches(f, s) == match s.ext {
            Some(e) => terms.contains(e),
            None => false,
        },
{
}

/// Law: extension matching is case-insensitive. A snapshot stores its
/// extension lowercased, so a filter term equal to that lowercased form
/// satisfies the extension clause, whatever the raw spelling's case was.
pub proof fn lemma_ext_case_insensitive(f: FilterModel, s: PathInfoModel, raw: Seq<char>)
    requires
        s.ext == Some(lower(raw)),
        f.exts.contains(lower(raw)),
    ensures
        ext_ok(f, s),
{
}

/// Law: a filter that does not include hidden entries rejects every hidden
/// snapshot, whatever its other clauses say.
pub proof fn lemma_hidden_excluded(f: FilterModel, s: PathInfoModel)
    requires
        !f.include_hidden,
        s.hidden,
    ensures
        !spec_matches(f, s),
{
}

/// Law: setting hidden inclusion lifts the hidden clause for every
/// snapshot.
pub proof fn lemma_hidden_included(f: FilterModel, s: PathInfoModel)
    requires
        f.include_hidden,
    ensures
        hidden_ok(f, s),
{
}

/// Law: size bounds are inclusive at both ends. With both bounds set, the
/// size clause holds exactly when a size is present and lies in the closed
/// interval.
pub proof fn lemma_size_bounds_inclusive(f: FilterModel, s: PathInfoModel, mn: u64, mx: u64)
    requires
        f.min_size == Some(mn),
        f.max_size == Some(mx),
    ensures
        size_ok(f, s) == (s.size is Some && mn <= s.size.unwrap() && s.size.unwrap() <= mx),
{
}

/// Law: a missing size fails any configured size bound.
pub proof fn lemma_missing_size_fails(f: FilterModel, s: PathInfoModel)
    requires
        s.size is None,
        f.min_size is Some || f.max_size is Some,
    ensures
        !size_ok(f, s),
{
}

/// Law: age bounds are inclusive at both ends, as the size bounds are.
pub proof fn lemma_age_bounds_inclusive(f: FilterModel, s: PathInfoModel, mn: u64, mx: u64)
    requires
        f.min_age_secs == Some(mn),
        f.max_age_secs == Some(mx),
    ensures
        age_ok(f, s) == (s.age_secs is Some && mn <= s.age_secs.unwrap() && s.age_secs.unwrap()
            <= mx),
{
}

/// Law: a missing age fails any configured age bound.
pub proof fn lemma_missing_age_fails(f: FilterModel, s: PathInfoModel)
    requires
        s.age_secs is None,
        f.min_age_secs is Some || f.max_age_secs is Some,
    ensures
        !age_ok(f, s),
{
}

} // verus!


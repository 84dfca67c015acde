//! The selection front end: the find arguments, the preset flags, the tiny
//! query language, and the assembly of one filter from all of them.
//!
//! The query language splits its input on whitespace; every token
//! contributes its effect to one accumulating filter, and malformed or
//! unrecognized tokens contribute nothing.

use vstd::prelude::*;
use vstd::seq_lib::*;
use vstd::string::*;

use crate::filter::{merge, spec_merge, Filter, FilterModel};
use crate::text::{
    chars_to_string, drop_leading, drop_leading_exec, first_index_of, has_prefix, lower,
    lower_vec, spec_tokens, starts_with_sub, str_to_chars, sub_chars, tokens_exec,
};
use crate::util::{
    parse_age_chars, parse_human_age, parse_human_size, parse_size_chars, spec_parse_age,
    spec_parse_size,
};

verus! {

/// The selection-related arguments of a find invocation, as plain values.
pub struct FindArgs {
    /// Traversal root.
    pub root: String,
    /// Heuristic single-term shortcut: a glob contributes its final
    /// dot-suffix, a dotted word a suffix, any other word a substring.
    pub pattern: Option<String>,
    /// Query-language text, merged as an overlay over the presets.
    pub select: Option<String>,
    pub images: bool,
    pub videos: bool,
    pub docs: bool,
    /// Minimum age, as a human age literal.
    pub older: Option<String>,
    /// Maximum age, as a human age literal.
    pub newer: Option<String>,
    /// Minimum size, as a human size literal.
    pub larger: Option<String>,
    /// Maximum size, as a human size literal.
    pub smaller: Option<String>,
}

/// The mathematical image of the find arguments.
pub struct FindArgsModel {
    pub root: Seq<char>,
    pub pattern: Option<Seq<char>>,
    pub select: Option<Seq<char>>,
    pub images: bool,
    pub videos: bool,
    pub docs: bool,
    pub older: Option<Seq<char>>,
    pub newer: Option<Seq<char>>,
    pub larger: Option<Seq<char>>,
    pub smaller: Option<Seq<char>>,
}

impl View for FindArgs {
    type V = FindArgsModel;

    open spec fn view(&self) -> FindArgsModel {
        FindArgsModel {
            root: self.root@,
            pattern: self.pattern.deep_view(),
            select: self.select.deep_view(),
            images: self.images,
            videos: self.videos,
            docs: self.docs,
            older: self.older.deep_view(),
            newer: self.newer.deep_view(),
            larger: self.larger.deep_view(),
            smaller: self.smaller.deep_view(),
        }
    }
}

/// Whether a query value spells truth: exactly one of `1`, `true`, `yes`,
/// `on`.
pub open spec fn is_truthy(v: Seq<char>) -> bool {
    v == "1"@ || v == "true"@ || v == "yes"@ || v == "on"@
}

/// The effect of one query token on the accumulating filter. A
/// `key:value` or `key=value` token touches its category; an `age>`/`age<`
/// (`size>`/`size<`) token sets the corresponding bound when its literal
/// parses, and a malformed literal leaves the bound as it was; anything
/// else is ignored.
pub open spec fn apply_token(m: FilterModel, t: Seq<char>) -> FilterModel {
    let jc = t.index_of_first(':');
    let je = t.index_of_first('=');
    if jc is Some || je is Some {
        let j = if jc is Some {
            jc.unwrap()
        } else {
            je.unwrap()
        };
        let k = t.subrange(0, j);
        let v = t.subrange(j + 1, t.len() as int);
        if k == "contains"@ || k == "name"@ {
            FilterModel { contains: m.contains.push(v), ..m }
        } else if k == "prefix"@ {
            FilterModel { prefix: m.prefix.push(v), ..m }
        } else if k == "suffix"@ {
            FilterModel { suffix: m.suffix.push(v), ..m }
        } else if k == "ext"@ {
            FilterModel { exts: m.exts.push(lower(drop_leading(v, '.'))), ..m }
        } else if k == "type"@ {
            FilterModel { ty_file: v == "file"@, ty_dir: v == "dir"@, ..m }
        } else if k == "hidden"@ {
            FilterModel { include_hidden: is_truthy(v), ..m }
        } else {
            m
        }
    } else if has_prefix(t, "age>"@) {
        match spec_parse_age(t.subrange(4, t.len() as int)) {
            Some(v) => FilterModel { min_age_secs: Some(v), ..m },
            None => m,
        }
    } else if has_prefix(t, "age<"@) {
        match spec_parse_age(t.subrange(4, t.len() as int)) {
            Some(v) => FilterModel { max_age_secs: Some(v), ..m },
            None => m,
        }
    } else if has_prefix(t, "size>"@) {
        match spec_parse_size(t.subrange(5, t.len() as int)) {
            Some(v) => FilterModel { min_size: Some(v), ..m },
            None => m,
        }
    } else if has_prefix(t, "size<"@) {
        match spec_parse_size(t.subrange(5, t.len() as int)) {
            Some(v) => FilterModel { max_size: Some(v), ..m },
            None => m,
        }
    } else {
        m
    }
}

/// The tokens' effects folded left over the accumulating filter.
pub open spec fn apply_tokens(m: FilterModel, toks: Seq<Seq<char>>) -> FilterModel
    decreases toks.len(),
{
    if toks.len() == 0 {
        m
    } else {
        apply_tokens(apply_token(m, toks[0]), toks.drop_first())
    }
}

/// What compiling query text yields: every whitespace-separated token's
/// effect applied, in order, to the open filter.
pub open spec fn spec_parse_dsl(s: Seq<char>) -> FilterModel {
    apply_tokens(FilterModel::empty(), spec_tokens(s))
}

/// Apply one query token to the filter.
fn apply_token_exec(f: Filter, tok: &Vec<char>) -> (r: Filter)
    ensures
        r@ == apply_token(f@, tok@),
{
    let mut f = f;
    let ghost m0 = f@;
    let sep: Option<usize> = match first_index_of(tok, ':') {
        Some(j) => Some(j),
        None => first_index_of(tok, '='),
    };
    let n = tok.len();
    match sep {
        Some(j) => {
            proof {
                tok@.index_of_first_ensures(':');
                tok@.index_of_first_ensures('=');
                assert(j < n);
            }
            let k = sub_chars(tok, 0, j);
            let v = sub_chars(tok, j + 1, tok.len());
            if crate::text::chars_eq_str(&k, "contains") || crate::text::chars_eq_str(&k, "name") {
                f.contains.push(chars_to_string(v));
                proof {
                    assert(f@.contains =~~= m0.contains.push(tok@.subrange(
                        j + 1,
                        tok@.len() as int,
                    )));
                }
            } else if crate::text::chars_eq_str(&k, "prefix") {
                f.prefix.push(chars_to_string(v));
                proof {
                    assert(f@.prefix =~~= m0.prefix.push(tok@.subrange(j + 1, tok@.len() as int)));
                }
            } else if crate::text::chars_eq_str(&k, "suffix") {
                f.suffix.push(chars_to_string(v));
                proof {
                    assert(f@.suffix =~~= m0.suffix.push(tok@.subrange(j + 1, tok@.len() as int)));
                }
            } else if crate::text::chars_eq_str(&k, "ext") {
                let stripped = drop_leading_exec(&v, '.');
                f.exts.push(chars_to_string(lower_vec(&stripped)));
                proof {
                    assert(f@.exts =~~= m0.exts.push(lower(drop_leading(tok@.subrange(
                        j + 1,
                        tok@.len() as int,
                    ), '.'))));
                }
            } else if crate::text::chars_eq_str(&k, "type") {
                f.ty_file = crate::text::chars_eq_str(&v, "file");
                f.ty_dir = crate::text::chars_eq_str(&v, "dir");
            } else if crate::text::chars_eq_str(&k, "hidden") {
                f.include_hidden = crate::text::chars_eq_str(&v, "1") || crate::text::chars_eq_str(
                    &v,
                    "true",
                ) || crate::text::chars_eq_str(&v, "yes") || crate::text::chars_eq_str(&v, "on");
            }
            f
        },
        None => {
            let age_min = str_to_chars("age>");
            let age_max = str_to_chars("age<");
            let size_min = str_to_chars("size>");
            let size_max = str_to_chars("size<");
            if starts_with_sub(tok, &age_min) {
                proof {
                    reveal_strlit("age>");
                }
                let rest = sub_chars(tok, 4, tok.len());
                match parse_age_chars(&rest) {
                    Some(v) => {
                        f.min_age_secs = Some(v);
                    },
                    None => {},
                }
            } else if starts_with_sub(tok, &age_max) {
                proof {
                    reveal_strlit("age<");
                }
                let rest = sub_chars(tok, 4, tok.len());
                match parse_age_chars(&rest) {
                    Some(v) => {
                        f.max_age_secs = Some(v);
                    },
                    None => {},
                }
            } else if starts_with_sub(tok, &size_min) {
                proof {
                    reveal_strlit("size>");
                }
                let rest = sub_chars(tok, 5, tok.len());
                match parse_size_chars(&rest) {
                    Some(v) => {
                        f.min_size = Some(v);
                    },
                    None => {},
                }
            } else if starts_with_sub(tok, &size_max) {
                proof {
                    reveal_strlit("size<");
                }
                let rest = sub_chars(tok, 5, tok.len());
                match parse_size_chars(&rest) {
                    Some(v) => {
                        f.max_size = Some(v);
                    },
                    None => {},
                }
            }
            f
        },
    }
}

/// Compile query text into a filter: split on whitespace, apply each
/// token's effect in order.
pub fn parse_select_dsl(dsl: &str) -> (r: Filter)
    ensures
        r@ == spec_parse_dsl(dsl@),
{
    let chars = str_to_chars(dsl);
    let toks = tokens_exec(&chars);
    let ghost all = toks.deep_view();
    let mut f = Filter::default();
    let mut i: usize = 0;
    proof {
        assert(all.subrange(0, all.len() as int) =~~= all);
    }
    while i < toks.len()
        invariant
            i <= toks@.len(),
            all == toks.deep_view(),
            all.len() == toks@.len(),
            apply_tokens(f@, all.subrange(i as int, all.len() as int)) == apply_tokens(
                FilterModel::empty(),
                all,
            ),
        decreases toks@.len() - i,
    {
        let ghost pre = f@;
        f = apply_token_exec(f, &toks[i]);
        proof {
            let suf = all.subrange(i as int, all.len() as int);
            assert(suf[0] == all[i as int]);
            assert(toks@[i as int].deep_view() =~~= toks@[i as int]@);
            assert(toks@[i as int].deep_view() == all[i as int]);
            assert(suf.drop_first() =~~= all.subrange(i + 1, all.len() as int));
            assert(apply_tokens(pre, suf) == apply_tokens(
                apply_token(pre, all[i as int]),
                suf.drop_first(),
            ));
        }
        i = i + 1;
    }
    proof {
        assert(all.subrange(all.len() as int, all.len() as int) =~~= Seq::<Seq<char>>::empty());
    }
    f
}

/// The fixed extension set of the image preset.
pub open spec fn image_exts() -> Seq<Seq<char>> {
    seq!["jpg"@, "jpeg"@, "png"@, "gif"@, "webp"@]
}

/// The fixed extension set of the video preset.
pub open spec fn video_exts() -> Seq<Seq<char>> {
    seq!["mp4"@, "mov"@, "mkv"@, "avi"@]
}

/// The fixed extension set of the document preset.
pub open spec fn doc_exts() -> Seq<Seq<char>> {
    seq!["pdf"@, "docx"@, "txt"@, "md"@]
}

/// The extension terms after the preset flags: the existing terms followed
/// by each enabled preset's set, in flag order.
pub open spec fn preset_exts(e: Seq<Seq<char>>, a: FindArgsModel) -> Seq<Seq<char>> {
    e + (if a.images {
        image_exts()
    } else {
        Seq::empty()
    }) + (if a.videos {
        video_exts()
    } else {
        Seq::empty()
    }) + (if a.docs {
        doc_exts()
    } else {
        Seq::empty()
    })
}

/// A bound after an age preset: the parsed literal when it parses, else
/// the bound kept as it was.
pub open spec fn preset_age(cur: Option<u64>, lit: Option<Seq<char>>) -> Option<u64> {
    match lit {
        Some(s) => match spec_parse_age(s) {
            Some(v) => Some(v),
            None => cur,
        },
        None => cur,
    }
}

/// A bound after a size preset; as `preset_age`, with the size parser.
pub open spec fn preset_size(cur: Option<u64>, lit: Option<Seq<char>>) -> Option<u64> {
    match lit {
        Some(s) => match spec_parse_size(s) {
            Some(v) => Some(v),
            None => cur,
        },
        None => cur,
    }
}

/// The pattern shortcut's effect: a glob contributes its final dot-suffix
/// as a suffix term (nothing without a dot); a word starting with a dot is
/// a suffix term; any other word is a substring term.
pub open spec fn add_pattern(m: FilterModel, p: Option<Seq<char>>) -> FilterModel {
    match p {
        Some(p) => if p.contains('*') || p.contains('?') || p.contains('[') {
            match p.index_of_last('.') {
                Some(j) => FilterModel {
                    suffix: m.suffix.push(seq!['.'] + p.subrange(j + 1, p.len() as int)),
                    ..m
                },
                None => m,
            }
        } else if p.len() > 0 && p[0] == '.' {
            FilterModel { suffix: m.suffix.push(p), ..m }
        } else {
            FilterModel { contains: m.contains.push(p), ..m }
        },
        None => m,
    }
}

/// Every extension term lowercased with its leading dots stripped; an
/// empty term list is left as it is.
pub open spec fn normalize_exts(m: FilterModel) -> FilterModel {
    if m.exts.len() > 0 {
        FilterModel { exts: m.exts.map_values(|e: Seq<char>| lower(drop_leading(e, '.'))), ..m }
    } else {
        m
    }
}

/// What applying the presets to a filter yields: preset extension sets
/// appended, each parseable age and size literal written into its bound,
/// the pattern shortcut applied, and the extension terms normalized.
pub open spec fn spec_apply_presets(m: FilterModel, a: FindArgsModel) -> FilterModel {
    normalize_exts(
        add_pattern(
            FilterModel {
                exts: preset_exts(m.exts, a),
                min_age_secs: preset_age(m.min_age_secs, a.older),
                max_age_secs: preset_age(m.max_age_secs, a.newer),
                min_size: preset_size(m.min_size, a.larger),
                max_size: preset_size(m.max_size, a.smaller),
                ..m
            },
            a.pattern,
        ),
    )
}

/// Append the enabled presets' extension sets.
fn push_preset_exts(f: &mut Filter, args: &FindArgs)
    ensures
        final (f)@ == (FilterModel { exts: preset_exts(old(f)@.exts, args@), ..old(f)@ }),
{
    let ghost m0 = old(f)@;
    if args.images {
        f.exts.push("jpg".to_owned());
        f.exts.push("jpeg".to_owned());
        f.exts.push("png".to_owned());
        f.exts.push("gif".to_owned());
        f.exts.push("webp".to_owned());
    }
    if args.videos {
        f.exts.push("mp4".to_owned());
        f.exts.push("mov".to_owned());
        f.exts.push("mkv".to_owned());
        f.exts.push("avi".to_owned());
    }
    if args.docs {
        f.exts.push("pdf".to_owned());
        f.exts.push("docx".to_owned());
        f.exts.push("txt".to_owned());
        f.exts.push("md".to_owned());
    }
    proof {
        assert(f@.exts =~~= preset_exts(m0.exts, args@));
    }
}

/// Write each parseable age and size literal into its bound.
fn apply_bound_presets(f: &mut Filter, args: &FindArgs)
    ensures
        final (f)@ == (FilterModel {
            min_age_secs: preset_age(old(f)@.min_age_secs, args@.older),
            max_age_secs: preset_age(old(f)@.max_age_secs, args@.newer),
            min_size: preset_size(old(f)@.min_size, args@.larger),
            max_size: preset_size(old(f)@.max_size, args@.smaller),
            ..old(f)@
        }),
{
    match &args.older {
        Some(s) => {
            match parse_human_age(s.as_str()) {
                Some(v) => {
                    f.min_age_secs = Some(v);
                },
                None => {},
            }
        },
        None => {},
    }
    match &args.newer {
        Some(s) => {
            match parse_human_age(s.as_str()) {
                Some(v) => {
                    f.max_age_secs = Some(v);
                },
                None => {},
            }
        },
        None => {},
    }
    match &args.larger {
        Some(s) => {
            match parse_human_size(s.as_str()) {
                Some(v) => {
                    f.min_size = Some(v);
                },
                None => {},
            }
        },
        None => {},
    }
    match &args.smaller {
        Some(s) => {
            match parse_human_size(s.as_str()) {
                Some(v) => {
                    f.max_size = Some(v);
                },
                None => {},
            }
        },
        None => {},
    }
}

/// Apply the pattern shortcut.
fn apply_pattern_exec(f: &mut Filter, pattern: &Option<String>)
    ensures
        final (f)@ == add_pattern(old(f)@, pattern.deep_view()),
{
    let ghost m8 = old(f)@;
    match pattern {
        Some(p) => {
            let pc = str_to_chars(p.as_str());
            let star = first_index_of(&pc, '*');
            let quest = first_index_of(&pc, '?');
            let brack = first_index_of(&pc, '[');
            proof {
                pc@.index_of_first_ensures('*');
                pc@.index_of_first_ensures('?');
                pc@.index_of_first_ensures('[');
            }
            if star.is_some() || quest.is_some() || brack.is_some() {
                match crate::text::last_index_of(&pc, '.') {
                    Some(j) => {
                        let pn = pc.len();
                        proof {
                            pc@.index_of_last_ensures('.');
                            assert(j < pn);
                        }
                        let mut sv: Vec<char> = Vec::new();
                        sv.push('.');
                        let mut tail = sub_chars(&pc, j + 1, pc.len());
                        sv.append(&mut tail);
                        proof {
                            assert(sv@ =~= seq!['.'] + pc@.subrange(j + 1, pc@.len() as int));
                        }
                        f.suffix.push(chars_to_string(sv));
                        proof {
                            assert(f@.suffix =~~= m8.suffix.push(
                                seq!['.'] + pc@.subrange(j + 1, pc@.len() as int),
                            ));
                        }
                    },
                    None => {
                        proof {
                            pc@.index_of_last_ensures('.');
                        }
                    },
                }
            } else if pc.len() > 0 && pc[0] == '.' {
                f.suffix.push(p.clone());
                proof {
                    assert(f@.suffix =~~= m8.suffix.push(p@));
                }
            } else {
                f.contains.push(p.clone());
                proof {
                    assert(f@.contains =~~= m8.contains.push(p@));
                }
            }
        },
        None => {},
    }
}

/// Lowercase every extension term and strip its leading dots.
fn normalize_exts_exec(f: &mut Filter)
    ensures
        final (f)@ == normalize_exts(old(f)@),
{
    let ghost m9 = old(f)@;
    if f.exts.len() > 0 {
        let n = f.exts.len();
        let mut newexts: Vec<String> = Vec::new();
        let mut i: usize = 0;
        while i < n
            invariant
                n == f.exts@.len(),
                i <= n,
                f@ == m9,
                newexts.deep_view() =~~= m9.exts.subrange(0, i as int).map_values(
                    |e: Seq<char>| lower(drop_leading(e, '.')),
                ),
            decreases n - i,
        {
            let e = str_to_chars(f.exts[i].as_str());
            let stripped = drop_leading_exec(&e, '.');
            let ghost old_dv = newexts.deep_view();
            newexts.push(chars_to_string(lower_vec(&stripped)));
            proof {
                assert(f.exts@[i as int].deep_view() =~~= f.exts@[i as int]@);
                assert(m9.exts[i as int] == f.exts@[i as int]@);
                assert(newexts.deep_view() =~~= old_dv.push(lower(drop_leading(m9.exts[i as int], '.'))));
                assert(newexts.deep_view() =~~= m9.exts.subrange(0, i + 1).map_values(
                    |e: Seq<char>| lower(drop_leading(e, '.')),
                ));
            }
            i = i + 1;
        }
        f.exts = newexts;
        proof {
            assert(m9.exts.subrange(0, m9.exts.len() as int) =~= m9.exts);
            assert(f@.exts =~~= m9.exts.map_values(|e: Seq<char>| lower(drop_leading(e, '.'))));
            assert(f@ == normalize_exts(m9));
        }
    }
}

/// Apply the preset flags, the human size and age literals and the pattern
/// shortcut to the filter, then normalize its extension terms.
pub fn apply_presets(f: &mut Filter, args: &FindArgs)
    ensures
        final (f)@ == spec_apply_presets(old(f)@, args@),
{
    push_preset_exts(f, args);
    apply_bound_presets(f, args);
    apply_pattern_exec(f, &args.pattern);
    normalize_exts_exec(f);
}

/// What one find invocation selects with: the presets applied to an open
/// filter, refined by the compiled query text when any was given.
pub open spec fn spec_build_filter(a: FindArgsModel) -> FilterModel {
    let base = spec_apply_presets(FilterModel::empty(), a);
    match a.select {
        Some(q) => spec_merge(base, spec_parse_dsl(q)),
        None => base,
    }
}

/// Build the filter of one find invocation from its arguments: presets
/// first, the compiled query text merged over them.
pub fn build_filter(args: &FindArgs) -> (r: Filter)
    ensures
        r@ == spec_build_filter(args@),
{
    let mut f = Filter::default();
    apply_presets(&mut f, args);
    match &args.select {
        Some(q) => {
            let overlay = parse_select_dsl(q.as_str());
            merge(f, overlay)
        },
        None => f,
    }
}

} // verus!

//! The command-level plain data: the argument structs of every subcommand,
//! the action specification mini-syntax (`kind:key=value[,key=value...]`)
//! with its parser, and the small decisions the action runners make.

use vstd::prelude::*;
use vstd::seq_lib::*;
use vstd::string::*;

use crate::file::{base_name, file_name};
use crate::find::FindArgs;
use crate::text::{chars_eq_str, chars_to_string, first_index_of, str_to_chars, sub_chars};

verus! {

/// Arguments of the compress subcommand.
pub struct CompressArgs {
    /// Source path to compress.
    pub src: String,
    /// Destination archive path.
    pub dst: String,
}

/// Arguments of the move subcommand.
pub struct MoveArgs {
    /// Source path; read from standard input when absent.
    pub src: Option<String>,
    /// Destination path.
    pub dst: String,
    /// Whether standard input is NUL-delimited.
    pub stdin0: bool,
}

/// Arguments of the remove subcommand.
pub struct RmArgs {
    /// Source path; read from standard input when absent.
    pub src: Option<String>,
    /// Whether standard input is NUL-delimited.
    pub stdin0: bool,
    /// Report what would be removed without removing it.
    pub dry_run: bool,
}

/// One action of a flow, with its target.
#[derive(Debug)]
pub enum ActionSpec {
    Mv { to: String },
    Copy { to: String },
    Compress { dst: String },
    Rm { trash: bool },
}

/// The mathematical image of an action specification.
pub enum ActionSpecModel {
    Mv { to: Seq<char> },
    Copy { to: Seq<char> },
    Compress { dst: Seq<char> },
    Rm { trash: bool },
}

impl View for ActionSpec {
    type V = ActionSpecModel;

    open spec fn view(&self) -> ActionSpecModel {
        match self {
            ActionSpec::Mv { to } => ActionSpecModel::Mv { to: to@ },
            ActionSpec::Copy { to } => ActionSpecModel::Copy { to: to@ },
            ActionSpec::Compress { dst } => ActionSpecModel::Compress { dst: dst@ },
            ActionSpec::Rm { trash } => ActionSpecModel::Rm { trash: *trash },
        }
    }
}

/// Arguments of the flow subcommand: a find phase and the actions applied,
/// in order, to each selected path.
pub struct FlowArgs {
    pub find: FindArgs,
    pub actions: Vec<ActionSpec>,
    pub dry_run: bool,
}

/// The top-level command line: one subcommand.
pub struct Cli {
    pub command: Commands,
}

/// The subcommands.
pub enum Commands {
    Compress(CompressArgs),
    Find(FindArgs),
    Rm(RmArgs),
    Mv(MoveArgs),
    Flow(FlowArgs),
}

/// The fragments of `s` split on every occurrence of `c`; a string without
/// `c` is one fragment, and empty fragments are kept.
pub open spec fn split_all(s: Seq<char>, c: char) -> Seq<Seq<char>>
    decreases s.len(),
    via split_all_decreases
{
    match s.index_of_first(c) {
        None => seq![s],
        Some(j) => seq![s.subrange(0, j)] + split_all(s.subrange(j + 1, s.len() as int), c),
    }
}

#[via_fn]
proof fn split_all_decreases(s: Seq<char>, c: char) {
    s.index_of_first_ensures(c);
}

/// The position of the first `c` at or after `start`, or the length when
/// there is none.
fn find_char_from(v: &Vec<char>, start: usize, c: char) -> (j: usize)
    requires
        start <= v@.len(),
    ensures
        start <= j <= v@.len(),
        forall|k: int| start <= k < j ==> v@[k] != c,
        j < v@.len() ==> v@[j as int] == c,
{
    let n = v.len();
    let mut j: usize = start;
    while j < n
        invariant
            n == v@.len(),
            start <= j <= n,
            forall|k: int| start <= k < j ==> v@[k] != c,
        decreases n - j,
    {
        if v[j] == c {
            return j;
        }
        j = j + 1;
    }
    j
}

/// The fragments of `v` from `start` on, split on `c`.
fn split_all_exec(v: &Vec<char>, start: usize, c: char) -> (r: Vec<Vec<char>>)
    requires
        start <= v@.len(),
    ensures
        r.deep_view() == split_all(v@.subrange(start as int, v@.len() as int), c),
    decreases v@.len() - start,
{
    let n = v.len();
    let j = find_char_from(v, start, c);
    let frag = sub_chars(v, start, j);
    let ghost suf = v@.subrange(start as int, v@.len() as int);
    proof {
        suf.index_of_first_ensures(c);
    }
    if j == n {
        proof {
            assert(!suf.contains(c)) by {
                assert(forall|m: int|
                    0 <= m < suf.len() ==> suf[m] == v@[start + m] && suf[m] != c);
            }
            assert(suf =~= frag@);
        }
        let mut out: Vec<Vec<char>> = Vec::new();
        out.push(frag);
        proof {
            assert(out.deep_view() =~~= split_all(suf, c));
        }
        out
    } else {
        proof {
            assert(suf[j - start] == c);
            assert(suf.contains(c));
            let idx = suf.index_of_first(c).unwrap();
            assert(forall|m: int| 0 <= m < j - start ==> suf[m] == v@[start + m]);
            assert(!(idx < j - start));
            assert(!(idx > j - start));
            assert(idx == j - start);
            assert(suf.subrange(0, j - start) =~= frag@);
            assert(suf.subrange(j - start + 1, suf.len() as int) =~= v@.subrange(
                j + 1,
                v@.len() as int,
            ));
        }
        let mut rest = split_all_exec(v, j + 1, c);
        let mut out: Vec<Vec<char>> = Vec::new();
        out.push(frag);
        out.append(&mut rest);
        proof {
            assert(out.deep_view() =~~= seq![frag@] + split_all(
                v@.subrange(j + 1, v@.len() as int),
                c,
            ));
        }
        out
    }
}

/// The key/value state gathered while reading an action's `key=value`
/// fragments.
pub struct ActionAcc {
    pub to: Option<Seq<char>>,
    pub dst: Option<Seq<char>>,
    pub trash: Option<bool>,
}

/// The message refusing a key that the kind does not take.
pub open spec fn unsupported_key_msg(k: Seq<char>, kind: Seq<char>) -> Seq<char> {
    "unsupported key '"@ + k + "' for kind '"@ + kind + "'"@
}

/// The effect of one `key=value` fragment on the gathered state, or the
/// error refusing it.
pub open spec fn apply_kv(kind: Seq<char>, acc: ActionAcc, kv: Seq<char>) -> Result<
    ActionAcc,
    Seq<char>,
> {
    match kv.index_of_first('=') {
        None => Err("expected key=value"@),
        Some(j) => {
            let k = kv.subrange(0, j);
            let v = kv.subrange(j + 1, kv.len() as int);
            if kind == "mv"@ && k == "to"@ {
                Ok(ActionAcc { to: Some(v), ..acc })
            } else if kind == "copy"@ && k == "to"@ {
                Ok(ActionAcc { to: Some(v), ..acc })
            } else if kind == "compress"@ && k == "dst"@ {
                Ok(ActionAcc { dst: Some(v), ..acc })
            } else if kind == "rm"@ && k == "trash"@ {
                if v == "1"@ || v == "true"@ || v == "yes"@ {
                    Ok(ActionAcc { trash: Some(true), ..acc })
                } else if v == "0"@ || v == "false"@ || v == "no"@ {
                    Ok(ActionAcc { trash: Some(false), ..acc })
                } else {
                    Err("trash expects true/false"@)
                }
            } else {
                Err(unsupported_key_msg(k, kind))
            }
        },
    }
}

/// The fragments' effects folded left, stopping at the first error.
pub open spec fn fold_kvs(kind: Seq<char>, acc: ActionAcc, kvs: Seq<Seq<char>>) -> Result<
    ActionAcc,
    Seq<char>,
>
    decreases kvs.len(),
{
    if kvs.len() == 0 {
        Ok(acc)
    } else {
        match apply_kv(kind, acc, kvs[0]) {
            Ok(a) => fold_kvs(kind, a, kvs.drop_first()),
            Err(e) => Err(e),
        }
    }
}

/// The action a kind and its gathered state name, or the error for a
/// missing key or an unknown kind.
pub open spec fn finish_action(kind: Seq<char>, acc: ActionAcc) -> Result<
    ActionSpecModel,
    Seq<char>,
> {
    if kind == "mv"@ {
        match acc.to {
            Some(t) => Ok(ActionSpecModel::Mv { to: t }),
            None => Err("mv requires to=<path>"@),
        }
    } else if kind == "copy"@ {
        match acc.to {
            Some(t) => Ok(ActionSpecModel::Copy { to: t }),
            None => Err("copy requires to=<path>"@),
        }
    } else if kind == "compress"@ {
        match acc.dst {
            Some(d) => Ok(ActionSpecModel::Compress { dst: d }),
            None => Err("compress requires dst=<file>"@),
        }
    } else if kind == "rm"@ {
        Ok(
            ActionSpecModel::Rm {
                trash: match acc.trash {
                    Some(b) => b,
                    None => true,
                },
            },
        )
    } else {
        Err("unknown action kind: "@ + kind)
    }
}

/// What parsing `kind:key=value[,key=value...]` yields: the named action,
/// or the error for the first offending fragment.
pub open spec fn spec_parse_action(s: Seq<char>) -> Result<ActionSpecModel, Seq<char>> {
    match s.index_of_first(':') {
        None => Err("expected kind:kv syntax"@),
        Some(j) => {
            let kind = s.subrange(0, j);
            let rest = s.subrange(j + 1, s.len() as int);
            match fold_kvs(
                kind,
                ActionAcc { to: None, dst: None, trash: None },
                split_all(rest, ','),
            ) {
                Ok(acc) => finish_action(kind, acc),
                Err(e) => Err(e),
            }
        },
    }
}

impl ActionSpec {
    /// Parse an action written as `kind:key=value[,key=value...]`, such as
    /// `mv:to=dst`, `compress:dst=out.tar.zst` or `rm:trash=true`.
    pub fn parse(s: &str) -> (r: Result<ActionSpec, String>)
        ensures
            (r is Ok) == (spec_parse_action(s@) is Ok),
            r is Ok ==> r->Ok_0@ == spec_parse_action(s@)->Ok_0,
            r is Err ==> r->Err_0@ == spec_parse_action(s@)->Err_0,
    {
        let chars = str_to_chars(s);
        let n = chars.len();
        let jc = match first_index_of(&chars, ':') {
            Some(j) => j,
            None => {
                proof {
                    chars@.index_of_first_ensures(':');
                }
                return Err("expected kind:kv syntax".to_owned());
            },
        };
        proof {
            chars@.index_of_first_ensures(':');
        }
        let kind = sub_chars(&chars, 0, jc);
        let rest = sub_chars(&chars, jc + 1, n);
        let kvs = split_all_exec(&rest, 0, ',');
        proof {
            assert(rest@.subrange(0, rest@.len() as int) =~= rest@);
        }
        let ghost kind_seq = kind@;
        let ghost all = kvs.deep_view();
        let kind_mv = chars_eq_str(&kind, "mv");
        let kind_copy = chars_eq_str(&kind, "copy");
        let kind_compress = chars_eq_str(&kind, "compress");
        let kind_rm = chars_eq_str(&kind, "rm");
        let mut to: Option<String> = None;
        let mut dst: Option<String> = None;
        let mut trash: Option<bool> = None;
        let ghost acc0 = ActionAcc { to: None, dst: None, trash: None };
        let mut i: usize = 0;
        proof {
            assert(all.subrange(0, all.len() as int) =~~= all);
        }
        while i < kvs.len()
            invariant
                i <= kvs@.len(),
                all == kvs.deep_view(),
                all.len() == kvs@.len(),
                kind_seq == kind@,
                kind_mv == (kind_seq == "mv"@),
                kind_copy == (kind_seq == "copy"@),
                kind_compress == (kind_seq == "compress"@),
                kind_rm == (kind_seq == "rm"@),
                fold_kvs(
                    kind_seq,
                    ActionAcc { to: to.deep_view(), dst: dst.deep_view(), trash },
                    all.subrange(i as int, all.len() as int),
                ) == fold_kvs(kind_seq, acc0, all),
                spec_parse_action(s@) == (match fold_kvs(kind_seq, acc0, all) {
                    Ok(acc) => finish_action(kind_seq, acc),
                    Err(e) => Err(e),
                }),
            decreases kvs@.len() - i,
        {
            let kv = &kvs[i];
            let ghost cur = ActionAcc { to: to.deep_view(), dst: dst.deep_view(), trash };
            let ghost suf = all.subrange(i as int, all.len() as int);
            proof {
                assert(kvs@[i as int].deep_view() =~~= kvs@[i as int]@);
                assert(suf[0] == kv@);
                assert(suf.drop_first() =~~= all.subrange(i + 1, all.len() as int));
            }
            let kvn = kv.len();
            let je = match first_index_of(kv, '=') {
                Some(j) => j,
                None => {
                    proof {
                        assert(apply_kv(kind_seq, cur, kv@) == Err::<ActionAcc, Seq<char>>(
                            "expected key=value"@,
                        ));
                        assert(fold_kvs(kind_seq, cur, suf) == Err::<ActionAcc, Seq<char>>(
                            "expected key=value"@,
                        ));
                    }
                    return Err("expected key=value".to_owned());
                },
            };
            proof {
                kv@.index_of_first_ensures('=');
                assert(je < kvn);
            }
            let k = sub_chars(kv, 0, je);
            let v = sub_chars(kv, je + 1, kvn);
            if kind_mv && chars_eq_str(&k, "to") {
                to = Some(chars_to_string(v));
            } else if kind_copy && chars_eq_str(&k, "to") {
                to = Some(chars_to_string(v));
            } else if kind_compress && chars_eq_str(&k, "dst") {
                dst = Some(chars_to_string(v));
            } else if kind_rm && chars_eq_str(&k, "trash") {
                if chars_eq_str(&v, "1") || chars_eq_str(&v, "true") || chars_eq_str(&v, "yes") {
                    trash = Some(true);
                } else if chars_eq_str(&v, "0") || chars_eq_str(&v, "false") || chars_eq_str(
                    &v,
                    "no",
                ) {
                    trash = Some(false);
                } else {
                    proof {
                        assert(apply_kv(kind_seq, cur, kv@) == Err::<ActionAcc, Seq<char>>(
                            "trash expects true/false"@,
                        ));
                        assert(fold_kvs(kind_seq, cur, suf) == Err::<ActionAcc, Seq<char>>(
                            "trash expects true/false"@,
                        ));
                    }
                    return Err("trash expects true/false".to_owned());
                }
            } else {
                proof {
                    assert(kv@.subrange(0, je as int) == k@);
                }
                let mut msg = "unsupported key '".to_owned();
                let ks = chars_to_string(k);
                msg.append(ks.as_str());
                msg.append("' for kind '");
                let kinds = chars_to_string(kind);
                msg.append(kinds.as_str());
                msg.append("'");
                proof {
                    assert(msg@ =~= unsupported_key_msg(kv@.subrange(0, je as int), kind_seq));
                    assert(apply_kv(kind_seq, cur, kv@) == Err::<ActionAcc, Seq<char>>(
                        unsupported_key_msg(kv@.subrange(0, je as int), kind_seq),
                    ));
                    assert(fold_kvs(kind_seq, cur, suf) == Err::<ActionAcc, Seq<char>>(
                        unsupported_key_msg(kv@.subrange(0, je as int), kind_seq),
                    ));
                }
                return Err(msg);
            }
            proof {
                assert(fold_kvs(kind_seq, cur, suf) == fold_kvs(
                    kind_seq,
                    ActionAcc { to: to.deep_view(), dst: dst.deep_view(), trash },
                    suf.drop_first(),
                ));
            }
            i = i + 1;
        }
        proof {
            assert(all.subrange(all.len() as int, all.len() as int) =~~= Seq::<Seq<char>>::empty());
        }
        if kind_mv {
            match to {
                Some(t) => Ok(ActionSpec::Mv { to: t }),
                None => Err("mv requires to=<path>".to_owned()),
            }
        } else if kind_copy {
            match to {
                Some(t) => Ok(ActionSpec::Copy { to: t }),
                None => Err("copy requires to=<path>".to_owned()),
            }
        } else if kind_compress {
            match dst {
                Some(d) => Ok(ActionSpec::Compress { dst: d }),
                None => Err("compress requires dst=<file>".to_owned()),
            }
        } else if kind_rm {
            let t = match trash {
                Some(b) => b,
                None => true,
            };
            Ok(ActionSpec::Rm { trash: t })
        } else {
            let mut msg = "unknown action kind: ".to_owned();
            let kinds = chars_to_string(kind);
            msg.append(kinds.as_str());
            proof {
                assert(msg@ =~= "unknown action kind: "@ + kind_seq);
            }
            Err(msg)
        }
    }

    /// The path a selected entry has after this action: a move rebases it
    /// under the move's target directory; every other action leaves it
    /// where it is.
    pub fn next_path(&self, current: &str) -> (r: String)
        ensures
            r@ == match self@ {
                ActionSpecModel::Mv { to } => to + seq!['/'] + base_name(current@),
                _ => current@,
            },
    {
        match self {
            ActionSpec::Mv { to } => dest_path(to.as_str(), current),
            _ => current.to_owned(),
        }
    }
}

/// The destination an action writes one entry to: the target directory
/// joined with the entry's base name.
pub fn dest_path(dir: &str, current: &str) -> (r: String)
    ensures
        r@ == dir@ + seq!['/'] + base_name(current@),
{
    proof {
        reveal_strlit("/");
        assert("/"@ =~= seq!['/']);
    }
    let mut s = dir.to_owned();
    s.append("/");
    s.append(file_name(current));
    s
}

/// What the remove command does with one path: nothing on a dry run, a
/// file removal for a regular file, a directory removal for a directory,
/// and a refusal for any other entry kind.
pub enum RmAction {
    Skip,
    RemoveFile,
    RemoveDir,
    Refuse,
}

/// The decision `rm` takes, as a function of the dry-run flag and the
/// entry kind.
pub open spec fn spec_rm_decision(dry_run: bool, is_file: bool, is_dir: bool) -> RmAction {
    if dry_run {
        RmAction::Skip
    } else if is_file {
        RmAction::RemoveFile
    } else if is_dir {
        RmAction::RemoveDir
    } else {
        RmAction::Refuse
    }
}

/// Decide what the remove command does with one path.
pub fn rm_decision(dry_run: bool, is_file: bool, is_dir: bool) -> (r: RmAction)
    ensures
        r == spec_rm_decision(dry_run, is_file, is_dir),
{
    if dry_run {
        RmAction::Skip
    } else if is_file {
        RmAction::RemoveFile
    } else if is_dir {
        RmAction::RemoveDir
    } else {
        RmAction::Refuse
    }
}

} // verus!

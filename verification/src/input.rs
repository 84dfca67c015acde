//! Splitting NUL-delimited byte input into strings: the pure core of
//! reading `-print0`-style lists. Empty fragments are dropped; each
//! remaining fragment is decoded leniently.

use vstd::prelude::*;
use vstd::seq_lib::*;
use vstd::slice::{slice_index_get, slice_subrange};

verus! {

/// What `String::from_utf8_lossy` makes of a byte sequence; a function of
/// the bytes alone.
pub uninterp spec fn lossy_of(b: Seq<u8>) -> Seq<char>;

/// Whether every byte of `b` is ASCII.
pub open spec fn is_ascii_bytes(b: Seq<u8>) -> bool {
    forall|i: int| 0 <= i < b.len() ==> b[i] < 128
}

/// The characters of an ASCII byte sequence, one per byte.
pub open spec fn ascii_chars_of(b: Seq<u8>) -> Seq<char> {
    Seq::new(b.len(), |i: int| b[i] as char)
}

/// Relies on `String::from_utf8_lossy`: the decoding depends on the bytes
/// alone (invalid sequences become replacement characters), and valid
/// UTF-8 — so in particular ASCII — decodes unchanged.
#[verifier::external_body]
fn lossy_string(b: &[u8]) -> (r: String)
    ensures
        r@ == lossy_of(b@),
        is_ascii_bytes(b@) ==> r@ == ascii_chars_of(b@),
{
    String::from_utf8_lossy(b).into_owned()
}

/// The decoded non-empty fragments of `b`, split on NUL bytes, in order.
pub open spec fn split_frags(b: Seq<u8>) -> Seq<Seq<char>>
    decreases b.len(),
    via split_frags_decreases
{
    if b.len() == 0 {
        Seq::empty()
    } else {
        match b.index_of_first(0u8) {
            None => seq![lossy_of(b)],
            Some(j) => if j == 0 {
                split_frags(b.drop_first())
            } else {
                seq![lossy_of(b.subrange(0, j))] + split_frags(b.subrange(j + 1, b.len() as int))
            },
        }
    }
}

#[via_fn]
proof fn split_frags_decreases(b: Seq<u8>) {
    b.index_of_first_ensures(0u8);
}

/// The position of the first NUL byte at or after `start`, or the length
/// when there is none.
fn find_nul(buf: &[u8], start: usize) -> (j: usize)
    requires
        start <= buf@.len(),
    ensures
        start <= j <= buf@.len(),
        forall|k: int| start <= k < j ==> buf@[k] != 0,
        j < buf@.len() ==> buf@[j as int] == 0,
{
    let n = buf.len();
    let mut j: usize = start;
    while j < n
        invariant
            n == buf@.len(),
            start <= j <= n,
            forall|k: int| start <= k < j ==> buf@[k] != 0,
        decreases n - j,
    {
        if *slice_index_get(buf, j) == 0 {
            return j;
        }
        j = j + 1;
    }
    j
}

/// The non-empty NUL-delimited fragments of `buf`, decoded leniently, in
/// order.
pub fn iter_buf_nul(buf: &[u8]) -> (r: Vec<String>)
    ensures
        r.deep_view() == split_frags(buf@),
{
    let n = buf.len();
    let mut out: Vec<String> = Vec::new();
    let mut start: usize = 0;
    proof {
        assert(buf@.subrange(0, buf@.len() as int) =~= buf@);
        assert(out.deep_view() + split_frags(buf@) =~~= split_frags(buf@));
    }
    while start < n
        invariant
            n == buf@.len(),
            start <= n,
            out.deep_view() + split_frags(buf@.subrange(start as int, buf@.len() as int))
                == split_frags(buf@),
        decreases n - start,
    {
        let j = find_nul(buf, start);
        let ghost suf = buf@.subrange(start as int, buf@.len() as int);
        let ghost old_dv = out.deep_view();
        proof {
            suf.index_of_first_ensures(0u8);
        }
        if j > start {
            let chunk = lossy_string(slice_subrange(buf, start, j));
            out.push(chunk);
            proof {
                assert(out.deep_view() =~~= old_dv.push(lossy_of(buf@.subrange(
                    start as int,
                    j as int,
                ))));
            }
        }
        if j == n {
            proof {
                assert(!suf.contains(0u8)) by {
                    assert(forall|m: int|
                        0 <= m < suf.len() ==> suf[m] == buf@[start + m] && suf[m] != 0);
                }
                assert(suf =~= buf@.subrange(start as int, j as int));
                assert(split_frags(suf) == seq![lossy_of(suf)]);
                assert(out.deep_view() + split_frags(buf@.subrange(n as int, n as int)) =~~= (
                old_dv + split_frags(suf)));
            }
            start = n;
        } else {
            proof {
                assert(suf[j - start] == 0);
                assert(suf.contains(0u8));
                let idx = suf.index_of_first(0u8).unwrap();
                assert(forall|m: int| 0 <= m < j - start ==> suf[m] == buf@[start + m]);
                assert(!(idx < j - start));
                assert(!(idx > j - start));
                assert(idx == j - start);
                if j == start {
                    assert(suf.drop_first() =~= buf@.subrange(start + 1, buf@.len() as int));
                    assert(split_frags(suf) == split_frags(
                        buf@.subrange(start + 1, buf@.len() as int),
                    ));
                } else {
                    assert(suf.subrange(0, j - start) =~= buf@.subrange(start as int, j as int));
                    assert(suf.subrange(j - start + 1, suf.len() as int) =~= buf@.subrange(
                        j + 1,
                        buf@.len() as int,
                    ));
                    assert(split_frags(suf) == seq![lossy_of(
                        buf@.subrange(start as int, j as int),
                    )] + split_frags(buf@.subrange(j + 1, buf@.len() as int)));
                    assert(out.deep_view() + split_frags(buf@.subrange(j + 1, buf@.len() as int))
                        =~~= (old_dv + split_frags(suf)));
                }
            }
            start = j + 1;
        }
    }
    proof {
        assert(buf@.subrange(n as int, n as int) =~= Seq::<u8>::empty());
        assert(out.deep_view() + Seq::<Seq<char>>::empty() =~~= out.deep_view());
    }
    out
}

} // verus!

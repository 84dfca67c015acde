//! Unit parsers for human-readable size and age literals ("100MB", "2h",
//! "1.5w"), and the lexical hidden test.
//!
//! A literal is a decimal number, possibly fractional, followed by a unit.
//! Its value is the exact product of the number and the unit's multiplier,
//! truncated toward zero, saturating at the largest representable value.

use vstd::arithmetic::div_mod::{
    lemma_div_denominator, lemma_div_is_ordered, lemma_div_multiples_vanish_fancy,
    lemma_div_pos_is_pos, lemma_hoist_over_denominator,
};
use vstd::prelude::*;
use vstd::seq_lib::*;
use vstd::string::*;

use crate::file::file_name;
use crate::pathinfo::spec_hidden;
use crate::text::{
    chars_eq_str, first_index_of, is_space, is_space_exec, lower, lower_vec, str_to_chars,
};

verus! {

/// Whether a path's base name starts with a dot; a path with no base name
/// of its own (`/`, `.`, `..`) is never hidden.
pub fn is_hidden(path: &str) -> (r: bool)
    ensures
        r == spec_hidden(path@),
{
    let b = file_name(path);
    let bchars = str_to_chars(b);
    if bchars.len() == 0 || chars_eq_str(&bchars, ".") || chars_eq_str(&bchars, "..") {
        false
    } else {
        bchars[0] == '.'
    }
}

/// Whether `c` is a decimal digit.
pub open spec fn is_digit(c: char) -> bool {
    '0' <= c && c <= '9'
}

/// The numeric value of a digit character.
pub open spec fn digit_val(c: char) -> int {
    c as int - '0' as int
}

/// Whether every character of `s` is a decimal digit.
pub open spec fn all_digits(s: Seq<char>) -> bool {
    forall|i: int| 0 <= i < s.len() ==> is_digit(s[i])
}

/// The value of a digit string read in base ten; the empty string reads as
/// zero.
pub open spec fn digits_val(s: Seq<char>) -> int
    decreases s.len(),
{
    if s.len() == 0 {
        0
    } else {
        digits_val(s.drop_last()) * 10 + digit_val(s.last())
    }
}

/// Ten to the `n`th.
pub open spec fn pow10(n: nat) -> int
    decreases n,
{
    if n == 0 {
        1
    } else {
        10 * pow10((n - 1) as nat)
    }
}

/// Whether `c` may appear in the numeric part of a literal.
pub open spec fn is_num_char(c: char) -> bool {
    is_digit(c) || c == '.'
}

/// The length of the leading run of digits and dots.
pub open spec fn run_len(s: Seq<char>) -> int
    decreases s.len(),
{
    if s.len() == 0 {
        0
    } else if is_num_char(s[0]) {
        1 + run_len(s.drop_first())
    } else {
        0
    }
}

/// `s` without leading whitespace.
pub open spec fn trim_start(s: Seq<char>) -> Seq<char>
    decreases s.len(),
{
    if s.len() > 0 && is_space(s[0]) {
        trim_start(s.drop_first())
    } else {
        s
    }
}

/// `s` without trailing whitespace.
pub open spec fn trim_end(s: Seq<char>) -> Seq<char>
    decreases s.len(),
{
    if s.len() > 0 && is_space(s.last()) {
        trim_end(s.drop_last())
    } else {
        s
    }
}

/// `s` without leading and trailing whitespace.
pub open spec fn trim(s: Seq<char>) -> Seq<char> {
    trim_end(trim_start(s))
}

/// The digits before the first dot of a numeric string; all of it when it
/// has no dot.
pub open spec fn int_part(s: Seq<char>) -> Seq<char> {
    match s.index_of_first('.') {
        Some(j) => s.subrange(0, j),
        None => s,
    }
}

/// The digits after the first dot of a numeric string; empty when it has no
/// dot.
pub open spec fn frac_part(s: Seq<char>) -> Seq<char> {
    match s.index_of_first('.') {
        Some(j) => s.subrange(j + 1, s.len() as int),
        None => Seq::empty(),
    }
}

/// Whether `s` is a well-formed decimal number: digits around at most one
/// dot, with at least one digit.
pub open spec fn num_valid(s: Seq<char>) -> bool {
    &&& all_digits(int_part(s))
    &&& all_digits(frac_part(s))
    &&& int_part(s).len() + frac_part(s).len() > 0
}

/// The number `s` times `mul`, truncated toward zero: the integer part
/// scaled exactly, plus the scaled fractional part rounded down.
pub open spec fn scaled_num_val(s: Seq<char>, mul: int) -> int {
    digits_val(int_part(s)) * mul + (digits_val(frac_part(s)) * mul) / pow10(frac_part(s).len())
}

/// `v` clamped into `u64`.
pub open spec fn sat_u64(v: int) -> u64 {
    if v > u64::MAX {
        u64::MAX
    } else {
        v as u64
    }
}

/// The byte multiplier a size unit stands for: binary, 1024-based.
pub open spec fn size_mul(u: Seq<char>) -> Option<u64> {
    if u == Seq::<char>::empty() || u == seq!['b'] {
        Some(1u64)
    } else if u == seq!['k'] || u == seq!['k', 'b'] {
        Some(1024u64)
    } else if u == seq!['m'] || u == seq!['m', 'b'] {
        Some(1048576u64)
    } else if u == seq!['g'] || u == seq!['g', 'b'] {
        Some(1073741824u64)
    } else if u == seq!['t'] || u == seq!['t', 'b'] {
        Some(1099511627776u64)
    } else {
        None
    }
}

/// The seconds multiplier an age unit stands for.
pub open spec fn age_mul(u: Seq<char>) -> Option<u64> {
    if u == Seq::<char>::empty() || u == seq!['s'] {
        Some(1u64)
    } else if u == seq!['m'] {
        Some(60u64)
    } else if u == seq!['h'] {
        Some(3600u64)
    } else if u == seq!['d'] {
        Some(86400u64)
    } else if u == seq!['w'] {
        Some(604800u64)
    } else {
        None
    }
}

/// What parsing a size literal yields: `None` for an empty input, a
/// malformed number or an unknown unit; otherwise the scaled value, clamped
/// into `u64`.
pub open spec fn spec_parse_size(s: Seq<char>) -> Option<u64> {
    let t = trim(s);
    if t.len() == 0 {
        None
    } else {
        let num = t.subrange(0, run_len(t));
        let unit = lower(trim(t.subrange(run_len(t), t.len() as int)));
        if !num_valid(num) {
            None
        } else {
            match size_mul(unit) {
                Some(mul) => Some(sat_u64(scaled_num_val(num, mul as int))),
                None => None,
            }
        }
    }
}

/// What parsing an age literal yields; as `spec_parse_size`, with the age
/// units.
pub open spec fn spec_parse_age(s: Seq<char>) -> Option<u64> {
    let t = trim(s);
    if t.len() == 0 {
        None
    } else {
        let num = t.subrange(0, run_len(t));
        let unit = lower(trim(t.subrange(run_len(t), t.len() as int)));
        if !num_valid(num) {
            None
        } else {
            match age_mul(unit) {
                Some(mul) => Some(sat_u64(scaled_num_val(num, mul as int))),
                None => None,
            }
        }
    }
}

proof fn lemma_pow10_pos(n: nat)
    ensures
        pow10(n) >= 1,
    decreases n,
{
    if n > 0 {
        lemma_pow10_pos((n - 1) as nat);
    }
}

proof fn lemma_digits_val_nonneg(s: Seq<char>)
    requires
        all_digits(s),
    ensures
        digits_val(s) >= 0,
    decreases s.len(),
{
    if s.len() > 0 {
        assert(all_digits(s.drop_last()));
        lemma_digits_val_nonneg(s.drop_last());
    }
}

/// The value of a digit string grows (weakly) with each appended digit, so
/// any prefix reads at most the whole.
proof fn lemma_digits_val_prefix_le(s: Seq<char>, i: int)
    requires
        all_digits(s),
        0 <= i <= s.len(),
    ensures
        digits_val(s.subrange(0, i)) <= digits_val(s),
    decreases s.len() - i,
{
    if i == s.len() {
        assert(s.subrange(0, i) =~= s);
    } else {
        let a = s.subrange(0, i);
        let b = s.subrange(0, i + 1);
        assert(b.drop_last() =~= a);
        assert(all_digits(a));
        lemma_digits_val_nonneg(a);
        assert(digits_val(b) == digits_val(a) * 10 + digit_val(b.last()));
        lemma_digits_val_prefix_le(s, i + 1);
    }
}

/// Reading one more digit in front scales the tail's contribution by the
/// tail's length.
proof fn lemma_digits_val_prepend(c: char, s: Seq<char>)
    ensures
        digits_val(seq![c] + s) == digit_val(c) * pow10(s.len()) + digits_val(s),
    decreases s.len(),
{
    if s.len() == 0 {
        let w = seq![c] + s;
        assert(w =~= seq![c]);
        assert(w.len() == 1);
        assert(w.drop_last() =~= Seq::<char>::empty());
        assert(w.last() == c);
        assert(digits_val(w) == digits_val(w.drop_last()) * 10 + digit_val(w.last()));
        assert(digits_val(Seq::<char>::empty()) == 0);
        assert(pow10(0) == 1);
        assert(digits_val(w) == digit_val(c));
    } else {
        let w = seq![c] + s;
        assert(w.len() == s.len() + 1);
        assert(w.drop_last() =~= seq![c] + s.drop_last());
        assert(w.last() == s.last());
        assert(digits_val(w) == digits_val(w.drop_last()) * 10 + digit_val(w.last()));
        lemma_digits_val_prepend(c, s.drop_last());
        assert(digits_val(w) == (digit_val(c) * pow10((s.len() - 1) as nat) + digits_val(
            s.drop_last(),
        )) * 10 + digit_val(s.last()));
        assert(pow10(s.len()) == 10 * pow10((s.len() - 1) as nat));
        assert((digit_val(c) * pow10((s.len() - 1) as nat) + digits_val(s.drop_last())) * 10
            == digit_val(c) * (10 * pow10((s.len() - 1) as nat)) + digits_val(s.drop_last()) * 10)
            by (nonlinear_arith);
        assert(digits_val(s) == digits_val(s.drop_last()) * 10 + digit_val(s.last()));
        assert(digits_val(w) == digit_val(c) * pow10(s.len()) + digits_val(s));
    }
}

proof fn lemma_trim_start_at(s: Seq<char>, a: int)
    requires
        0 <= a <= s.len(),
        forall|i: int| 0 <= i < a ==> is_space(s[i]),
        a < s.len() ==> !is_space(s[a]),
    ensures
        trim_start(s) == s.subrange(a, s.len() as int),
    decreases a,
{
    if a == 0 {
        assert(s.subrange(0, s.len() as int) =~= s);
    } else {
        let t = s.drop_first();
        assert(t =~= s.subrange(1, s.len() as int));
        lemma_trim_start_at(t, a - 1);
        assert(t.subrange(a - 1, t.len() as int) =~= s.subrange(a, s.len() as int));
    }
}

proof fn lemma_trim_end_at(s: Seq<char>, e: int)
    requires
        0 <= e <= s.len(),
        forall|i: int| e <= i < s.len() ==> is_space(s[i]),
        e > 0 ==> !is_space(s[e - 1]),
    ensures
        trim_end(s) == s.subrange(0, e),
    decreases s.len() - e,
{
    if e == s.len() {
        assert(s.subrange(0, e) =~= s);
    } else {
        assert(is_space(s.last()));
        let t = s.drop_last();
        assert(t =~= s.subrange(0, s.len() - 1));
        lemma_trim_end_at(t, e);
        assert(t.subrange(0, e) =~= s.subrange(0, e));
    }
}

proof fn lemma_run_len_at(s: Seq<char>, k: int)
    requires
        0 <= k <= s.len(),
        forall|i: int| 0 <= i < k ==> is_num_char(s[i]),
        k < s.len() ==> !is_num_char(s[k]),
    ensures
        run_len(s) == k,
    decreases k,
{
    if k > 0 {
        let t = s.drop_first();
        assert(t =~= s.subrange(1, s.len() as int));
        lemma_run_len_at(t, k - 1);
    }
}

/// The position of the first non-whitespace character, or the length when
/// all of `v` is whitespace.
fn first_non_space(v: &Vec<char>) -> (a: usize)
    ensures
        a <= v@.len(),
        forall|i: int| 0 <= i < a ==> is_space(v@[i]),
        a < v@.len() ==> !is_space(v@[a as int]),
{
    let mut a: usize = 0;
    while a < v.len()
        invariant
            a <= v@.len(),
            forall|i: int| 0 <= i < a ==> is_space(v@[i]),
        decreases v@.len() - a,
    {
        if !is_space_exec(v[a]) {
            return a;
        }
        a = a + 1;
    }
    a
}

/// One past the last non-whitespace character, scanning down from the end;
/// position `a` is known to hold one, so the scan stops above it.
fn scan_non_space_end(v: &Vec<char>, a: usize) -> (e: usize)
    requires
        a < v@.len(),
        !is_space(v@[a as int]),
    ensures
        a < e <= v@.len(),
        forall|i: int| e <= i < v@.len() ==> is_space(v@[i]),
        !is_space(v@[e - 1]),
{
    let mut e: usize = v.len();
    while e > 0
        invariant
            a < e <= v@.len(),
            !is_space(v@[a as int]),
            forall|i: int| e <= i < v@.len() ==> is_space(v@[i]),
        decreases e,
    {
        let c = v[e - 1];
        let sp = is_space_exec(c);
        if !sp {
            return e;
        }
        proof {
            assert(is_space(v@[e - 1]));
            assert(e - 1 != a);
        }
        e = e - 1;
    }
    proof {
        assert(false);
    }
    e
}

/// `v` without leading and trailing whitespace.
pub fn trim_chars(v: &Vec<char>) -> (r: Vec<char>)
    ensures
        r@ == trim(v@),
{
    let a = first_non_space(v);
    if a == v.len() {
        proof {
            lemma_trim_start_at(v@, a as int);
            assert(v@.subrange(a as int, v@.len() as int) =~= Seq::<char>::empty());
        }
        Vec::new()
    } else {
        let e = scan_non_space_end(v, a);
        proof {
            lemma_trim_start_at(v@, a as int);
            let t = v@.subrange(a as int, v@.len() as int);
            lemma_trim_end_at(t, e - a);
            assert(t.subrange(0, e - a) =~= v@.subrange(a as int, e as int));
        }
        crate::text::sub_chars(v, a, e)
    }
}

/// The length of the leading run of digits and dots.
fn run_len_exec(v: &Vec<char>) -> (k: usize)
    ensures
        k <= v@.len(),
        k as int == run_len(v@),
{
    let mut k: usize = 0;
    while k < v.len()
        invariant
            k <= v@.len(),
            forall|i: int| 0 <= i < k ==> is_num_char(v@[i]),
        decreases v@.len() - k,
    {
        let c = v[k];
        let digit = '0' <= c && c <= '9';
        if !(digit || c == '.') {
            proof {
                lemma_run_len_at(v@, k as int);
            }
            return k;
        }
        k = k + 1;
    }
    proof {
        lemma_run_len_at(v@, k as int);
    }
    k
}

/// Whether every character of `v` is a decimal digit.
fn all_digits_exec(v: &Vec<char>) -> (r: bool)
    ensures
        r == all_digits(v@),
{
    let mut i: usize = 0;
    while i < v.len()
        invariant
            i <= v@.len(),
            forall|k: int| 0 <= k < i ==> is_digit(v@[k]),
        decreases v@.len() - i,
    {
        let c = v[i];
        if !('0' <= c && c <= '9') {
            return false;
        }
        i = i + 1;
    }
    true
}

/// The numeric value of one digit character.
fn digit_of(c: char) -> (d: u64)
    requires
        is_digit(c),
    ensures
        d <= 9,
        d as int == digit_val(c),
{
    proof {
        assert('0' as u32 == 48);
    }
    (c as u32 - 48) as u64
}

/// The value of a digit string, or `None` when it exceeds `u64`.
fn int_digits_val(ip: &Vec<char>) -> (r: Option<u64>)
    requires
        all_digits(ip@),
    ensures
        match r {
            Some(x) => x as int == digits_val(ip@),
            None => digits_val(ip@) > u64::MAX,
        },
{
    let mut acc: u128 = 0;
    let mut i: usize = 0;
    proof {
        assert(ip@.subrange(0, 0) =~= Seq::<char>::empty());
    }
    while i < ip.len()
        invariant
            all_digits(ip@),
            i <= ip@.len(),
            acc as int == digits_val(ip@.subrange(0, i as int)),
            acc <= u64::MAX,
        decreases ip@.len() - i,
    {
        let d = digit_of(ip[i]);
        let ghost pre = ip@.subrange(0, i as int);
        acc = acc * 10 + d as u128;
        proof {
            assert(ip@.subrange(0, i + 1).drop_last() =~= pre);
            assert(ip@.subrange(0, i + 1).last() == ip@[i as int]);
        }
        i = i + 1;
        if acc > u64::MAX as u128 {
            proof {
                lemma_digits_val_prefix_le(ip@, i as int);
            }
            return None;
        }
    }
    proof {
        assert(ip@.subrange(0, ip@.len() as int) =~= ip@);
    }
    Some(acc as u64)
}

/// One step of scaling a decimal fraction: prepending the digit at `j` and
/// dividing the running contribution by ten is exactly the floor of the
/// longer fraction times `mul`.
proof fn lemma_frac_step(s: Seq<char>, j: int, mul: int, acc: int)
    requires
        all_digits(s),
        0 <= j < s.len(),
        mul >= 1,
        acc == (digits_val(s.subrange(j + 1, s.len() as int)) * mul) / pow10(
            (s.len() - j - 1) as nat,
        ),
    ensures
        (digit_val(s[j]) * mul + acc) / 10 == (digits_val(s.subrange(j, s.len() as int)) * mul)
            / pow10((s.len() - j) as nat),
{
    let tail = s.subrange(j + 1, s.len() as int);
    let whole = s.subrange(j, s.len() as int);
    let m = tail.len() as nat;
    let p = pow10(m);
    lemma_pow10_pos(m);
    assert(all_digits(tail));
    lemma_digits_val_nonneg(tail);
    let v = digits_val(tail);
    let d = digit_val(s[j]);
    assert(whole =~= seq![s[j]] + tail);
    lemma_digits_val_prepend(s[j], tail);
    assert(digits_val(whole) == d * p + v);
    assert(v * mul >= 0) by (nonlinear_arith)
        requires
            v >= 0,
            mul >= 1,
    ;
    assert((d * mul) * p >= 0) by (nonlinear_arith)
        requires
            d >= 0,
            mul >= 1,
            p >= 1,
    ;
    lemma_hoist_over_denominator(v * mul, d * mul, p as nat);
    assert(d * mul + acc == (v * mul + (d * mul) * p) / p);
    lemma_div_denominator(v * mul + (d * mul) * p, p, 10);
    assert((d * mul + acc) / 10 == (v * mul + (d * mul) * p) / (p * 10));
    assert(digits_val(whole) * mul == v * mul + (d * mul) * p) by (nonlinear_arith)
        requires
            digits_val(whole) == d * p + v,
    ;
    assert(pow10((m + 1) as nat) == 10 * p);
    assert((s.len() - j) as nat == (m + 1) as nat);
}

/// The scaled fractional contribution: the digits after the dot, read as a
/// fraction, times `mul`, rounded down.
fn frac_contrib(fp: &Vec<char>, mul: u64) -> (r: u64)
    requires
        all_digits(fp@),
        1 <= mul,
        mul <= 1099511627776u64,
    ensures
        r as int == (digits_val(fp@) * (mul as int)) / pow10(fp@.len()),
        r < mul,
{
    let mut acc: u64 = 0;
    let mut j: usize = fp.len();
    proof {
        assert(fp@.subrange(fp@.len() as int, fp@.len() as int) =~= Seq::<char>::empty());
        assert(digits_val(Seq::<char>::empty()) == 0);
        assert(pow10(0) == 1);
    }
    while j > 0
        invariant
            all_digits(fp@),
            j <= fp@.len(),
            1 <= mul <= 1099511627776u64,
            acc < mul,
            acc as int == (digits_val(fp@.subrange(j as int, fp@.len() as int)) * (mul as int))
                / pow10((fp@.len() - j) as nat),
        decreases j,
    {
        j = j - 1;
        let d = digit_of(fp[j]);
        proof {
            assert((d as int) * (mul as int) <= 9 * (mul as int)) by (nonlinear_arith)
                requires
                    0 <= d <= 9,
                    0 <= mul,
            ;
        }
        let x = d * mul + acc;
        let ghost old_acc = acc;
        acc = x / 10;
        proof {
            lemma_frac_step(fp@, j as int, mul as int, old_acc as int);
            assert(x as int <= 10 * (mul as int) - 1);
            lemma_div_is_ordered(x as int, 10 * (mul as int) - 1, 10);
            assert(10 * (mul as int) - 1 == 10 * ((mul as int) - 1) + 9);
            lemma_div_multiples_vanish_fancy((mul as int) - 1, 9, 10);
            assert(acc as int <= (mul as int) - 1);
        }
    }
    proof {
        assert(fp@.subrange(0, fp@.len() as int) =~= fp@);
    }
    acc
}

/// The integer and fractional digits scaled by `mul` and clamped into
/// `u64`.
fn scaled_result(ip: &Vec<char>, fp: &Vec<char>, mul: u64) -> (r: u64)
    requires
        all_digits(ip@),
        all_digits(fp@),
        1 <= mul,
        mul <= 1099511627776u64,
    ensures
        r == sat_u64(
            digits_val(ip@) * (mul as int) + (digits_val(fp@) * (mul as int)) / pow10(fp@.len()),
        ),
{
    let fc = frac_contrib(fp, mul);
    match int_digits_val(ip) {
        Some(iv) => {
            proof {
                assert((iv as int) * (mul as int) <= 0xffffffffffffffff * 0x10000000000)
                    by (nonlinear_arith)
                    requires
                        0 <= iv <= 0xffffffffffffffffu64,
                        0 <= mul <= 0x10000000000u64,
                ;
            }
            let big: u128 = (iv as u128) * (mul as u128) + (fc as u128);
            if big > u64::MAX as u128 {
                u64::MAX
            } else {
                big as u64
            }
        },
        None => {
            proof {
                let iv = digits_val(ip@);
                let fv = digits_val(fp@);
                lemma_digits_val_nonneg(fp@);
                lemma_pow10_pos(fp@.len());
                assert(fv * (mul as int) >= 0) by (nonlinear_arith)
                    requires
                        fv >= 0,
                        mul >= 1,
                ;
                lemma_div_pos_is_pos(fv * (mul as int), pow10(fp@.len()));
                assert(iv * (mul as int) >= iv) by (nonlinear_arith)
                    requires
                        iv >= 0,
                        mul >= 1,
                ;
            }
            u64::MAX
        },
    }
}

/// The multiplier named by a size unit, lowercased; `None` for an unknown
/// unit.
fn size_mul_exec(u: &Vec<char>) -> (r: Option<u64>)
    ensures
        r == size_mul(u@),
{
    proof {
        reveal_strlit("b");
        reveal_strlit("k");
        reveal_strlit("kb");
        reveal_strlit("m");
        reveal_strlit("mb");
        reveal_strlit("g");
        reveal_strlit("gb");
        reveal_strlit("t");
        reveal_strlit("tb");
        assert("b"@ =~= seq!['b']);
        assert("k"@ =~= seq!['k']);
        assert("kb"@ =~= seq!['k', 'b']);
        assert("m"@ =~= seq!['m']);
        assert("mb"@ =~= seq!['m', 'b']);
        assert("g"@ =~= seq!['g']);
        assert("gb"@ =~= seq!['g', 'b']);
        assert("t"@ =~= seq!['t']);
        assert("tb"@ =~= seq!['t', 'b']);
    }
    if u.len() == 0 {
        proof {
            assert(u@ =~= Seq::<char>::empty());
        }
        Some(1)
    } else if chars_eq_str(u, "b") {
        Some(1)
    } else if chars_eq_str(u, "k") || chars_eq_str(u, "kb") {
        Some(1024)
    } else if chars_eq_str(u, "m") || chars_eq_str(u, "mb") {
        Some(1048576)
    } else if chars_eq_str(u, "g") || chars_eq_str(u, "gb") {
        Some(1073741824)
    } else if chars_eq_str(u, "t") || chars_eq_str(u, "tb") {
        Some(1099511627776)
    } else {
        proof {
            assert(u@.len() > 0);
        }
        None
    }
}

/// The multiplier named by an age unit, lowercased; `None` for an unknown
/// unit.
fn age_mul_exec(u: &Vec<char>) -> (r: Option<u64>)
    ensures
        r == age_mul(u@),
{
    proof {
        reveal_strlit("s");
        reveal_strlit("m");
        reveal_strlit("h");
        reveal_strlit("d");
        reveal_strlit("w");
        assert("s"@ =~= seq!['s']);
        assert("m"@ =~= seq!['m']);
        assert("h"@ =~= seq!['h']);
        assert("d"@ =~= seq!['d']);
        assert("w"@ =~= seq!['w']);
    }
    if u.len() == 0 {
        proof {
            assert(u@ =~= Seq::<char>::empty());
        }
        Some(1)
    } else if chars_eq_str(u, "s") {
        Some(1)
    } else if chars_eq_str(u, "m") {
        Some(60)
    } else if chars_eq_str(u, "h") {
        Some(3600)
    } else if chars_eq_str(u, "d") {
        Some(86400)
    } else if chars_eq_str(u, "w") {
        Some(604800)
    } else {
        proof {
            assert(u@.len() > 0);
        }
        None
    }
}

/// The pieces of a trimmed literal: the number (integer and fractional
/// digit vectors, when well formed) and the lowercased unit.
fn split_literal(t: &Vec<char>) -> (r: (Option<(Vec<char>, Vec<char>)>, Vec<char>))
    ensures
        ({
            let num = t@.subrange(0, run_len(t@));
            &&& r.1@ == lower(trim(t@.subrange(run_len(t@), t@.len() as int)))
            &&& match r.0 {
                Some(parts) => num_valid(num) && parts.0@ == int_part(num)
                    && parts.1@ == frac_part(num),
                None => !num_valid(num),
            }
        }),
{
    let k = run_len_exec(t);
    let num = crate::text::sub_chars(t, 0, k);
    let unit_raw = crate::text::sub_chars(t, k, t.len());
    let unit = lower_vec(&trim_chars(&unit_raw));
    let nl = num.len();
    let (ip, fp): (Vec<char>, Vec<char>) = match first_index_of(&num, '.') {
        Some(j) => {
            proof {
                num@.index_of_first_ensures('.');
            }
            (crate::text::sub_chars(&num, 0, j), crate::text::sub_chars(&num, j + 1, nl))
        },
        None => {
            proof {
                assert(num@.subrange(0, num@.len() as int) =~= num@);
                assert(frac_part(num@) =~= Seq::<char>::empty());
            }
            (crate::text::sub_chars(&num, 0, nl), Vec::new())
        },
    };
    let digits_ok = all_digits_exec(&ip) && all_digits_exec(&fp);
    let nonempty = ip.len() > 0 || fp.len() > 0;
    if digits_ok && nonempty {
        (Some((ip, fp)), unit)
    } else {
        (None, unit)
    }
}

/// Parse a human-readable size literal such as "100MB", "64kb" or "1.5g":
/// a decimal number followed by a binary, 1024-based unit. The value is the
/// exact product truncated toward zero, clamped into `u64`; `None` when the
/// input is empty, the number is malformed or the unit is unknown.
pub fn parse_human_size(s: &str) -> (r: Option<u64>)
    ensures
        r == spec_parse_size(s@),
{
    parse_size_chars(&str_to_chars(s))
}

/// Parse a size literal given as a character vector.
pub(crate) fn parse_size_chars(chars: &Vec<char>) -> (r: Option<u64>)
    ensures
        r == spec_parse_size(chars@),
{
    let t = trim_chars(chars);
    if t.len() == 0 {
        return None;
    }
    let (num_parts, unit) = split_literal(&t);
    let parts = match num_parts {
        Some(p) => p,
        None => {
            return None;
        },
    };
    match size_mul_exec(&unit) {
        Some(mul) => Some(scaled_result(&parts.0, &parts.1, mul)),
        None => None,
    }
}

/// Parse a human-readable age literal such as "30s", "2h", "1d" or "1.5w"
/// into seconds; the same shape as `parse_human_size`, with the age units.
pub fn parse_human_age(s: &str) -> (r: Option<u64>)
    ensures
        r == spec_parse_age(s@),
{
    parse_age_chars(&str_to_chars(s))
}

/// Parse an age literal given as a character vector.
pub(crate) fn parse_age_chars(chars: &Vec<char>) -> (r: Option<u64>)
    ensures
        r == spec_parse_age(chars@),
{
    let t = trim_chars(chars);
    if t.len() == 0 {
        return None;
    }
    let (num_parts, unit) = split_literal(&t);
    let parts = match num_parts {
        Some(p) => p,
        None => {
            return None;
        },
    };
    match age_mul_exec(&unit) {
        Some(mul) => Some(scaled_result(&parts.0, &parts.1, mul)),
        None => None,
    }
}

/// Split a literal into its leading digits-and-dots run and the trimmed
/// remainder.
pub fn split_num_unit(s: &str) -> (r: (String, String))
    ensures
        r.0@ == s@.subrange(0, run_len(s@)),
        r.1@ == trim(s@.subrange(run_len(s@), s@.len() as int)),
{
    let chars = str_to_chars(s);
    let k = run_len_exec(&chars);
    let num = crate::text::sub_chars(&chars, 0, k);
    let unit = trim_chars(&crate::text::sub_chars(&chars, k, chars.len()));
    (crate::text::chars_to_string(num), crate::text::chars_to_string(unit))
}

} // verus!

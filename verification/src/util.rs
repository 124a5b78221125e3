//! Small verified utilities: decimal rendering and prompt-reply parsing.

use vstd::prelude::*;

use crate::text::{chars_to_string, is_space, is_space_spec, str_chars};
use vstd::string::StrSliceExecFns;

verus! {

/// The decimal digit character for `d` (meaningful for `d < 10`).
pub open spec fn dec_digit(d: nat) -> char {
    if d == 0 {
        '0'
    } else if d == 1 {
        '1'
    } else if d == 2 {
        '2'
    } else if d == 3 {
        '3'
    } else if d == 4 {
        '4'
    } else if d == 5 {
        '5'
    } else if d == 6 {
        '6'
    } else if d == 7 {
        '7'
    } else if d == 8 {
        '8'
    } else {
        '9'
    }
}

/// The decimal representation of `n`, most significant digit first.
pub open spec fn dec_rep(n: nat) -> Seq<char>
    decreases n,
    via dec_rep_dec
{
    if n < 10 {
        seq![dec_digit(n)]
    } else {
        dec_rep(n / 10).push(dec_digit(n % 10))
    }
}

#[via_fn]
proof fn dec_rep_dec(n: nat) {
    if n >= 10 {
        assert(n / 10 < n) by (nonlinear_arith)
            requires
                n >= 10,
        ;
    }
}

/// Ten to the `k`.
pub open spec fn pow10(k: nat) -> nat
    decreases k,
{
    if k == 0 {
        1
    } else {
        10 * pow10((k - 1) as nat)
    }
}

/// A number below `pow10(k)` has at most `k` decimal digits.
pub proof fn lemma_dec_rep_bound(n: nat, k: nat)
    requires
        n < pow10(k),
        k >= 1,
    ensures
        dec_rep(n).len() <= k,
    decreases k,
{
    if n >= 10 {
        assert(pow10(k) == 10 * pow10((k - 1) as nat));
        assert(n / 10 < pow10((k - 1) as nat)) by (nonlinear_arith)
            requires
                n < pow10(k),
                pow10(k) == 10 * pow10((k - 1) as nat),
                n >= 10,
        ;
        assert(n / 10 < n) by (nonlinear_arith)
            requires
                n >= 10,
        ;
        lemma_dec_rep_bound(n / 10, (k - 1) as nat);
    }
}

/// Every `usize` has at most 20 decimal digits.
proof fn lemma_dec_rep_usize(n: usize)
    ensures
        dec_rep(n as nat).len() <= 20,
{
    reveal_with_fuel(pow10, 21);
    assert(n < pow10(20));
    lemma_dec_rep_bound(n as nat, 20);
}

/// The digit character for `d`.
fn digit_char(d: usize) -> (r: char)
    requires
        d < 10,
    ensures
        r == dec_digit(d as nat),
{
    if d == 0 {
        '0'
    } else if d == 1 {
        '1'
    } else if d == 2 {
        '2'
    } else if d == 3 {
        '3'
    } else if d == 4 {
        '4'
    } else if d == 5 {
        '5'
    } else if d == 6 {
        '6'
    } else if d == 7 {
        '7'
    } else if d == 8 {
        '8'
    } else {
        '9'
    }
}

/// Append the decimal representation of `n` to `out`.
fn push_dec(n: usize, out: &mut Vec<char>)
    ensures
        final(out)@ == old(out)@ + dec_rep(n as nat),
    decreases n,
{
    if n < 10 {
        out.push(digit_char(n));
        proof {
            assert(out@ =~= old(out)@ + dec_rep(n as nat));
        }
    } else {
        proof {
            assert(n / 10 < n) by (nonlinear_arith)
                requires
                    n >= 10,
            ;
        }
        push_dec(n / 10, out);
        out.push(digit_char(n % 10));
        proof {
            assert(out@ =~= old(out)@ + dec_rep(n as nat));
        }
    }
}

/// The decimal representation of `n` as a string.
pub fn dec_string(n: usize) -> (r: String)
    ensures
        r@ == dec_rep(n as nat),
{
    let mut v: Vec<char> = Vec::new();
    push_dec(n, &mut v);
    proof {
        assert(Seq::<char>::empty() + dec_rep(n as nat) =~= dec_rep(n as nat));
    }
    chars_to_string(&v)
}

/// Get the number of decimal digits in the given number.
pub fn digits(num: usize) -> (r: usize)
    ensures
        r == dec_rep(num as nat).len(),
{
    proof {
        lemma_dec_rep_usize(num);
    }
    let mut res: usize = 0;
    let mut n = num;
    loop
        invariant_except_break
            res + dec_rep(n as nat).len() == dec_rep(num as nat).len(),
            dec_rep(num as nat).len() <= 20,
        ensures
            res == dec_rep(num as nat).len(),
        decreases n,
    {
        res = res + 1;
        proof {
            if n >= 10 {
                assert(n / 10 < n) by (nonlinear_arith)
                    requires
                        n >= 10,
                ;
            }
        }
        n = n / 10;
        if n == 0 {
            break;
        }
    }
    res
}

/// `s` with leading blank characters removed.
pub open spec fn trim_front(s: Seq<char>) -> Seq<char>
    decreases s.len(),
{
    if s.len() > 0 && is_space_spec(s[0]) {
        trim_front(s.drop_first())
    } else {
        s
    }
}

/// `s` with trailing blank characters removed.
pub open spec fn trim_back(s: Seq<char>) -> Seq<char>
    decreases s.len(),
{
    if s.len() > 0 && is_space_spec(s[s.len() - 1]) {
        trim_back(s.drop_last())
    } else {
        s
    }
}

/// `s` with blank characters removed from both ends.
pub open spec fn spec_trim(s: Seq<char>) -> Seq<char> {
    trim_back(trim_front(s))
}

/// Does `a` match `b` up to ASCII case?  (`b` is expected lowercase.)
pub open spec fn char_ieq(a: char, b: char) -> bool {
    a == b || (65 <= a as u32 && a as u32 <= 90 && a as u32 + 32 == b as u32)
}

/// Does `s` spell `w` up to ASCII case?  (`w` is expected lowercase.)
pub open spec fn matches_word(s: Seq<char>, w: Seq<char>) -> bool {
    s.len() == w.len() && forall|i: int| 0 <= i < s.len() ==> char_ieq(s[i], w[i])
}

/// What a prompt reply means: `Some(true)` for yes, `Some(false)` for no,
/// the default for a blank reply, and `None` (ask again) for anything else.
pub open spec fn spec_parse_response(s: Seq<char>, default: Option<bool>) -> Option<bool> {
    let t = spec_trim(s);
    if t.len() == 0 {
        default
    } else if matches_word(t, "y"@) || matches_word(t, "yes"@) {
        Some(true)
    } else if matches_word(t, "n"@) || matches_word(t, "no"@) {
        Some(false)
    } else {
        None
    }
}

/// Does `cs[start..end]` spell `w` up to ASCII case?
fn window_matches(cs: &Vec<char>, start: usize, end: usize, w: &str) -> (r: bool)
    requires
        start <= end <= cs.len(),
    ensures
        r == matches_word(cs@.subrange(start as int, end as int), w@),
{
    let wn = w.unicode_len();
    if end - start != wn {
        return false;
    }
    let mut i: usize = 0;
    while i < wn
        invariant
            i <= wn,
            wn == w@.len(),
            start + wn == end,
            end <= cs.len(),
            forall|j: int|
                0 <= j < i ==> char_ieq(cs@.subrange(start as int, end as int)[j], w@[j]),
        decreases wn - i,
    {
        let a = cs[start + i];
        let b = w.get_char(i);
        let ok = a == b || (65 <= a as u32 && a as u32 <= 90 && a as u32 + 32 == b as u32);
        if !ok {
            return false;
        }
        i += 1;
    }
    true
}

/// Interpret one reply to a yes/no prompt.
///
/// A blank reply means the default (if any); `y`/`yes` and `n`/`no`, in any
/// ASCII case and ignoring surrounding blanks, mean yes and no; `None`
/// means the reply settles nothing and the prompt should be repeated.
pub fn parse_response(input: &str, default: Option<bool>) -> (r: Option<bool>)
    ensures
        r == spec_parse_response(input@, default),
{
    let cs = str_chars(input);
    let n = cs.len();
    let mut start: usize = 0;
    proof {
        assert(cs@.skip(0) =~= cs@);
    }
    while start < n && is_space(cs[start])
        invariant
            start <= n,
            n == cs.len(),
            cs@ == input@,
            trim_front(input@) == trim_front(cs@.skip(start as int)),
        decreases n - start,
    {
        proof {
            assert(cs@.skip(start as int).drop_first() =~= cs@.skip(start + 1));
        }
        start += 1;
    }
    proof {
        assert(trim_front(input@) == cs@.skip(start as int));
    }
    let mut end: usize = n;
    proof {
        assert(cs@.subrange(start as int, n as int) =~= cs@.skip(start as int));
    }
    while end > start && is_space(cs[end - 1])
        invariant
            start <= end <= n,
            n == cs.len(),
            cs@ == input@,
            trim_front(input@) == cs@.skip(start as int),
            spec_trim(input@) == trim_back(cs@.subrange(start as int, end as int)),
        decreases end,
    {
        proof {
            assert(cs@.subrange(start as int, end as int).drop_last() =~= cs@.subrange(
                start as int,
                end - 1,
            ));
        }
        end -= 1;
    }
    proof {
        assert(spec_trim(input@) == cs@.subrange(start as int, end as int));
    }
    if start == end {
        default
    } else if window_matches(&cs, start, end, "y") || window_matches(&cs, start, end, "yes") {
        Some(true)
    } else if window_matches(&cs, start, end, "n") || window_matches(&cs, start, end, "no") {
        Some(false)
    } else {
        None
    }
}

/// Distinct digits render to distinct characters.
proof fn lemma_dec_digit_inj(a: nat, b: nat)
    requires
        a < 10,
        b < 10,
        dec_digit(a) == dec_digit(b),
    ensures
        a == b,
{
}

/// Every decimal representation has at least one digit.
pub proof fn lemma_dec_rep_len_pos(n: nat)
    ensures
        dec_rep(n).len() >= 1,
{
}

/// Distinct numbers have distinct decimal representations.
pub proof fn lemma_dec_rep_inj(a: nat, b: nat)
    requires
        dec_rep(a) == dec_rep(b),
    ensures
        a == b,
    decreases a,
{
    if a < 10 && b < 10 {
        assert(dec_rep(a) == seq![dec_digit(a)]);
        assert(dec_rep(b) == seq![dec_digit(b)]);
        assert(dec_digit(a) == dec_rep(a)[0]);
        assert(dec_digit(b) == dec_rep(b)[0]);
        lemma_dec_digit_inj(a, b);
    } else if a < 10 && b >= 10 {
        assert(dec_rep(a) == seq![dec_digit(a)]);
        assert(dec_rep(b) == dec_rep(b / 10).push(dec_digit(b % 10)));
        lemma_dec_rep_len_pos(b / 10);
        assert(dec_rep(a).len() == 1);
        assert(dec_rep(b).len() >= 2);
    } else if a >= 10 && b < 10 {
        assert(dec_rep(b) == seq![dec_digit(b)]);
        assert(dec_rep(a) == dec_rep(a / 10).push(dec_digit(a % 10)));
        lemma_dec_rep_len_pos(a / 10);
        assert(dec_rep(b).len() == 1);
        assert(dec_rep(a).len() >= 2);
    } else {
        assert(dec_rep(a) == dec_rep(a / 10).push(dec_digit(a % 10)));
        assert(dec_rep(b) == dec_rep(b / 10).push(dec_digit(b % 10)));
        assert(dec_rep(a).last() == dec_digit(a % 10));
        assert(dec_rep(b).last() == dec_digit(b % 10));
        lemma_dec_digit_inj(a % 10, b % 10);
        assert(dec_rep(a / 10).push(dec_digit(a % 10)).drop_last() =~= dec_rep(a / 10));
        assert(dec_rep(b / 10).push(dec_digit(b % 10)).drop_last() =~= dec_rep(b / 10));
        assert(a / 10 < a) by (nonlinear_arith)
            requires
                a >= 10,
        ;
        lemma_dec_rep_inj(a / 10, b / 10);
        vstd::arithmetic::div_mod::lemma_fundamental_div_mod(a as int, 10);
        vstd::arithmetic::div_mod::lemma_fundamental_div_mod(b as int, 10);
    }
}

} // verus!

//! Character-level text utilities shared by the parsers and formatters:
//! conversion between `&str`, `Vec<char>` and `String`, prefix and suffix
//! tests, decimal digits, and whitespace tokenization.

use vstd::prelude::*;
use vstd::string::StrSliceExecFns;
use vstd::string::StringExecFns;

verus! {

/// Relies on String::push: appends exactly the one character.
#[verifier::external_body]
pub fn push_char(s: &mut String, c: char)
    ensures
        final(s)@ == old(s)@.push(c),
{
    s.push(c);
}

/// The characters of a string slice, in order.
pub fn chars_of(s: &str) -> (r: Vec<char>)
    ensures
        r@ == s@,
{
    let n = s.unicode_len();
    let mut r: Vec<char> = Vec::new();
    let mut i: usize = 0;
    while i < n
        invariant
            i <= n,
            n == s@.len(),
            r@ == s@.subrange(0, i as int),
        decreases n - i,
    {
        r.push(s.get_char(i));
        i = i + 1;
        proof {
            assert(r@ =~= s@.subrange(0, i as int));
        }
    }
    proof {
        assert(r@ =~= s@);
    }
    r
}

/// A `String` holding exactly the given characters.
pub fn string_from_chars(v: &Vec<char>) -> (r: String)
    ensures
        r@ == v@,
{
    let mut r = String::new();
    let mut i: usize = 0;
    while i < v.len()
        invariant
            i <= v@.len(),
            r@ == v@.subrange(0, i as int),
        decreases v@.len() - i,
    {
        push_char(&mut r, v[i]);
        i = i + 1;
        proof {
            assert(r@ =~= v@.subrange(0, i as int));
        }
    }
    proof {
        assert(r@ =~= v@);
    }
    r
}

/// `p` is a prefix of `s`.
pub open spec fn starts_with(s: Seq<char>, p: Seq<char>) -> bool {
    p.len() <= s.len() && forall|i: int| 0 <= i < p.len() ==> s[i] == p[i]
}

/// `p` is a suffix of `s`.
pub open spec fn ends_with(s: Seq<char>, p: Seq<char>) -> bool {
    p.len() <= s.len()
        && forall|i: int| 0 <= i < p.len() ==> s[s.len() - p.len() + i] == p[i]
}

pub fn str_starts_with(s: &str, p: &str) -> (r: bool)
    ensures
        r == starts_with(s@, p@),
{
    let sn = s.unicode_len();
    let pn = p.unicode_len();
    if pn > sn {
        return false;
    }
    let mut i: usize = 0;
    while i < pn
        invariant
            i <= pn,
            pn <= sn,
            sn == s@.len(),
            pn == p@.len(),
            forall|j: int| 0 <= j < i ==> s@[j] == p@[j],
        decreases pn - i,
    {
        if s.get_char(i) != p.get_char(i) {
            return false;
        }
        i = i + 1;
    }
    true
}

pub fn str_ends_with(s: &str, p: &str) -> (r: bool)
    ensures
        r == ends_with(s@, p@),
{
    let sn = s.unicode_len();
    let pn = p.unicode_len();
    if pn > sn {
        return false;
    }
    let off = sn - pn;
    let mut i: usize = 0;
    while i < pn
        invariant
            i <= pn,
            pn <= sn,
            off == sn - pn,
            sn == s@.len(),
            pn == p@.len(),
            forall|j: int| 0 <= j < i ==> s@[off + j] == p@[j],
        decreases pn - i,
    {
        if s.get_char(off + i) != p.get_char(i) {
            return false;
        }
        i = i + 1;
    }
    true
}

/// Character equality of a character vector and a string.
pub fn chars_eq_str(v: &Vec<char>, s: &str) -> (r: bool)
    ensures
        r == (v@ =~= s@),
{
    let n = s.unicode_len();
    if v.len() != n {
        return false;
    }
    let mut i: usize = 0;
    while i < n
        invariant
            i <= n,
            n == s@.len(),
            n == v@.len(),
            forall|j: int| 0 <= j < i ==> v@[j] == s@[j],
        decreases n - i,
    {
        if v[i] != s.get_char(i) {
            return false;
        }
        i = i + 1;
    }
    true
}

/// Blank characters separating the columns of traced and reported lines.
pub open spec fn is_space(c: char) -> bool {
    c == ' ' || c == '\t'
}

pub open spec fn is_digit(c: char) -> bool {
    '0' <= c && c <= '9'
}

pub open spec fn digit_val(c: char) -> nat {
    (c as nat - '0' as nat) as nat
}

/// The value of a sequence of decimal digits (most significant first).
pub open spec fn dec_val(s: Seq<char>) -> nat
    decreases s.len(),
{
    if s.len() == 0 {
        0
    } else {
        dec_val(s.drop_last()) * 10 + digit_val(s.last())
    }
}

pub open spec fn all_digits(s: Seq<char>) -> bool {
    forall|i: int| 0 <= i < s.len() ==> is_digit(#[trigger] s[i])
}

pub fn is_digit_exec(c: char) -> (r: bool)
    ensures
        r == is_digit(c),
{
    '0' <= c && c <= '9'
}

/// Reads a token as a decimal number, capped: `None` when the token is
/// empty, holds a non-digit, or its value exceeds `cap`.
pub fn parse_dec_capped(t: &Vec<char>, cap: u64) -> (r: Option<u64>)
    ensures
        r is Some <==> t@.len() > 0 && all_digits(t@) && dec_val(t@) <= cap,
        r is Some ==> r->0 == dec_val(t@),
{
    if t.len() == 0 {
        return None;
    }
    let mut acc: u64 = 0;
    let mut i: usize = 0;
    let mut over: bool = false;
    while i < t.len()
        invariant
            i <= t@.len(),
            cap <= u64::MAX,
            forall|j: int| 0 <= j < i ==> is_digit(#[trigger] t@[j]),
            !over ==> acc == dec_val(t@.subrange(0, i as int)) && acc <= cap,
            over ==> dec_val(t@.subrange(0, i as int)) > cap,
        decreases t@.len() - i,
    {
        let c = t[i];
        if !is_digit_exec(c) {
            return None;
        }
        let d: u32 = c as u32 - 48;
        proof {
            assert(d == digit_val(c));
            assert(t@.subrange(0, i + 1).drop_last() =~= t@.subrange(0, i as int));
            assert(dec_val(t@.subrange(0, i + 1)) == dec_val(
                t@.subrange(0, i as int),
            ) * 10 + digit_val(c));
        }
        if !over {
            if acc > cap / 10 || (acc == cap / 10 && (d as u64) > cap % 10) {
                over = true;
                proof {
                    assert(dec_val(t@.subrange(0, i as int)) * 10 + digit_val(c)
                        > cap) by (nonlinear_arith)
                        requires
                            dec_val(t@.subrange(0, i as int)) == acc,
                            digit_val(c) == d,
                            d < 10,
                            acc > cap / 10 || (acc == cap / 10 && d > cap % 10),
                            cap == (cap / 10) * 10 + cap % 10,
                            cap % 10 < 10;
                }
            } else {
                proof {
                    assert(acc * 10 + d <= cap) by (nonlinear_arith)
                        requires
                            d < 10,
                            acc < cap / 10 || (acc == cap / 10 && d <= cap % 10),
                            cap == (cap / 10) * 10 + cap % 10,
                            cap % 10 < 10;
                }
                acc = acc * 10 + (d as u64);
            }
        } else {
            proof {
                assert(dec_val(t@.subrange(0, i as int)) * 10 + digit_val(c) > cap)
                    by (nonlinear_arith)
                    requires
                        dec_val(t@.subrange(0, i as int)) > cap,
                        digit_val(c) >= 0;
            }
        }
        i = i + 1;
    }
    proof {
        assert(t@.subrange(0, t@.len() as int) =~= t@);
    }
    if over {
        None
    } else {
        Some(acc)
    }
}

/// The longest prefix of `s` free of blank characters.
pub open spec fn token_prefix(s: Seq<char>) -> Seq<char>
    decreases s.len(),
{
    if s.len() == 0 || is_space(s[0]) {
        Seq::empty()
    } else {
        seq![s[0]] + token_prefix(s.drop_first())
    }
}

pub proof fn lemma_token_prefix_len(s: Seq<char>)
    ensures
        token_prefix(s).len() <= s.len(),
        s.len() > 0 && !is_space(s[0]) ==> token_prefix(s).len() >= 1,
    decreases s.len(),
{
    if s.len() > 0 && !is_space(s[0]) {
        lemma_token_prefix_len(s.drop_first());
    }
}

/// The blank-separated tokens of `s`, in order.
pub open spec fn tokens_of(s: Seq<char>) -> Seq<Seq<char>>
    decreases s.len(),
    via tokens_of_decreases
{
    if s.len() == 0 {
        Seq::empty()
    } else if is_space(s[0]) {
        tokens_of(s.drop_first())
    } else {
        seq![token_prefix(s)] + tokens_of(s.skip(token_prefix(s).len() as int))
    }
}

#[via_fn]
proof fn tokens_of_decreases(s: Seq<char>) {
    lemma_token_prefix_len(s);
}

/// Dropping a leading blank keeps the tokens.
proof fn lemma_tokens_skip_space(s: Seq<char>, i: int)
    requires
        0 <= i < s.len(),
        is_space(s[i]),
    ensures
        tokens_of(s.skip(i)) == tokens_of(s.skip(i + 1)),
{
    assert(s.skip(i).drop_first() =~= s.skip(i + 1));
}

/// A maximal non-blank run is exactly the token prefix of its suffix.
proof fn lemma_token_prefix_segment(s: Seq<char>, from: int, to: int)
    requires
        0 <= from <= to <= s.len(),
        forall|j: int| from <= j < to ==> !is_space(#[trigger] s[j]),
        to == s.len() || is_space(s[to]),
    ensures
        token_prefix(s.skip(from)) =~= s.subrange(from, to),
    decreases to - from,
{
    if from == to {
    } else {
        lemma_token_prefix_segment(s, from + 1, to);
        assert(s.skip(from).drop_first() =~= s.skip(from + 1));
        assert(token_prefix(s.skip(from)) =~= seq![s[from]] + token_prefix(
            s.skip(from + 1),
        ));
    }
}

/// The blank-separated tokens of `s`, each as its own vector.
pub fn split_tokens(s: &Vec<char>) -> (r: Vec<Vec<char>>)
    ensures
        r@.map_values(|t: Vec<char>| t@) == tokens_of(s@),
{
    broadcast use Seq::lemma_push_map_commute;

    let mut r: Vec<Vec<char>> = Vec::new();
    let mut i: usize = 0;
    proof {
        assert(r@.map_values(|t: Vec<char>| t@) =~= Seq::<Seq<char>>::empty());
        assert(s@.skip(0) =~= s@);
    }
    while i < s.len()
        invariant
            i <= s@.len(),
            tokens_of(s@) == r@.map_values(|t: Vec<char>| t@) + tokens_of(
                s@.skip(i as int),
            ),
        decreases s@.len() - i,
    {
        if s[i] == ' ' || s[i] == '\t' {
            proof {
                lemma_tokens_skip_space(s@, i as int);
            }
            i = i + 1;
        } else {
            let ghost start = i as int;
            let mut t: Vec<char> = Vec::new();
            proof {
                assert(t@ =~= s@.subrange(start, i as int));
            }
            while i < s.len() && !(s[i] == ' ' || s[i] == '\t')
                invariant
                    0 <= start <= i <= s@.len(),
                    t@ == s@.subrange(start, i as int),
                    forall|j: int| start <= j < i ==> !is_space(#[trigger] s@[j]),
                decreases s@.len() - i,
            {
                t.push(s[i]);
                i = i + 1;
                proof {
                    assert(t@ =~= s@.subrange(start, i as int));
                }
            }
            proof {
                lemma_token_prefix_segment(s@, start, i as int);
                lemma_token_prefix_len(s@.skip(start));
                assert(s@.skip(start).skip(t@.len() as int) =~= s@.skip(i as int));
                assert(tokens_of(s@.skip(start)) == seq![t@] + tokens_of(
                    s@.skip(i as int),
                ));
            }
            let ghost old_r = r@;
            r.push(t);
            proof {
                assert(r@.map_values(|x: Vec<char>| x@) =~= old_r.map_values(
                    |x: Vec<char>| x@,
                ).push(t@));
                assert(old_r.map_values(|x: Vec<char>| x@).push(t@) + tokens_of(
                    s@.skip(i as int),
                ) =~= old_r.map_values(|x: Vec<char>| x@) + (seq![t@] + tokens_of(
                    s@.skip(i as int),
                )));
            }
        }
    }
    proof {
        assert(s@.skip(s@.len() as int) =~= Seq::<char>::empty());
        assert(r@.map_values(|t: Vec<char>| t@) + Seq::<Seq<char>>::empty()
            =~= r@.map_values(|t: Vec<char>| t@));
    }
    r
}

} // verus!

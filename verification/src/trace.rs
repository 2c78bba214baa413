//! Parsing of a path-tracing utility's text output, and the route report
//! built from it.
//!
//! Each output line after the header names one hop. A token of the line is
//! taken as the hop's address when it is a dotted-quad IPv4 or an IPv6
//! literal, and as one round-trip sample when it is an unsigned decimal number of
//! milliseconds, optionally suffixed `ms` (sign and exponent forms are not
//! timings). The first token of every line is the hop-number column and is
//! never a timing. A line yielding neither an address nor a sample names no
//! hop; parsing stops after thirty hops.

use vstd::prelude::*;
use crate::text::{
    all_digits, dec_val, digit_val, is_digit, is_digit_exec, parse_dec_capped,
};

verus! {

/// The characters of `s` before the first `sep`, or all of `s`.
pub open spec fn sep_prefix(s: Seq<char>, sep: char) -> Seq<char>
    decreases s.len(),
{
    if s.len() == 0 || s[0] == sep {
        Seq::empty()
    } else {
        seq![s[0]] + sep_prefix(s.drop_first(), sep)
    }
}

pub proof fn lemma_sep_prefix_len(s: Seq<char>, sep: char)
    ensures
        sep_prefix(s, sep).len() <= s.len(),
        sep_prefix(s, sep).len() == s.len() || s[sep_prefix(s, sep).len() as int]
            == sep,
        forall|j: int| 0 <= j < sep_prefix(s, sep).len() ==> #[trigger] s[j] != sep,
    decreases s.len(),
{
    if s.len() > 0 && s[0] != sep {
        lemma_sep_prefix_len(s.drop_first(), sep);
        let p = sep_prefix(s, sep);
        assert forall|j: int| 0 <= j < p.len() implies #[trigger] s[j] != sep by {
            if j > 0 {
                assert(s[j] == s.drop_first()[j - 1]);
            }
        }
        if p.len() < s.len() {
            assert(s[p.len() as int] == s.drop_first()[p.len() - 1]);
        }
    }
}

/// `s` split at every `sep`: like `str::split`, empty pieces included.
pub open spec fn split_by(s: Seq<char>, sep: char) -> Seq<Seq<char>>
    decreases s.len(),
    via split_by_decreases
{
    let p = sep_prefix(s, sep);
    if p.len() == s.len() {
        seq![p]
    } else {
        seq![p] + split_by(s.skip(p.len() as int + 1), sep)
    }
}

#[via_fn]
proof fn split_by_decreases(s: Seq<char>, sep: char) {
    lemma_sep_prefix_len(s, sep);
}

/// A maximal `sep`-free run is exactly the `sep_prefix` of its suffix.
proof fn lemma_sep_prefix_segment(s: Seq<char>, sep: char, from: int, to: int)
    requires
        0 <= from <= to <= s.len(),
        forall|j: int| from <= j < to ==> #[trigger] s[j] != sep,
        to == s.len() || s[to] == sep,
    ensures
        sep_prefix(s.skip(from), sep) =~= s.subrange(from, to),
    decreases to - from,
{
    if from == to {
    } else {
        lemma_sep_prefix_segment(s, sep, from + 1, to);
        assert(s.skip(from).drop_first() =~= s.skip(from + 1));
        assert(sep_prefix(s.skip(from), sep) =~= seq![s[from]] + sep_prefix(
            s.skip(from + 1),
            sep,
        ));
    }
}

/// `s` split at every `sep`, each piece as its own vector.
pub fn split_char(s: &Vec<char>, sep: char) -> (r: Vec<Vec<char>>)
    ensures
        r@.map_values(|t: Vec<char>| t@) == split_by(s@, sep),
        r@.len() >= 1,
{
    broadcast use Seq::lemma_push_map_commute;

    let mut r: Vec<Vec<char>> = Vec::new();
    let mut piece: Vec<char> = Vec::new();
    let mut i: usize = 0;
    let ghost start = 0int;
    proof {
        assert(piece@ =~= s@.subrange(0, 0));
        assert(s@.skip(0) =~= s@);
        assert(r@.map_values(|t: Vec<char>| t@) =~= Seq::<Seq<char>>::empty());
    }
    while i < s.len()
        invariant
            0 <= start <= i <= s@.len(),
            piece@ == s@.subrange(start, i as int),
            forall|j: int| start <= j < i ==> #[trigger] s@[j] != sep,
            split_by(s@, sep) == r@.map_values(|t: Vec<char>| t@) + split_by(
                s@.skip(start),
                sep,
            ),
        decreases s@.len() - i,
    {
        if s[i] == sep {
            proof {
                lemma_sep_prefix_segment(s@, sep, start, i as int);
                assert(s@.skip(start).skip(piece@.len() as int + 1) =~= s@.skip(
                    i + 1,
                ));
                assert(split_by(s@.skip(start), sep) == seq![piece@] + split_by(
                    s@.skip(i + 1),
                    sep,
                ));
            }
            let ghost old_r = r@;
            r.push(piece);
            piece = Vec::new();
            i = i + 1;
            proof {
                assert(start <= i);
            }
            proof {
                assert(piece@ =~= s@.subrange(i as int, i as int));
                assert(r@.map_values(|x: Vec<char>| x@) =~= old_r.map_values(
                    |x: Vec<char>| x@,
                ).push(s@.subrange(start, i - 1)));
                assert(old_r.map_values(|x: Vec<char>| x@).push(
                    s@.subrange(start, i - 1),
                ) + split_by(s@.skip(i as int), sep) =~= old_r.map_values(
                    |x: Vec<char>| x@,
                ) + (seq![s@.subrange(start, i - 1)] + split_by(
                    s@.skip(i as int),
                    sep,
                )));
            }
            proof {
                start = i as int;
            }
        } else {
            piece.push(s[i]);
            i = i + 1;
            proof {
                assert(piece@ =~= s@.subrange(start, i as int));
            }
        }
    }
    proof {
        lemma_sep_prefix_segment(s@, sep, start, s@.len() as int);
        assert(sep_prefix(s@.skip(start), sep).len() == s@.skip(start).len());
        assert(split_by(s@.skip(start), sep) == seq![piece@]);
    }
    let ghost old_r = r@;
    r.push(piece);
    proof {
        assert(r@.map_values(|x: Vec<char>| x@) =~= old_r.map_values(
            |x: Vec<char>| x@,
        ).push(s@.subrange(start, s@.len() as int)));
        assert(old_r.map_values(|x: Vec<char>| x@).push(
            s@.subrange(start, s@.len() as int),
        ) =~= old_r.map_values(|x: Vec<char>| x@) + seq![
            s@.subrange(start, s@.len() as int),
        ]);
    }
    r
}

/// A valid dotted-quad octet: decimal digits without a leading zero, value
/// at most 255.
pub open spec fn valid_octet(t: Seq<char>) -> bool {
    &&& t.len() >= 1
    &&& all_digits(t)
    &&& (t.len() > 1 ==> t[0] != '0')
    &&& dec_val(t) <= 255
}

/// An IPv4 literal: four valid octets separated by dots.
pub open spec fn is_ipv4(t: Seq<char>) -> bool {
    let parts = split_by(t, '.');
    parts.len() == 4 && forall|i: int| 0 <= i < 4 ==> valid_octet(#[trigger] parts[i])
}

fn valid_octet_exec(t: &Vec<char>) -> (r: bool)
    ensures
        r == valid_octet(t@),
{
    if t.len() == 0 {
        return false;
    }
    if t.len() > 1 && t[0] == '0' {
        return false;
    }
    match parse_dec_capped(t, 255) {
        Some(_) => true,
        None => false,
    }
}

/// Recognizes a dotted-quad IPv4 literal.
pub fn is_ipv4_token(t: &Vec<char>) -> (r: bool)
    ensures
        r == is_ipv4(t@),
{
    let parts = split_char(t, '.');
    if parts.len() != 4 {
        return false;
    }
    let mut i: usize = 0;
    while i < 4
        invariant
            i <= 4,
            parts@.len() == 4,
            parts@.map_values(|x: Vec<char>| x@) == split_by(t@, '.'),
            forall|j: int| 0 <= j < i ==> valid_octet(
                #[trigger] split_by(t@, '.')[j],
            ),
        decreases 4 - i,
    {
        proof {
            assert(parts@.map_values(|x: Vec<char>| x@)[i as int] == parts@[
                i as int
            ]@);
        }
        if !valid_octet_exec(&parts[i]) {
            return false;
        }
        i = i + 1;
    }
    true
}

} // verus!

verus! {

/// `t` with every trailing `ms` suffix removed, as `str::trim_end_matches`
/// removes them.
pub open spec fn strip_ms(t: Seq<char>) -> Seq<char>
    decreases t.len(),
{
    if t.len() >= 2 && t[t.len() - 2] == 'm' && t[t.len() - 1] == 's' {
        strip_ms(t.take(t.len() - 2))
    } else {
        t
    }
}

/// The integer part of a decimal form: the digits before the first dot.
pub open spec fn int_part(c: Seq<char>) -> Seq<char> {
    sep_prefix(c, '.')
}

/// The fractional part: the characters after the first dot, or empty.
pub open spec fn frac_part(c: Seq<char>) -> Seq<char> {
    if int_part(c).len() < c.len() {
        c.skip(int_part(c).len() as int + 1)
    } else {
        Seq::empty()
    }
}

/// An unsigned decimal form: digits with at most one dot and at least one
/// digit, as `10`, `1.5`, `.5` or `5.`.
pub open spec fn ok_decimal(c: Seq<char>) -> bool {
    &&& all_digits(int_part(c))
    &&& all_digits(frac_part(c))
    &&& int_part(c).len() + frac_part(c).len() >= 1
}

/// The fractional part in microseconds: the first three fractional digits,
/// scaled to thousandths of a millisecond.
pub open spec fn frac_us(f: Seq<char>) -> nat {
    if f.len() == 0 {
        0
    } else if f.len() == 1 {
        dec_val(f) * 100
    } else if f.len() == 2 {
        dec_val(f) * 10
    } else {
        dec_val(f.take(3))
    }
}

/// The millisecond form's value in microseconds; fractional digits past
/// the third are dropped.
pub open spec fn timing_us(c: Seq<char>) -> nat {
    dec_val(int_part(c)) * 1000 + frac_us(frac_part(c))
}

/// A round-trip sample: an unsigned decimal number of milliseconds,
/// optionally suffixed `ms`, whose microsecond value is representable.
pub open spec fn is_timing(t: Seq<char>) -> bool {
    ok_decimal(strip_ms(t)) && timing_us(strip_ms(t)) <= u64::MAX
}

proof fn lemma_dec_val_bound(s: Seq<char>)
    requires
        all_digits(s),
        s.len() <= 3,
    ensures
        dec_val(s) <= 999,
        s.len() <= 2 ==> dec_val(s) <= 99,
        s.len() <= 1 ==> dec_val(s) <= 9,
    decreases s.len(),
{
    if s.len() > 0 {
        assert(all_digits(s.drop_last()));
        lemma_dec_val_bound(s.drop_last());
        assert(digit_val(s.last()) <= 9);
    }
}

fn all_digits_exec(t: &Vec<char>, from: usize, to: usize) -> (r: bool)
    requires
        from <= to <= t@.len(),
    ensures
        r == all_digits(t@.subrange(from as int, to as int)),
{
    let mut i: usize = from;
    while i < to
        invariant
            from <= i <= to <= t@.len(),
            forall|j: int| from <= j < i ==> is_digit(#[trigger] t@[j]),
        decreases to - i,
    {
        if !is_digit_exec(t[i]) {
            proof {
                assert(t@.subrange(from as int, to as int)[i - from] == t@[
                    i as int
                ]);
            }
            return false;
        }
        i = i + 1;
    }
    proof {
        assert forall|j: int|
            0 <= j < t@.subrange(from as int, to as int).len() implies is_digit(
            #[trigger] t@.subrange(from as int, to as int)[j],
        ) by {
            assert(t@.subrange(from as int, to as int)[j] == t@[from + j]);
        }
    }
    true
}

/// Reads a round-trip token: `Some` of its value in microseconds when it
/// is a timing, `None` otherwise.
pub fn parse_timing_token(t: &Vec<char>) -> (r: Option<u64>)
    ensures
        r is Some <==> is_timing(t@),
        r is Some ==> r->0 == timing_us(strip_ms(t@)),
{
    let mut end: usize = t.len();
    proof {
        assert(t@.take(end as int) =~= t@);
    }
    while end >= 2 && t[end - 2] == 'm' && t[end - 1] == 's'
        invariant
            end <= t@.len(),
            strip_ms(t@) == strip_ms(t@.take(end as int)),
        decreases end,
    {
        proof {
            assert(t@.take(end as int).take(end - 2) =~= t@.take(end - 2));
        }
        end = end - 2;
    }
    let ghost c = strip_ms(t@);
    proof {
        assert(t@.take(end as int).take(t@.take(end as int).len() as int) =~= t@
            .take(end as int));
        assert(c == t@.take(end as int));
    }
    // position of the first dot
    let mut dp: usize = 0;
    while dp < end && !(t[dp] == '.')
        invariant
            dp <= end <= t@.len(),
            forall|j: int| 0 <= j < dp ==> #[trigger] t@[j] != '.',
        decreases end - dp,
    {
        dp = dp + 1;
    }
    proof {
        assert forall|j: int| 0 <= j < dp implies #[trigger] c[j] != '.' by {
            assert(c[j] == t@[j]);
        }
        lemma_sep_prefix_segment(c, '.', 0, dp as int);
        assert(c.skip(0) =~= c);
        assert(int_part(c) =~= c.subrange(0, dp as int));
        assert(int_part(c).len() == dp);
        if dp < end {
            assert(frac_part(c) =~= c.subrange(dp as int + 1, end as int));
        } else {
            assert(frac_part(c) =~= Seq::<char>::empty());
        }
    }
    // digit checks on both parts
    if !all_digits_exec(t, 0, dp) {
        proof {
            assert(t@.subrange(0, dp as int) =~= int_part(c));
        }
        return None;
    }
    let frac_from: usize = if dp < end {
        dp + 1
    } else {
        end
    };
    if !all_digits_exec(t, frac_from, end) {
        proof {
            assert(t@.subrange(frac_from as int, end as int) =~= frac_part(c));
        }
        return None;
    }
    proof {
        assert(t@.subrange(0, dp as int) =~= int_part(c));
        assert(t@.subrange(frac_from as int, end as int) =~= frac_part(c));
    }
    let frac_len: usize = end - frac_from;
    if dp == 0 && frac_len == 0 {
        return None;
    }
    // the first three fractional digits, scaled to microseconds
    let f3: u64 = if frac_len == 0 {
        0
    } else {
        let mut fv: Vec<char> = Vec::new();
        let take_n: usize = if frac_len > 3 {
            3
        } else {
            frac_len
        };
        let mut k: usize = 0;
        while k < take_n
            invariant
                k <= take_n <= 3,
                frac_from + take_n <= end <= t@.len(),
                fv@ == t@.subrange(frac_from as int, frac_from as int + k),
            decreases take_n - k,
        {
            fv.push(t[frac_from + k]);
            k = k + 1;
            proof {
                assert(fv@ =~= t@.subrange(frac_from as int, frac_from as int + k));
            }
        }
        proof {
            if frac_len > 3 {
                assert(fv@ =~= frac_part(c).take(3));
            } else {
                assert(fv@ =~= frac_part(c));
            }
            assert(all_digits(fv@));
            lemma_dec_val_bound(fv@);
        }
        let v = match parse_dec_capped(&fv, 999) {
            Some(v) => v,
            None => {
                proof {
                    assert(false);
                }
                0
            },
        };
        let scaled: u64 = if frac_len == 1 {
            v * 100
        } else if frac_len == 2 {
            v * 10
        } else {
            v
        };
        proof {
            assert(frac_part(c).len() == frac_len);
            if frac_len == 3 {
                assert(frac_part(c).take(3) =~= frac_part(c));
            }
            assert(scaled == frac_us(frac_part(c)));
            assert(scaled <= 999);
        }
        scaled
    };
    proof {
        assert(f3 == frac_us(frac_part(c)));
        assert(f3 <= 999);
    }
    // the integer part, capped so that the whole value stays representable
    let cap: u64 = (u64::MAX - f3) / 1000;
    let iv: u64 = if dp == 0 {
        0
    } else {
        match parse_dec_capped(&{
            let mut ivv: Vec<char> = Vec::new();
            let mut k: usize = 0;
            while k < dp
                invariant
                    k <= dp <= t@.len(),
                    ivv@ == t@.subrange(0, k as int),
                decreases dp - k,
            {
                ivv.push(t[k]);
                k = k + 1;
                proof {
                    assert(ivv@ =~= t@.subrange(0, k as int));
                }
            }
            proof {
                assert(ivv@ =~= int_part(c));
            }
            ivv
        }, cap) {
            Some(v) => v,
            None => {
                proof {
                    lemma_cap_exceeded(dec_val(int_part(c)), f3 as nat, cap as nat);
                }
                return None;
            },
        }
    };
    proof {
        lemma_cap_kept(iv as nat, f3 as nat, cap as nat);
    }
    Some(iv * 1000 + f3)
}

/// `v > (MAX - f) / 1000` puts `v * 1000 + f` past `u64::MAX`.
proof fn lemma_cap_exceeded(v: nat, f: nat, cap: nat)
    requires
        f <= 999,
        cap == (u64::MAX - f) as nat / 1000,
        v > cap,
    ensures
        v * 1000 + f > u64::MAX,
{
    let m = (u64::MAX - f) as nat;
    vstd::arithmetic::div_mod::lemma_fundamental_div_mod(m as int, 1000);
    assert(v * 1000 >= (cap + 1) * 1000) by (nonlinear_arith)
        requires v >= cap + 1;
    assert((cap + 1) * 1000 == cap * 1000 + 1000) by (nonlinear_arith);
}

/// `v <= (MAX - f) / 1000` keeps `v * 1000 + f` representable.
proof fn lemma_cap_kept(v: nat, f: nat, cap: nat)
    requires
        f <= 999,
        cap == (u64::MAX - f) as nat / 1000,
        v <= cap,
    ensures
        v * 1000 + f <= u64::MAX,
{
    let m = (u64::MAX - f) as nat;
    vstd::arithmetic::div_mod::lemma_fundamental_div_mod(m as int, 1000);
    assert(v * 1000 <= cap * 1000) by (nonlinear_arith)
        requires v <= cap;
}

} // verus!

verus! {

/// Round-trip samples above this mark a responding hop as slow.
pub const SLOW_HOP_THRESHOLD_US: u64 = 100000;

/// Path tracing stops after this many hops.
pub const MAX_HOPS: u8 = 30;

/// One network hop of a traced route. A hop with no address is one whose
/// probes went unanswered; round-trip samples are in microseconds.
pub struct TraceHop {
    pub hop_number: u8,
    pub ip_address: Option<String>,
    pub hostname: Option<String>,
    pub rtt_us: Vec<u64>,
    pub is_target: bool,
}

/// The mathematical content of a `TraceHop`.
pub ghost struct HopView {
    pub hop_number: u8,
    pub ip: Option<Seq<char>>,
    pub rtts: Seq<u64>,
    pub is_target: bool,
}

pub open spec fn opt_str_view(o: Option<&str>) -> Option<Seq<char>> {
    match o {
        Option::Some(s) => Option::Some(s@),
        Option::None => Option::None,
    }
}

pub open spec fn opt_string_view(o: Option<String>) -> Option<Seq<char>> {
    match o {
        Option::Some(s) => Option::Some(s@),
        Option::None => Option::None,
    }
}

impl View for TraceHop {
    type V = HopView;

    open spec fn view(&self) -> HopView {
        HopView {
            hop_number: self.hop_number,
            ip: match self.ip_address {
                Option::Some(s) => Option::Some(s@),
                Option::None => Option::None,
            },
            rtts: self.rtt_us@,
            is_target: self.is_target,
        }
    }
}

/// The last address token of a hop line's tokens, if any: a later address
/// column overwrites an earlier one.
pub open spec fn last_ip_of(ts: Seq<Seq<char>>) -> Option<Seq<char>>
    decreases ts.len(),
{
    if ts.len() == 0 {
        Option::None
    } else if is_ip(ts.last()) {
        Option::Some(ts.last())
    } else {
        last_ip_of(ts.drop_last())
    }
}

/// The round-trip samples of a hop line's tokens, in microseconds, in
/// order.
pub open spec fn rtts_of(ts: Seq<Seq<char>>) -> Seq<u64>
    decreases ts.len(),
{
    if ts.len() == 0 {
        Seq::empty()
    } else if !is_ip(ts.last()) && is_timing(ts.last()) {
        rtts_of(ts.drop_last()).push(timing_us(strip_ms(ts.last())) as u64)
    } else {
        rtts_of(ts.drop_last())
    }
}

/// Some address token of the line names the resolved target.
pub open spec fn names_target(ts: Seq<Seq<char>>, resolved: Option<Seq<char>>) -> bool {
    exists|i: int|
        0 <= i < ts.len() && is_ip(#[trigger] ts[i]) && resolved is Some
            && ts[i] == resolved->0
}

/// What one output line says, if it names a hop at all: its tokens after
/// the hop-number column are read as addresses and round-trip samples; a
/// line yielding neither is no hop.
pub open spec fn hop_view_of_line(
    line: Seq<char>,
    hop_number: u8,
    resolved: Option<Seq<char>>,
) -> Option<HopView> {
    let ts = crate::text::tokens_of(line);
    if ts.len() == 0 {
        Option::None
    } else {
        let rest = ts.drop_first();
        let ip = last_ip_of(rest);
        let rtts = rtts_of(rest);
        if ip is Some || rtts.len() > 0 {
            Option::Some(
                HopView {
                    hop_number,
                    ip,
                    rtts,
                    is_target: names_target(rest, resolved),
                },
            )
        } else {
            Option::None
        }
    }
}

fn parse_hop_line_chars(
    line: &Vec<char>,
    hop_number: u8,
    resolved_ip: Option<&str>,
) -> (r: Option<TraceHop>)
    ensures
        r is Some <==> hop_view_of_line(
            line@,
            hop_number,
            opt_str_view(resolved_ip),
        ) is Some,
        r is Some ==> r->0@ == hop_view_of_line(
            line@,
            hop_number,
            opt_str_view(resolved_ip),
        )->0,
        r is Some ==> r->0.hostname is None,
{
    let ts = crate::text::split_tokens(line);
    let ghost tsv = ts@.map_values(|t: Vec<char>| t@);
    if ts.len() == 0 {
        return None;
    }
    let ghost rest = tsv.drop_first();
    let mut ip_address: Option<String> = None;
    let mut rtt_us: Vec<u64> = Vec::new();
    let mut is_target: bool = false;
    let mut i: usize = 1;
    proof {
        assert(rest.subrange(0, 0) =~= Seq::<Seq<char>>::empty());
    }
    while i < ts.len()
        invariant
            1 <= i <= ts@.len(),
            tsv == ts@.map_values(|t: Vec<char>| t@),
            tsv.len() == ts@.len(),
            rest == tsv.drop_first(),
            opt_string_view(ip_address) == last_ip_of(rest.subrange(0, i - 1)),
            rtt_us@ == rtts_of(rest.subrange(0, i - 1)),
            is_target == names_target(
                rest.subrange(0, i - 1),
                opt_str_view(resolved_ip),
            ),
        decreases ts@.len() - i,
    {
        proof {
            assert(tsv[i as int] == ts@[i as int]@);
            assert(rest.subrange(0, i as int).drop_last() =~= rest.subrange(
                0,
                i - 1,
            ));
            assert(rest.subrange(0, i as int).last() == rest[i - 1]);
            assert(rest[i - 1] == tsv[i as int]);
        }
        let tok = &ts[i];
        if is_ip_token(tok) {
            ip_address = Some(crate::text::string_from_chars(tok));
            match resolved_ip {
                Some(res) => {
                    if crate::text::chars_eq_str(tok, res) {
                        is_target = true;
                        proof {
                            assert(names_target(
                                rest.subrange(0, i as int),
                                opt_str_view(resolved_ip),
                            )) by {
                                assert(rest.subrange(0, i as int)[i - 1] == tok@);
                            }
                        }
                    }
                },
                None => {},
            }
            proof {
                if !is_target {
                    assert forall|k: int|
                        0 <= k < rest.subrange(0, i as int).len() && is_ip(
                            #[trigger] rest.subrange(0, i as int)[k],
                        ) && opt_str_view(resolved_ip) is Some implies rest.subrange(
                        0,
                        i as int,
                    )[k] != opt_str_view(resolved_ip)->0 by {
                        if k < i - 1 {
                            assert(rest.subrange(0, i as int)[k] == rest.subrange(
                                0,
                                i - 1,
                            )[k]);
                        }
                    }
                }
            }
        } else {
            match parse_timing_token(tok) {
                Some(v) => {
                    rtt_us.push(v);
                },
                None => {},
            }
            proof {
                if names_target(rest.subrange(0, i - 1), opt_str_view(resolved_ip)) {
                    let w = choose|w: int|
                        0 <= w < rest.subrange(0, i - 1).len() && is_ip(
                            #[trigger] rest.subrange(0, i - 1)[w],
                        ) && opt_str_view(resolved_ip) is Some && rest.subrange(
                            0,
                            i - 1,
                        )[w] == opt_str_view(resolved_ip)->0;
                    assert(rest.subrange(0, i as int)[w] == rest.subrange(
                        0,
                        i - 1,
                    )[w]);
                } else {
                    assert forall|k: int|
                        0 <= k < rest.subrange(0, i as int).len() && is_ip(
                            #[trigger] rest.subrange(0, i as int)[k],
                        ) && opt_str_view(resolved_ip) is Some implies rest.subrange(
                        0,
                        i as int,
                    )[k] != opt_str_view(resolved_ip)->0 by {
                        if k < i - 1 {
                            assert(rest.subrange(0, i as int)[k] == rest.subrange(
                                0,
                                i - 1,
                            )[k]);
                        }
                    }
                }
            }
        }
        i = i + 1;
    }
    proof {
        assert(rest.subrange(0, rest.len() as int) =~= rest);
    }
    let has_ip = match &ip_address {
        Some(_) => true,
        None => false,
    };
    if has_ip || rtt_us.len() > 0 {
        Some(
            TraceHop {
                hop_number,
                ip_address,
                hostname: None,
                rtt_us,
                is_target,
            },
        )
    } else {
        None
    }
}

/// Reads one hop line: `Some` exactly when the line names an address or at
/// least one round-trip sample.
pub fn parse_hop_line(
    line: &str,
    hop_number: u8,
    resolved_ip: Option<&str>,
) -> (r: Option<TraceHop>)
    ensures
        r is Some <==> hop_view_of_line(
            line@,
            hop_number,
            opt_str_view(resolved_ip),
        ) is Some,
        r is Some ==> r->0@ == hop_view_of_line(
            line@,
            hop_number,
            opt_str_view(resolved_ip),
        )->0,
        r is Some ==> r->0.hostname is None,
{
    let cs = crate::text::chars_of(line);
    parse_hop_line_chars(&cs, hop_number, resolved_ip)
}

} // verus!

verus! {

/// A line with its one trailing carriage return removed.
pub open spec fn strip_cr(l: Seq<char>) -> Seq<char> {
    if l.len() > 0 && l.last() == '\r' {
        l.drop_last()
    } else {
        l
    }
}

/// The lines of a text, as `str::lines` yields them: split at `'\n'`, a
/// final empty piece dropped, and one trailing `'\r'` removed per line.
pub open spec fn lines_of(s: Seq<char>) -> Seq<Seq<char>> {
    let raw = split_by(s, '\n');
    let kept = if raw.last().len() == 0 {
        raw.drop_last()
    } else {
        raw
    };
    kept.map_values(|l: Seq<char>| strip_cr(l))
}

/// The lines of a text, each as its own character vector.
pub fn lines_vec(s: &str) -> (r: Vec<Vec<char>>)
    ensures
        r@.map_values(|l: Vec<char>| l@) == lines_of(s@),
{
    broadcast use Seq::lemma_push_map_commute;

    let cs = crate::text::chars_of(s);
    let mut raw = split_char(&cs, '\n');
    let ghost rawv = raw@.map_values(|l: Vec<char>| l@);
    proof {
        assert(rawv[rawv.len() - 1] == raw@[raw@.len() - 1]@);
    }
    let last_is_empty = raw[raw.len() - 1].len() == 0;
    if last_is_empty {
        let _ = raw.pop();
    }
    let ghost kept = if rawv.last().len() == 0 { rawv.drop_last() } else { rawv };
    proof {
        assert(raw@.map_values(|l: Vec<char>| l@) =~= kept);
    }
    let mut out: Vec<Vec<char>> = Vec::new();
    let ghost total = raw@.len();
    let mut k: usize = 0;
    proof {
        assert(out@.map_values(|l: Vec<char>| l@) =~= kept.subrange(0, 0).map_values(
            |l: Seq<char>| strip_cr(l),
        ));
    }
    while k < raw.len()
        invariant
            k <= raw@.len(),
            raw@.map_values(|l: Vec<char>| l@) == kept,
            out@.map_values(|l: Vec<char>| l@) == kept.subrange(0, k as int)
                .map_values(|l: Seq<char>| strip_cr(l)),
        decreases raw@.len() - k,
    {
        proof {
            assert(kept[k as int] == raw@[k as int]@);
        }
        let mut piece: Vec<char> = Vec::new();
        let src = &raw[k];
        let keep_n = if src.len() > 0 && src[src.len() - 1] == '\r' {
            src.len() - 1
        } else {
            src.len()
        };
        let mut j: usize = 0;
        proof {
            assert(piece@ =~= src@.subrange(0, 0));
        }
        while j < keep_n
            invariant
                j <= keep_n <= src@.len(),
                piece@ == src@.subrange(0, j as int),
            decreases keep_n - j,
        {
            piece.push(src[j]);
            j = j + 1;
            proof {
                assert(piece@ =~= src@.subrange(0, j as int));
            }
        }
        proof {
            assert(piece@ =~= strip_cr(raw@[k as int]@)) by {
                if raw@[k as int]@.len() > 0 && raw@[k as int]@.last() == '\r' {
                    assert(src@.subrange(0, src@.len() - 1) =~= src@.drop_last());
                } else {
                    assert(src@.subrange(0, src@.len() as int) =~= src@);
                }
            }
        }
        let ghost old_out = out@;
        out.push(piece);
        k = k + 1;
        proof {
            assert(out@.map_values(|l: Vec<char>| l@) =~= old_out.map_values(
                |l: Vec<char>| l@,
            ).push(strip_cr(kept[k - 1])));
            assert(kept.subrange(0, k as int).drop_last() =~= kept.subrange(
                0,
                k - 1,
            ));
            assert(kept.subrange(0, k as int).map_values(
                |l: Seq<char>| strip_cr(l),
            ) =~= kept.subrange(0, k - 1).map_values(
                |l: Seq<char>| strip_cr(l),
            ).push(strip_cr(kept[k - 1])));
        }
    }
    proof {
        assert(kept.subrange(0, kept.len() as int) =~= kept);
    }
    out
}

/// The hops named by the first `k` lines after the header, numbered from
/// one.
pub open spec fn hop_views_upto(
    body: Seq<Seq<char>>,
    resolved: Option<Seq<char>>,
    k: int,
) -> Seq<HopView>
    decreases k,
{
    if k <= 0 {
        Seq::empty()
    } else {
        let prev = hop_views_upto(body, resolved, k - 1);
        match hop_view_of_line(body[k - 1], k as u8, resolved) {
            Option::Some(h) => prev.push(h),
            Option::None => prev,
        }
    }
}

pub proof fn lemma_hop_views_upto_len(
    body: Seq<Seq<char>>,
    resolved: Option<Seq<char>>,
    k: int,
)
    ensures
        hop_views_upto(body, resolved, k).len() <= (if k <= 0 { 0int } else { k }),
    decreases k,
{
    if k > 0 {
        lemma_hop_views_upto_len(body, resolved, k - 1);
    }
}

/// The hops a trace's whole output names: the header line is skipped, and
/// reading stops after `MAX_HOPS` lines.
pub open spec fn hops_of_output(s: Seq<char>, resolved: Option<Seq<char>>) -> Seq<
    HopView,
> {
    let ls = lines_of(s);
    if ls.len() <= 1 {
        Seq::empty()
    } else {
        let body = ls.drop_first();
        let n = if body.len() <= MAX_HOPS as int {
            body.len() as int
        } else {
            MAX_HOPS as int
        };
        hop_views_upto(body, resolved, n)
    }
}

/// Hops whose probes all went unanswered.
pub open spec fn count_unresponsive(hs: Seq<HopView>) -> int
    decreases hs.len(),
{
    if hs.len() == 0 {
        0
    } else {
        count_unresponsive(hs.drop_last()) + (if hs.last().ip is None {
            1int
        } else {
            0int
        })
    }
}

pub proof fn lemma_count_unresponsive_bound(hs: Seq<HopView>)
    ensures
        0 <= count_unresponsive(hs) <= hs.len(),
    decreases hs.len(),
{
    if hs.len() > 0 {
        lemma_count_unresponsive_bound(hs.drop_last());
    }
}

/// A traced route: the target, its resolved address, and the hops read
/// from the tracing utility's output.
pub struct NetworkDiagnostics {
    pub target: String,
    pub resolved_ip: Option<String>,
    pub hops: Vec<TraceHop>,
    pub total_hops: u8,
    pub unresponsive_hops: u8,
}

impl NetworkDiagnostics {
    /// Every counter is exact for the held hops.
    pub open spec fn wf(self) -> bool {
        &&& self.total_hops == self.hops@.len()
        &&& self.hops@.len() <= MAX_HOPS as int
        &&& self.unresponsive_hops == count_unresponsive(
            self.hops@.map_values(|h: TraceHop| h@),
        )
    }

    /// Packet loss in tenths of a percent: unanswered hops over all hops,
    /// zero when no hop was parsed at all.
    pub fn packet_loss_tenths(&self) -> (r: u32)
        requires
            self.wf(),
        ensures
            r == (if self.total_hops == 0 {
                0int
            } else {
                self.unresponsive_hops as int * 1000 / self.total_hops as int
            }),
    {
        if self.total_hops == 0 {
            0
        } else {
            (self.unresponsive_hops as u32) * 1000 / (self.total_hops as u32)
        }
    }
}

/// Builds the route report from a tracing utility's captured output: the
/// header line is skipped, each further line is read as a hop, and reading
/// stops after `MAX_HOPS` hops.
pub fn build_network_diagnostics(
    target: &str,
    resolved_ip: Option<String>,
    output: &str,
) -> (r: NetworkDiagnostics)
    ensures
        r.wf(),
        r.target@ == target@,
        opt_string_view(r.resolved_ip) == opt_string_view(resolved_ip),
        r.hops@.map_values(|h: TraceHop| h@) == hops_of_output(
            output@,
            opt_string_view(resolved_ip),
        ),
{
    broadcast use Seq::lemma_push_map_commute;

    let ghost res = opt_string_view(resolved_ip);
    let lines = lines_vec(output);
    let ghost lsv = lines@.map_values(|l: Vec<char>| l@);
    let mut hops: Vec<TraceHop> = Vec::new();
    let mut unresponsive: u8 = 0;
    let mut k: usize = 1;
    proof {
        assert(hops@.map_values(|h: TraceHop| h@) =~= Seq::<HopView>::empty());
        if lsv.len() > 1 {
            assert(hop_views_upto(lsv.drop_first(), res, 0) =~= Seq::<
                HopView,
            >::empty());
        }
        lemma_count_unresponsive_bound(Seq::<HopView>::empty());
    }
    let resolved_ref: Option<&str> = match &resolved_ip {
        Some(s) => Some(s.as_str()),
        None => None,
    };
    proof {
        assert(opt_str_view(resolved_ref) == res);
    }
    while k < lines.len() && k <= MAX_HOPS as usize
        invariant
            1 <= k,
            k <= lines@.len() || k == 1,
            k <= MAX_HOPS as usize + 1,
            lsv == lines@.map_values(|l: Vec<char>| l@),
            lsv.len() == lines@.len(),
            opt_str_view(resolved_ref) == res,
            lsv.len() > 1 ==> hops@.map_values(|h: TraceHop| h@) == hop_views_upto(
                lsv.drop_first(),
                res,
                k - 1,
            ),
            lsv.len() <= 1 ==> hops@.len() == 0,
            hops@.len() <= k - 1,
            unresponsive == count_unresponsive(
                hops@.map_values(|h: TraceHop| h@),
            ),
        decreases lines@.len() - k,
    {
        proof {
            assert(lsv[k as int] == lines@[k as int]@);
            assert(lsv.drop_first()[k - 1] == lsv[k as int]);
        }
        let hop = parse_hop_line_chars(&lines[k], k as u8, resolved_ref);
        let ghost old_hops = hops@;
        match hop {
            Some(h) => {
                let ghost hv = h@;
                if match &h.ip_address {
                    Some(_) => false,
                    None => true,
                } {
                    proof {
                        lemma_count_unresponsive_bound(
                            old_hops.map_values(|x: TraceHop| x@),
                        );
                    }
                    unresponsive = unresponsive + 1;
                }
                hops.push(h);
                proof {
                    assert(hops@.map_values(|x: TraceHop| x@) =~= old_hops
                        .map_values(|x: TraceHop| x@).push(hv));
                    assert(hops@.map_values(|x: TraceHop| x@).drop_last()
                        =~= old_hops.map_values(|x: TraceHop| x@));
                }
            },
            None => {},
        }
        k = k + 1;
    }
    proof {
        if lsv.len() > 1 {
            let body = lsv.drop_first();
            if k < lsv.len() {
                assert(k - 1 == MAX_HOPS as int);
            } else {
                assert(k - 1 == body.len());
            }
            assert(hops@.map_values(|h: TraceHop| h@) == hops_of_output(
                output@,
                res,
            ));
        } else {
            assert(hops@.map_values(|h: TraceHop| h@) =~= hops_of_output(
                output@,
                res,
            ));
        }
        lemma_hop_views_upto_len(lsv.drop_first(), res, k - 1);
    }
    let total = hops.len() as u8;
    NetworkDiagnostics {
        target: crate::text::string_from_chars(&crate::text::chars_of(target)),
        resolved_ip,
        hops,
        total_hops: total,
        unresponsive_hops: unresponsive,
    }
}

/// How a hop is reported in the route table.
#[derive(Clone, Copy, Debug, PartialEq, Eq, Structural)]
pub enum HopStatus {
    /// The hop is the resolved target.
    Target,
    /// No probe was answered.
    NoResponse,
    /// Some round-trip sample exceeded the slow-hop threshold.
    Slow,
    /// A responding hop within the threshold.
    Responding,
}

/// The status the route table shows for a hop.
pub open spec fn hop_status_of(h: HopView) -> HopStatus {
    if h.is_target {
        HopStatus::Target
    } else if h.ip is None {
        HopStatus::NoResponse
    } else if exists|i: int|
        0 <= i < h.rtts.len() && #[trigger] h.rtts[i] > SLOW_HOP_THRESHOLD_US {
        HopStatus::Slow
    } else {
        HopStatus::Responding
    }
}

/// Classifies a hop for the route table: the target mark wins, then
/// unanswered probes, then any sample over the slow-hop threshold.
pub fn hop_status(h: &TraceHop) -> (r: HopStatus)
    ensures
        r == hop_status_of(h@),
{
    if h.is_target {
        return HopStatus::Target;
    }
    let has_ip = match &h.ip_address {
        Some(_) => true,
        None => false,
    };
    if !has_ip {
        return HopStatus::NoResponse;
    }
    let mut i: usize = 0;
    while i < h.rtt_us.len()
        invariant
            i <= h.rtt_us@.len(),
            !h@.is_target,
            h@.ip is Some,
            forall|j: int| 0 <= j < i ==> !(#[trigger] h.rtt_us@[j]
                > SLOW_HOP_THRESHOLD_US),
        decreases h.rtt_us@.len() - i,
    {
        if h.rtt_us[i] > SLOW_HOP_THRESHOLD_US {
            proof {
                assert(h@.rtts[i as int] > SLOW_HOP_THRESHOLD_US);
            }
            return HopStatus::Slow;
        }
        i = i + 1;
    }
    HopStatus::Responding
}

/// The mean of a hop's round-trip samples in microseconds, `None` when
/// every probe went unanswered.
pub fn avg_rtt_us(h: &TraceHop) -> (r: Option<u64>)
    ensures
        h.rtt_us@.len() == 0 <==> r is None,
        r is Some ==> r->0 == crate::stats::sum_of(h.rtt_us@) / h.rtt_us@.len()
            as int,
{
    if h.rtt_us.len() == 0 {
        return None;
    }
    let mut acc: u128 = 0;
    let mut i: usize = 0;
    while i < h.rtt_us.len()
        invariant
            i <= h.rtt_us@.len(),
            acc == crate::stats::sum_of(h.rtt_us@.subrange(0, i as int)),
            acc <= i as int * u64::MAX as int,
        decreases h.rtt_us@.len() - i,
    {
        proof {
            assert(h.rtt_us@.subrange(0, i + 1).drop_last() =~= h.rtt_us@.subrange(
                0,
                i as int,
            ));
            assert(crate::stats::sum_of(h.rtt_us@.subrange(0, i + 1))
                == crate::stats::sum_of(h.rtt_us@.subrange(0, i as int))
                + h.rtt_us@[i as int]);
        }
        acc = acc + (h.rtt_us[i] as u128);
        i = i + 1;
    }
    proof {
        assert(h.rtt_us@.subrange(0, h.rtt_us@.len() as int) =~= h.rtt_us@);
        let n = h.rtt_us@.len() as int;
        let s = crate::stats::sum_of(h.rtt_us@);
        assert(n * u64::MAX as int >= s);
        vstd::arithmetic::div_mod::lemma_div_is_ordered(
            s,
            n * u64::MAX as int,
            n,
        );
        vstd::arithmetic::div_mod::lemma_div_by_multiple(u64::MAX as int, n);
        assert(u64::MAX as int * n == n * u64::MAX as int) by (nonlinear_arith);
        assert(s / n <= u64::MAX as int);
    }
    Some((acc / (h.rtt_us.len() as u128)) as u64)
}

} // verus!

verus! {

/// A hexadecimal digit, either case.
pub open spec fn is_hex_digit(c: char) -> bool {
    ('0' <= c && c <= '9') || ('a' <= c && c <= 'f') || ('A' <= c && c <= 'F')
}

/// A group of an IPv6 literal: one to four hexadecimal digits.
pub open spec fn valid_group(g: Seq<char>) -> bool {
    1 <= g.len() <= 4 && forall|i: int| 0 <= i < g.len() ==> is_hex_digit(
        #[trigger] g[i],
    )
}

pub open spec fn groups_valid(ps: Seq<Seq<char>>, from: int, to: int) -> bool {
    forall|i: int| from <= i < to ==> valid_group(#[trigger] ps[i])
}

/// How many pieces are empty.
pub open spec fn count_empty(ps: Seq<Seq<char>>) -> int
    decreases ps.len(),
{
    if ps.len() == 0 {
        0
    } else {
        count_empty(ps.drop_last()) + (if ps.last().len() == 0 {
            1int
        } else {
            0int
        })
    }
}

/// The index of the first empty piece, or the length.
pub open spec fn first_empty(ps: Seq<Seq<char>>) -> int
    decreases ps.len(),
{
    if ps.len() == 0 {
        0
    } else if ps[0].len() == 0 {
        0
    } else {
        1 + first_empty(ps.drop_first())
    }
}

proof fn lemma_first_empty(ps: Seq<Seq<char>>)
    ensures
        0 <= first_empty(ps) <= ps.len(),
        forall|j: int| 0 <= j < first_empty(ps) ==> #[trigger] ps[j].len() != 0,
        first_empty(ps) < ps.len() ==> ps[first_empty(ps)].len() == 0,
    decreases ps.len(),
{
    if ps.len() > 0 && ps[0].len() != 0 {
        lemma_first_empty(ps.drop_first());
        assert forall|j: int| 0 <= j < first_empty(ps) implies #[trigger] ps[j].len()
            != 0 by {
            if j > 0 {
                assert(ps[j] == ps.drop_first()[j - 1]);
            }
        }
        if first_empty(ps) < ps.len() {
            assert(ps[first_empty(ps)] == ps.drop_first()[first_empty(ps) - 1]);
        }
    }
}

/// An IPv6 literal: colon-separated hexadecimal groups, either eight of
/// them or fewer with a single `::` elision at the start, the end or
/// between groups. The all-zero form `::` is a literal of its own;
/// embedded dotted-quad tails are not recognized.
pub open spec fn is_ipv6(t: Seq<char>) -> bool {
    let ps = split_by(t, ':');
    let n = ps.len() as int;
    if count_empty(ps) == 0 {
        n == 8 && groups_valid(ps, 0, n)
    } else if n == 3 && ps[0].len() == 0 && ps[1].len() == 0 && ps[2].len() == 0 {
        true
    } else if ps[0].len() == 0 {
        n >= 3 && ps[1].len() == 0 && count_empty(ps) == 2 && groups_valid(ps, 2, n)
            && n - 2 <= 7
    } else if ps[n - 1].len() == 0 {
        n >= 3 && ps[n - 2].len() == 0 && count_empty(ps) == 2 && groups_valid(
            ps,
            0,
            n - 2,
        ) && n - 2 <= 7
    } else {
        count_empty(ps) == 1 && groups_valid(ps, 0, first_empty(ps)) && groups_valid(
            ps,
            first_empty(ps) + 1,
            n,
        ) && n - 1 <= 7
    }
}

fn is_hex_digit_exec(c: char) -> (r: bool)
    ensures
        r == is_hex_digit(c),
{
    ('0' <= c && c <= '9') || ('a' <= c && c <= 'f') || ('A' <= c && c <= 'F')
}

fn valid_group_exec(g: &Vec<char>) -> (r: bool)
    ensures
        r == valid_group(g@),
{
    if g.len() < 1 || g.len() > 4 {
        return false;
    }
    let mut i: usize = 0;
    while i < g.len()
        invariant
            i <= g@.len(),
            forall|j: int| 0 <= j < i ==> is_hex_digit(#[trigger] g@[j]),
        decreases g@.len() - i,
    {
        if !is_hex_digit_exec(g[i]) {
            return false;
        }
        i = i + 1;
    }
    true
}

/// Recognizes an IPv6 literal.
pub fn is_ipv6_token(t: &Vec<char>) -> (r: bool)
    ensures
        r == is_ipv6(t@),
{
    let parts = split_char(t, ':');
    let ghost psv = parts@.map_values(|x: Vec<char>| x@);
    let n = parts.len();
    proof {
        assert forall|j: int| 0 <= j < psv.len() implies psv[j] == parts@[j]@ by {}
    }

    // count the empty pieces and find the first
    let mut empties: usize = 0;
    let mut first: usize = n;
    let mut k: usize = 0;
    proof {
        assert(count_empty(psv.subrange(0, 0)) == 0);
    }
    while k < n
        invariant
            k <= n,
            n == psv.len(),
            psv == parts@.map_values(|x: Vec<char>| x@),
            empties == count_empty(psv.subrange(0, k as int)),
            empties <= k,
            first == n || (first < k && psv[first as int].len() == 0),
            forall|j: int| 0 <= j < k && j < first ==> #[trigger] psv[j].len() != 0,
            first == n ==> forall|j: int| 0 <= j < k ==> #[trigger] psv[j].len()
                != 0,
        decreases n - k,
    {
        proof {
            assert(psv[k as int] == parts@[k as int]@);
            assert(psv.subrange(0, k + 1).drop_last() =~= psv.subrange(0, k as int));
            assert(psv.subrange(0, k + 1).last() == psv[k as int]);
        }
        if parts[k].len() == 0 {
            empties = empties + 1;
            if first == n {
                first = k;
            }
        }
        k = k + 1;
    }
    proof {
        assert(psv.subrange(0, n as int) =~= psv);
        lemma_first_empty(psv);
        if first < n {
            assert(first == first_empty(psv)) by {
                assert(psv[first as int].len() == 0);
            }
        } else {
            assert(first_empty(psv) == n);
        }
    }

    // validate the hexadecimal groups of a range
    if empties == 0 {
        if n != 8 {
            return false;
        }
        groups_valid_exec(&parts, 0, 8)
    } else {
        if n == 3 && parts[0].len() == 0 && parts[1].len() == 0 && parts[2].len()
            == 0 {
            return true;
        }
        if parts[0].len() == 0 {
            return n >= 3 && parts[1].len() == 0 && empties == 2 && n - 2 <= 7
                && groups_valid_exec(&parts, 2, n);
        }
        if parts[n - 1].len() == 0 {
            return n >= 3 && parts[n - 2].len() == 0 && empties == 2 && n - 2 <= 7
                && groups_valid_exec(&parts, 0, n - 2);
        }
        proof {
            lemma_count_empty_zero(psv);
        }
        empties == 1 && n - 1 <= 7 && groups_valid_exec(&parts, 0, first)
            && groups_valid_exec(&parts, first + 1, n)
    }
}

proof fn lemma_count_empty_zero(ps: Seq<Seq<char>>)
    ensures
        (count_empty(ps) == 0) <==> (forall|j: int|
            0 <= j < ps.len() ==> #[trigger] ps[j].len() != 0),
    decreases ps.len(),
{
    if ps.len() > 0 {
        lemma_count_empty_zero(ps.drop_last());
        assert(forall|j: int|
            0 <= j < ps.len() - 1 ==> ps.drop_last()[j] == #[trigger] ps[j]);
        lemma_count_empty_nonneg(ps.drop_last());
        if count_empty(ps) == 0 {
            assert(ps[ps.len() - 1].len() != 0);
        }
    }
}

proof fn lemma_count_empty_nonneg(ps: Seq<Seq<char>>)
    ensures
        count_empty(ps) >= 0,
    decreases ps.len(),
{
    if ps.len() > 0 {
        lemma_count_empty_nonneg(ps.drop_last());
    }
}

fn groups_valid_exec(parts: &Vec<Vec<char>>, from: usize, to: usize) -> (r: bool)
    requires
        from <= to <= parts@.len(),
    ensures
        r == groups_valid(
            parts@.map_values(|x: Vec<char>| x@),
            from as int,
            to as int,
        ),
{
    let ghost psv = parts@.map_values(|x: Vec<char>| x@);
    let mut i: usize = from;
    while i < to
        invariant
            from <= i <= to <= parts@.len(),
            psv == parts@.map_values(|x: Vec<char>| x@),
            forall|j: int| from <= j < i ==> valid_group(#[trigger] psv[j]),
        decreases to - i,
    {
        proof {
            assert(psv[i as int] == parts@[i as int]@);
        }
        if !valid_group_exec(&parts[i]) {
            return false;
        }
        i = i + 1;
    }
    true
}

/// Any address literal a hop column may hold.
pub open spec fn is_ip(t: Seq<char>) -> bool {
    is_ipv4(t) || is_ipv6(t)
}

/// Recognizes an address token, dotted-quad or IPv6.
pub fn is_ip_token(t: &Vec<char>) -> (r: bool)
    ensures
        r == is_ip(t@),
{
    is_ipv4_token(t) || is_ipv6_token(t)
}

} // verus!

verus! {

/// Hop numbers follow the output's line order: every hop of a built report
/// carries a number between one and `MAX_HOPS`, and later hops carry
/// strictly larger numbers.
pub proof fn lemma_hop_numbers_ordered(
    body: Seq<Seq<char>>,
    resolved: Option<Seq<char>>,
    k: int,
)
    requires
        0 <= k <= MAX_HOPS as int,
    ensures
        forall|i: int|
            0 <= i < hop_views_upto(body, resolved, k).len() ==> 1 <= (
            #[trigger] hop_views_upto(body, resolved, k)[i]).hop_number <= k,
        forall|i: int, j: int|
            0 <= i < j < hop_views_upto(body, resolved, k).len() ==> (
            #[trigger] hop_views_upto(body, resolved, k)[i]).hop_number < (
            #[trigger] hop_views_upto(body, resolved, k)[j]).hop_number,
    decreases k,
{
    if k > 0 {
        lemma_hop_numbers_ordered(body, resolved, k - 1);
        let prev = hop_views_upto(body, resolved, k - 1);
        match hop_view_of_line(body[k - 1], k as u8, resolved) {
            Option::Some(h) => {
                assert(hop_views_upto(body, resolved, k) == prev.push(h));
                assert(h.hop_number == k as u8);
                assert(forall|i: int|
                    0 <= i < prev.len() ==> prev.push(h)[i] == #[trigger] prev[i]);
            },
            Option::None => {},
        }
    }
}

} // verus!

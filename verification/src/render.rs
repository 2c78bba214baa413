//! Fixed-width text rendering of the traced route: the per-hop table rows
//! and the horizontal marker line of the route picture. Deterministic,
//! side-effect-free functions from hop data to text.

use vstd::prelude::*;
use crate::numfmt::{dec_digits, push_dec_u64, two_decimals};
use crate::stats::sum_of;
use crate::text::push_char;
use crate::trace::{avg_rtt_us, hop_status, hop_status_of, HopStatus, HopView, TraceHop};
use vstd::string::StringExecFns;

verus! {

pub open spec fn blanks(n: int) -> Seq<char>
    decreases n,
{
    if n <= 0 {
        Seq::empty()
    } else {
        blanks(n - 1).push(' ')
    }
}

/// `s` right-aligned in a field of `w` blanks; a longer `s` stands as it is.
pub open spec fn padded_left(s: Seq<char>, w: int) -> Seq<char> {
    if s.len() >= w {
        s
    } else {
        blanks(w - s.len()) + s
    }
}

/// `s` centred in a field of `w` blanks, the odd blank on the right.
pub open spec fn centered(s: Seq<char>, w: int) -> Seq<char> {
    if s.len() >= w {
        s
    } else {
        let left = (w - s.len()) / 2;
        blanks(left) + s + blanks(w - s.len() - left)
    }
}

fn push_blanks(out: &mut String, n: usize)
    ensures
        final(out)@ == old(out)@ + blanks(n as int),
    decreases n,
{
    if n > 0 {
        push_blanks(out, n - 1);
        push_char(out, ' ');
        proof {
            assert(old(out)@ + blanks(n as int) =~= (old(out)@ + blanks(
                n as int - 1,
            )).push(' '));
        }
    } else {
        proof {
            assert(old(out)@ + blanks(0) =~= old(out)@);
        }
    }
}

fn push_padded_left(out: &mut String, s: &str, w: usize)
    ensures
        final(out)@ == old(out)@ + padded_left(s@, w as int),
{
    let n = s.unicode_len();
    if n >= w {
        out.append(s);
    } else {
        push_blanks(out, w - n);
        out.append(s);
        proof {
            assert(old(out)@ + padded_left(s@, w as int) =~= (old(out)@ + blanks(
                w - s@.len(),
            )) + s@);
        }
    }
}

fn push_centered(out: &mut String, s: &str, w: usize)
    ensures
        final(out)@ == old(out)@ + centered(s@, w as int),
{
    let n = s.unicode_len();
    if n >= w {
        out.append(s);
    } else {
        let left = (w - n) / 2;
        push_blanks(out, left);
        out.append(s);
        push_blanks(out, w - n - left);
        proof {
            assert(old(out)@ + centered(s@, w as int) =~= ((old(out)@ + blanks(
                left as int,
            )) + s@) + blanks(w - s@.len() - left));
        }
    }
}

/// The status column's text for a hop.
pub open spec fn status_text(st: HopStatus) -> Seq<char> {
    match st {
        HopStatus::Target => "\u{25c9} TARGET"@,
        HopStatus::NoResponse => "\u{25cb} No response"@,
        HopStatus::Slow => "\u{25cf} Slow"@,
        HopStatus::Responding => "\u{25cf} OK"@,
    }
}

fn status_text_exec(st: HopStatus) -> (r: &'static str)
    ensures
        r@ == status_text(st),
{
    match st {
        HopStatus::Target => "\u{25c9} TARGET",
        HopStatus::NoResponse => "\u{25cb} No response",
        HopStatus::Slow => "\u{25cf} Slow",
        HopStatus::Responding => "\u{25cf} OK",
    }
}

/// The round-trip column's text: the mean sample in milliseconds with two
/// decimals, or `timeout` when no probe was answered.
pub open spec fn rtt_text(h: HopView) -> Seq<char> {
    if h.rtts.len() == 0 {
        "timeout"@
    } else {
        two_decimals((sum_of(h.rtts) / h.rtts.len() as int) as nat, 1000)
    }
}

/// One row of the route table: hop number right-aligned in three columns,
/// then the address (or `* * *`), the mean round-trip and the status, each
/// centred in its column.
pub open spec fn hop_row_text(h: HopView) -> Seq<char> {
    let num = padded_left(dec_digits(h.hop_number as nat), 3);
    let ip = match h.ip {
        Option::Some(ip) => ip,
        Option::None => "* * *"@,
    };
    "\u{2551}  "@ + num + " \u{2502} "@ + centered(ip, 18) + " \u{2502} "@
        + centered(rtt_text(h), 17) + " \u{2502} "@ + centered(
        status_text(hop_status_of(h)),
        24,
    ) + " \u{2551}"@
}

/// Renders one hop's table row.
pub fn hop_table_row(h: &TraceHop) -> (r: String)
    ensures
        r@ == hop_row_text(h@),
{
    let mut out = String::from_str("\u{2551}  ");
    let mut num = String::new();
    push_dec_u64(&mut num, h.hop_number as u64);
    proof {
        assert(Seq::<char>::empty() + dec_digits(h.hop_number as nat) =~= dec_digits(
            h.hop_number as nat,
        ));
    }
    push_padded_left(&mut out, num.as_str(), 3);
    out.append(" \u{2502} ");
    match &h.ip_address {
        Some(ip) => {
            push_centered(&mut out, ip.as_str(), 18);
        },
        None => {
            push_centered(&mut out, "* * *", 18);
        },
    }
    out.append(" \u{2502} ");
    match avg_rtt_us(h) {
        Some(avg) => {
            let rtt = crate::numfmt::format_ms_two_decimals(avg);
            push_centered(&mut out, rtt.as_str(), 17);
        },
        None => {
            push_centered(&mut out, "timeout", 17);
        },
    }
    out.append(" \u{2502} ");
    let st = hop_status(h);
    push_centered(&mut out, status_text_exec(st), 24);
    out.append(" \u{2551}");
    proof {
        assert(out@ =~= hop_row_text(h@));
    }
    out
}

pub open spec fn dashes(n: int) -> Seq<char>
    decreases n,
{
    if n <= 0 {
        Seq::empty()
    } else {
        dashes(n - 1).push('\u{2500}')
    }
}

/// The marker a hop gets in the route picture: the target, a responding
/// hop, or an unanswered one.
pub open spec fn marker_of(h: HopView) -> char {
    if h.is_target {
        '\u{25c9}'
    } else if h.ip is Some {
        '\u{25cf}'
    } else {
        '\u{25cb}'
    }
}

/// The markers of the first hops, joined by dashes: at most fifteen hops
/// are drawn, spread over a line seventy marks wide.
pub open spec fn markers_from(hs: Seq<HopView>, k: int, m: int, w: int) -> Seq<char>
    decreases m - k,
{
    if k >= m {
        Seq::empty()
    } else if k < m - 1 {
        seq![marker_of(hs[k])] + dashes(w - 1) + markers_from(hs, k + 1, m, w)
    } else {
        seq![marker_of(hs[k])]
    }
}

pub open spec fn drawn_hops(n: int) -> int {
    if n <= 15 {
        n
    } else {
        15
    }
}

pub open spec fn marker_spacing(n: int) -> int {
    if drawn_hops(n) <= 1 {
        70int
    } else {
        70int / drawn_hops(n)
    }
}

pub open spec fn route_markers_text(hs: Seq<HopView>) -> Seq<char> {
    markers_from(hs, 0, drawn_hops(hs.len() as int), marker_spacing(hs.len() as int))
}

fn push_dashes(out: &mut String, n: usize)
    ensures
        final(out)@ == old(out)@ + dashes(n as int),
    decreases n,
{
    if n > 0 {
        push_dashes(out, n - 1);
        push_char(out, '\u{2500}');
        proof {
            assert(old(out)@ + dashes(n as int) =~= (old(out)@ + dashes(
                n as int - 1,
            )).push('\u{2500}'));
        }
    } else {
        proof {
            assert(old(out)@ + dashes(0) =~= old(out)@);
        }
    }
}

/// Renders the marker line of the route picture.
pub fn route_markers(hops: &Vec<TraceHop>) -> (r: String)
    ensures
        r@ == route_markers_text(hops@.map_values(|h: TraceHop| h@)),
{
    let ghost hs = hops@.map_values(|h: TraceHop| h@);
    let m: usize = if hops.len() <= 15 {
        hops.len()
    } else {
        15
    };
    let w: usize = if m <= 1 {
        70
    } else {
        70 / m
    };
    let mut out = String::new();
    let mut k: usize = 0;
    proof {
        if m > 1 {
            vstd::arithmetic::div_mod::lemma_div_is_ordered(m as int, 70, m as int);
            vstd::arithmetic::div_mod::lemma_div_by_self(m as int);
        }
        assert(Seq::<char>::empty() + route_markers_text(hs) =~= route_markers_text(
            hs,
        ));
    }
    while k < m
        invariant
            k <= m,
            m == drawn_hops(hops@.len() as int),
            m <= hops@.len(),
            w == marker_spacing(hops@.len() as int),
            w >= 1,
            hs == hops@.map_values(|h: TraceHop| h@),
            route_markers_text(hs) == out@ + markers_from(hs, k as int, m as int, w as int),
        decreases m - k,
    {
        proof {
            assert(hs[k as int] == hops@[k as int]@);
        }
        let h = &hops[k];
        let mk: char = if h.is_target {
            '\u{25c9}'
        } else {
            let has_ip = match &h.ip_address {
                Some(_) => true,
                None => false,
            };
            if has_ip {
                '\u{25cf}'
            } else {
                '\u{25cb}'
            }
        };
        let ghost out0 = out@;
        push_char(&mut out, mk);
        if k < m - 1 {
            push_dashes(&mut out, w - 1);
            proof {
                assert(out@ =~= out0 + (seq![marker_of(hs[k as int])] + dashes(
                    w as int - 1,
                )));
                assert(out0 + markers_from(hs, k as int, m as int, w as int)
                    =~= out@ + markers_from(hs, k as int + 1, m as int, w as int));
            }
        } else {
            proof {
                assert(out@ =~= out0 + seq![marker_of(hs[k as int])]);
                assert(markers_from(hs, k as int, m as int, w as int)
                    =~= seq![marker_of(hs[k as int])]);
                assert(out0 + markers_from(hs, k as int, m as int, w as int)
                    =~= out@ + markers_from(hs, k as int + 1, m as int, w as int));
            }
        }
        k = k + 1;
    }
    proof {
        assert(out@ + Seq::<char>::empty() =~= out@);
    }
    out
}

} // verus!

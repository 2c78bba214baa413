//! Human-readable rendering of byte counts and latencies.
//!
//! Byte counts switch to KB, MB and GB at exactly 1 000, 1 000 000 and
//! 1 000 000 000 bytes; latencies switch from microseconds to milliseconds
//! and seconds at exactly 1 000 and 1 000 000 microseconds. Scaled values
//! are shown with two decimals, rounded half-up on exact integer
//! arithmetic.

use vstd::prelude::*;
use crate::text::push_char;
use vstd::string::StringExecFns;

verus! {

pub open spec fn digit_char(d: nat) -> char {
    if d == 0 {
        '0'
    } else if d == 1 {
        '1'
    } else if d == 2 {
        '2'
    } else if d == 3 {
        '3'
    } else if d == 4 {
        '4'
    } else if d == 5 {
        '5'
    } else if d == 6 {
        '6'
    } else if d == 7 {
        '7'
    } else if d == 8 {
        '8'
    } else {
        '9'
    }
}

/// The decimal digits of `n`, most significant first, no leading zeros
/// (a single `'0'` for zero).
pub open spec fn dec_digits(n: nat) -> Seq<char>
    decreases n,
{
    if n < 10 {
        seq![digit_char(n)]
    } else {
        dec_digits(n / 10).push(digit_char(n % 10))
    }
}

fn digit_char_exec(d: u64) -> (r: char)
    requires
        d < 10,
    ensures
        r == digit_char(d as nat),
{
    if d == 0 {
        '0'
    } else if d == 1 {
        '1'
    } else if d == 2 {
        '2'
    } else if d == 3 {
        '3'
    } else if d == 4 {
        '4'
    } else if d == 5 {
        '5'
    } else if d == 6 {
        '6'
    } else if d == 7 {
        '7'
    } else if d == 8 {
        '8'
    } else {
        '9'
    }
}

/// Appends the decimal digits of `n` to `out`.
pub fn push_dec_u64(out: &mut String, n: u64)
    ensures
        final(out)@ == old(out)@ + dec_digits(n as nat),
    decreases n,
{
    if n < 10 {
        push_char(out, digit_char_exec(n));
        proof {
            assert(old(out)@ + dec_digits(n as nat) =~= old(out)@.push(
                digit_char(n as nat),
            ));
        }
    } else {
        proof {
            assert(n as nat / 10 < n as nat) by (nonlinear_arith)
                requires n >= 10;
        }
        push_dec_u64(out, n / 10);
        push_char(out, digit_char_exec(n % 10));
        proof {
            assert(old(out)@ + dec_digits(n as nat) =~= (old(out)@ + dec_digits(
                n as nat / 10,
            )).push(digit_char(n as nat % 10)));
        }
    }
}

/// The decimal rendering of `n`.
pub fn u64_to_string(n: u64) -> (r: String)
    ensures
        r@ == dec_digits(n as nat),
{
    let mut out = String::new();
    push_dec_u64(&mut out, n);
    proof {
        assert(Seq::<char>::empty() + dec_digits(n as nat) =~= dec_digits(n as nat));
    }
    out
}

/// `v / d` in hundredths, rounded half-up.
pub open spec fn scaled_hundredths(v: nat, d: nat) -> nat {
    (v * 100 + d / 2) / d
}

/// The two-decimal rendering "W.FF" of `v / d`.
pub open spec fn two_decimals(v: nat, d: nat) -> Seq<char> {
    let h = scaled_hundredths(v, d);
    dec_digits(h / 100) + seq!['.', digit_char(h % 100 / 10), digit_char(h % 10)]
}

/// Appends the two-decimal rendering of `v / d` to `out`.
fn push_two_decimals(out: &mut String, v: u64, d: u64)
    requires
        1000 <= d,
    ensures
        final(out)@ == old(out)@ + two_decimals(v as nat, d as nat),
{
    let h128: u128 = ((v as u128) * 100 + (d as u128) / 2) / (d as u128);
    proof {
        assert(h128 == scaled_hundredths(v as nat, d as nat));
        assert((v as nat) * 100 + (d as nat) / 2 < (d as nat) * (u64::MAX as nat))
            by (nonlinear_arith)
            requires 1000 <= d <= u64::MAX, v <= u64::MAX;
        assert(((v as nat) * 100 + (d as nat) / 2) / (d as nat) < u64::MAX as nat)
            by (nonlinear_arith)
            requires
                1000 <= d,
                (v as nat) * 100 + (d as nat) / 2 < (d as nat) * (u64::MAX as nat);
    }
    let h: u64 = h128 as u64;
    push_dec_u64(out, h / 100);
    push_char(out, '.');
    push_char(out, digit_char_exec(h % 100 / 10));
    push_char(out, digit_char_exec(h % 10));
    proof {
        assert(h as nat % 100 / 10 == h as nat % 100 / 10);
        assert(h % 100 / 10 < 10);
        assert(h as nat % 100 / 10 == (h % 100 / 10) as nat);
        assert(old(out)@ + two_decimals(v as nat, d as nat) =~= ((old(out)@
            + dec_digits((h / 100) as nat)).push('.').push(
            digit_char((h % 100 / 10) as nat),
        )).push(digit_char((h % 10) as nat)));
    }
}

/// The rendering chosen by `format_bytes`.
pub open spec fn bytes_text(b: nat) -> Seq<char> {
    if b >= 1000000000 {
        two_decimals(b, 1000000000) + " GB"@
    } else if b >= 1000000 {
        two_decimals(b, 1000000) + " MB"@
    } else if b >= 1000 {
        two_decimals(b, 1000) + " KB"@
    } else {
        dec_digits(b) + " B"@
    }
}

/// Human-readable byte count: plain bytes below 1 000, otherwise KB, MB or
/// GB with two decimals.
pub fn format_bytes(bytes: u64) -> (r: String)
    ensures
        r@ == bytes_text(bytes as nat),
{
    let mut out = String::new();
    if bytes >= 1_000_000_000 {
        push_two_decimals(&mut out, bytes, 1_000_000_000);
        out.append(" GB");
    } else if bytes >= 1_000_000 {
        push_two_decimals(&mut out, bytes, 1_000_000);
        out.append(" MB");
    } else if bytes >= 1_000 {
        push_two_decimals(&mut out, bytes, 1_000);
        out.append(" KB");
    } else {
        push_dec_u64(&mut out, bytes);
        out.append(" B");
    }
    proof {
        assert(out@ =~= bytes_text(bytes as nat));
    }
    out
}

/// The rendering chosen by `format_latency`.
pub open spec fn latency_text(us: nat) -> Seq<char> {
    if us >= 1000000 {
        two_decimals(us, 1000000) + "s"@
    } else if us >= 1000 {
        two_decimals(us, 1000) + "ms"@
    } else {
        dec_digits(us) + "\u{3bc}s"@
    }
}

/// Human-readable latency: microseconds below 1 000, otherwise
/// milliseconds or seconds with two decimals.
pub fn format_latency(us: u64) -> (r: String)
    ensures
        r@ == latency_text(us as nat),
{
    let mut out = String::new();
    if us >= 1_000_000 {
        push_two_decimals(&mut out, us, 1_000_000);
        out.append("s");
    } else if us >= 1_000 {
        push_two_decimals(&mut out, us, 1_000);
        out.append("ms");
    } else {
        push_dec_u64(&mut out, us);
        out.append("\u{3bc}s");
    }
    proof {
        assert(out@ =~= latency_text(us as nat));
    }
    out
}

/// Milliseconds with two decimals from a microsecond count, as used in the
/// per-hop round-trip table.
pub fn format_ms_two_decimals(us: u64) -> (r: String)
    ensures
        r@ == two_decimals(us as nat, 1000),
{
    let mut out = String::new();
    push_two_decimals(&mut out, us, 1_000);
    proof {
        assert(out@ =~= two_decimals(us as nat, 1000));
    }
    out
}

} // verus!

//! HTTP text handling for the load generator and the diagnostics client:
//! building the raw GET request, classifying a response's status line, and
//! extracting its status code.

use vstd::prelude::*;
use crate::text::{
    all_digits, chars_of, dec_val, parse_dec_capped, starts_with,
    str_starts_with, tokens_of,
};
use vstd::string::StringExecFns;

verus! {

/// A benchmark request succeeds only when the response begins with a
/// literal `HTTP/1.1 200` or `HTTP/1.0 200` status line; every other
/// status, other `2xx` codes included, counts as a failure.
pub open spec fn is_success_status(s: Seq<char>) -> bool {
    starts_with(s, "HTTP/1.1 200"@) || starts_with(s, "HTTP/1.0 200"@)
}

/// Classifies a response's text: success exactly when it opens with
/// `HTTP/1.1 200` or `HTTP/1.0 200`.
pub fn is_success_response(response: &str) -> (r: bool)
    ensures
        r == is_success_status(response@),
{
    str_starts_with(response, "HTTP/1.1 200") || str_starts_with(
        response,
        "HTTP/1.0 200",
    )
}

/// Length of the first line: the characters before the first `'\r'` or
/// `'\n'`, or all of `s` if it has no line break.
pub open spec fn line_break(c: char) -> bool {
    c == '\r' || c == '\n'
}

pub open spec fn first_line_len(s: Seq<char>) -> int
    decreases s.len(),
{
    if s.len() == 0 || line_break(s[0]) {
        0
    } else {
        1 + first_line_len(s.drop_first())
    }
}

pub proof fn lemma_first_line_len(s: Seq<char>)
    ensures
        0 <= first_line_len(s) <= s.len(),
        forall|j: int| 0 <= j < first_line_len(s) ==> !line_break(#[trigger] s[j]),
        first_line_len(s) < s.len() ==> line_break(s[first_line_len(s)]),
    decreases s.len(),
{
    if s.len() > 0 && !line_break(s[0]) {
        lemma_first_line_len(s.drop_first());
        assert forall|j: int| 0 <= j < first_line_len(s) implies !line_break(
            #[trigger] s[j],
        ) by {
            if j > 0 {
                assert(s[j] == s.drop_first()[j - 1]);
            }
        }
        if first_line_len(s) < s.len() {
            assert(s[first_line_len(s)] == s.drop_first()[first_line_len(s) - 1]);
        }
    }
}

/// The status code of a response: the second blank-separated token of the
/// first line, read as a decimal number, or `0` when that token is missing,
/// not all digits, or too large for a `u16`.
pub open spec fn status_code_of(s: Seq<char>) -> u16 {
    let line = s.subrange(0, first_line_len(s));
    let ts = tokens_of(line);
    if ts.len() >= 2 && ts[1].len() > 0 && all_digits(ts[1]) && dec_val(ts[1])
        <= u16::MAX {
        dec_val(ts[1]) as u16
    } else {
        0
    }
}

/// The status code named in a response's first line, or `0` when none can
/// be read.
pub fn parse_status_code(response: &str) -> (r: u16)
    ensures
        r == status_code_of(response@),
{
    let cs = chars_of(response);
    let mut n: usize = 0;
    while n < cs.len() && !(cs[n] == '\r' || cs[n] == '\n')
        invariant
            n <= cs@.len(),
            forall|j: int| 0 <= j < n ==> !line_break(#[trigger] cs@[j]),
        decreases cs@.len() - n,
    {
        n = n + 1;
    }
    proof {
        lemma_first_line_len(cs@);
        if n < cs@.len() {
            assert(line_break(cs@[n as int]));
        }
        assert(n == first_line_len(cs@));
    }
    let mut line: Vec<char> = Vec::new();
    let mut i: usize = 0;
    while i < n
        invariant
            i <= n <= cs@.len(),
            line@ == cs@.subrange(0, i as int),
        decreases n - i,
    {
        line.push(cs[i]);
        i = i + 1;
        proof {
            assert(line@ =~= cs@.subrange(0, i as int));
        }
    }
    let ts = crate::text::split_tokens(&line);
    proof {
        assert(ts@.map_values(|t: Vec<char>| t@) == tokens_of(
            cs@.subrange(0, first_line_len(cs@)),
        ));
    }
    if ts.len() < 2 {
        return 0;
    }
    proof {
        assert(ts@.map_values(|t: Vec<char>| t@)[1] == ts@[1]@);
    }
    match parse_dec_capped(&ts[1], 65535) {
        Some(v) => v as u16,
        None => 0,
    }
}

/// The raw request sent by the load generator: a minimal GET with a `Host`
/// header and `Connection: close`.
pub fn build_get_request(host: &str, path: &str) -> (r: String)
    ensures
        r@ == "GET "@ + path@ + " HTTP/1.1\r\nHost: "@ + host@
            + "\r\nConnection: close\r\n\r\n"@,
{
    let mut out = String::from_str("GET ");
    out.append(path);
    out.append(" HTTP/1.1\r\nHost: ");
    out.append(host);
    out.append("\r\nConnection: close\r\n\r\n");
    out
}

/// The raw request sent by the diagnostics client, which also names its
/// user agent.
pub fn build_probe_request(host: &str, path: &str) -> (r: String)
    ensures
        r@ == "GET "@ + path@ + " HTTP/1.1\r\nHost: "@ + host@
            + "\r\nConnection: close\r\nUser-Agent: SCC-PerfClient/1.0\r\n\r\n"@,
{
    let mut out = String::from_str("GET ");
    out.append(path);
    out.append(" HTTP/1.1\r\nHost: ");
    out.append(host);
    out.append("\r\nConnection: close\r\nUser-Agent: SCC-PerfClient/1.0\r\n\r\n");
    out
}

} // verus!

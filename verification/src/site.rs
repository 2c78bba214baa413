//! The site's record helpers: escaping of CSV fields, the flat CSV line
//! format of the contact store, HTML escaping, asset cache headers, the
//! not-found page, and short record identifiers.

use vstd::prelude::*;
use crate::text::{ends_with, push_char, str_ends_with};
use vstd::string::StrSliceExecFns;
use vstd::string::StringExecFns;

verus! {

/// One character's escape in a stored CSV field: a comma gains a
/// backslash, a newline becomes a blank, a carriage return is dropped.
pub open spec fn csv_escape_char(c: char) -> Seq<char> {
    if c == ',' {
        seq!['\\', ',']
    } else if c == '\n' {
        seq![' ']
    } else if c == '\r' {
        Seq::empty()
    } else {
        seq![c]
    }
}

/// A field as it is stored in a CSV line.
pub open spec fn csv_escaped(s: Seq<char>) -> Seq<char>
    decreases s.len(),
{
    if s.len() == 0 {
        Seq::empty()
    } else {
        csv_escaped(s.drop_last()) + csv_escape_char(s.last())
    }
}

/// Escapes a field for storage in a CSV line: commas are backslashed,
/// newlines become blanks, carriage returns are dropped.
pub fn escape_csv_field(field: &str) -> (r: String)
    ensures
        r@ == csv_escaped(field@),
{
    let cs = crate::text::chars_of(field);
    let mut out = String::new();
    let mut i: usize = 0;
    proof {
        assert(csv_escaped(cs@.subrange(0, 0)) =~= Seq::<char>::empty());
    }
    while i < cs.len()
        invariant
            i <= cs@.len(),
            cs@ == field@,
            out@ == csv_escaped(cs@.subrange(0, i as int)),
        decreases cs@.len() - i,
    {
        let c = cs[i];
        if c == ',' {
            push_char(&mut out, '\\');
            push_char(&mut out, ',');
        } else if c == '\n' {
            push_char(&mut out, ' ');
        } else if c == '\r' {
        } else {
            push_char(&mut out, c);
        }
        i = i + 1;
        proof {
            assert(cs@.subrange(0, i as int).drop_last() =~= cs@.subrange(
                0,
                i - 1,
            ));
            assert(out@ =~= csv_escaped(cs@.subrange(0, i - 1)) + csv_escape_char(
                cs@[i - 1],
            ));
        }
    }
    proof {
        assert(cs@.subrange(0, cs@.len() as int) =~= cs@);
    }
    out
}

/// A stored field read back: each backslash-comma pair yields a comma.
pub open spec fn csv_unescaped(s: Seq<char>) -> Seq<char>
    decreases s.len(),
{
    if s.len() == 0 {
        Seq::empty()
    } else if s.len() >= 2 && s[0] == '\\' && s[1] == ',' {
        seq![','] + csv_unescaped(s.skip(2))
    } else {
        seq![s[0]] + csv_unescaped(s.skip(1))
    }
}

/// Undoes `escape_csv_field`'s comma escaping: every backslash-comma pair
/// becomes a comma again.
pub fn unescape_csv_field(field: &str) -> (r: String)
    ensures
        r@ == csv_unescaped(field@),
{
    let cs = crate::text::chars_of(field);
    let mut out = String::new();
    let mut i: usize = 0;
    proof {
        assert(cs@.skip(0) =~= cs@);
        assert(out@ + csv_unescaped(cs@) =~= csv_unescaped(cs@));
    }
    while i < cs.len()
        invariant
            i <= cs@.len(),
            cs@ == field@,
            csv_unescaped(cs@) == out@ + csv_unescaped(cs@.skip(i as int)),
        decreases cs@.len() - i,
    {
        let ghost pre = cs@.skip(i as int);
        if cs[i] == '\\' && i + 1 < cs.len() && cs[i + 1] == ',' {
            push_char(&mut out, ',');
            i = i + 2;
            proof {
                assert(pre[0] == '\\' && pre[1] == ',');
                assert(pre.skip(2) =~= cs@.skip(i as int));
                assert(out@ + csv_unescaped(cs@.skip(i as int)) =~= (out@
                    .drop_last() + (seq![','] + csv_unescaped(pre.skip(2)))));
            }
        } else {
            let c = cs[i];
            push_char(&mut out, c);
            i = i + 1;
            proof {
                assert(pre[0] == c);
                assert(pre.skip(1) =~= cs@.skip(i as int));
                assert(out@ + csv_unescaped(cs@.skip(i as int)) =~= (out@
                    .drop_last() + (seq![c] + csv_unescaped(pre.skip(1)))));
            }
        }
    }
    proof {
        assert(cs@.skip(cs@.len() as int) =~= Seq::<char>::empty());
        assert(out@ + Seq::<char>::empty() =~= out@);
    }
    out
}

/// The fields of one stored CSV line: commas separate fields, and a
/// backslash-comma pair stands for a comma inside a field. A lone
/// backslash stays as it is.
pub open spec fn csv_fields(s: Seq<char>) -> Seq<Seq<char>>
    decreases s.len(),
{
    if s.len() == 0 {
        seq![Seq::empty()]
    } else if s.len() >= 2 && s[0] == '\\' && s[1] == ',' {
        prepend_first(seq![','], csv_fields(s.skip(2)))
    } else if s[0] == ',' {
        seq![Seq::empty()] + csv_fields(s.skip(1))
    } else {
        prepend_first(seq![s[0]], csv_fields(s.skip(1)))
    }
}

/// `p` glued onto the first piece of `fs`.
pub open spec fn prepend_first(p: Seq<char>, fs: Seq<Seq<char>>) -> Seq<Seq<char>> {
    seq![p + fs[0]] + fs.drop_first()
}

pub proof fn lemma_csv_fields_len(s: Seq<char>)
    ensures
        csv_fields(s).len() >= 1,
    decreases s.len(),
{
    if s.len() == 0 {
    } else if s.len() >= 2 && s[0] == '\\' && s[1] == ',' {
        lemma_csv_fields_len(s.skip(2));
    } else if s[0] == ',' {
        lemma_csv_fields_len(s.skip(1));
    } else {
        lemma_csv_fields_len(s.skip(1));
    }
}

/// Splits one stored CSV line into its fields, undoing the comma escaping.
pub fn parse_csv_line(line: &str) -> (r: Vec<String>)
    ensures
        r@.map_values(|f: String| f@) == csv_fields(line@),
{
    broadcast use Seq::lemma_push_map_commute;

    let cs = crate::text::chars_of(line);
    let mut fields: Vec<String> = Vec::new();
    let mut current = String::new();
    let mut i: usize = 0;
    proof {
        assert(cs@.skip(0) =~= cs@);
        lemma_csv_fields_len(cs@);
        assert(fields@.map_values(|f: String| f@) =~= Seq::<Seq<char>>::empty());
        assert(Seq::<Seq<char>>::empty() + prepend_first(
            current@,
            csv_fields(cs@),
        ) =~= prepend_first(current@, csv_fields(cs@)));
        assert(current@ + csv_fields(cs@)[0] =~= csv_fields(cs@)[0]);
        assert(prepend_first(current@, csv_fields(cs@)) =~= csv_fields(cs@));
    }
    while i < cs.len()
        invariant
            i <= cs@.len(),
            cs@ == line@,
            csv_fields(cs@) == fields@.map_values(|f: String| f@) + prepend_first(
                current@,
                csv_fields(cs@.skip(i as int)),
            ),
        decreases cs@.len() - i,
    {
        let ghost pre = cs@.skip(i as int);
        proof {
            lemma_csv_fields_len(pre);
        }
        if cs[i] == '\\' && i + 1 < cs.len() && cs[i + 1] == ',' {
            let ghost oc = current@;
            push_char(&mut current, ',');
            i = i + 2;
            proof {
                lemma_csv_fields_len(cs@.skip(i as int));
                assert(pre.skip(2) =~= cs@.skip(i as int));
                assert(csv_fields(pre) == prepend_first(
                    seq![','],
                    csv_fields(cs@.skip(i as int)),
                ));
                assert(prepend_first(oc, csv_fields(pre)) =~~= prepend_first(
                    current@,
                    csv_fields(cs@.skip(i as int)),
                ));
            }
        } else if cs[i] == ',' {
            let ghost old_fields = fields@;
            let ghost old_current = current@;
            fields.push(current);
            current = String::new();
            i = i + 1;
            proof {
                lemma_csv_fields_len(cs@.skip(i as int));
                assert(pre.skip(1) =~= cs@.skip(i as int));
                assert(csv_fields(pre) == seq![Seq::<char>::empty()] + csv_fields(
                    cs@.skip(i as int),
                ));
                assert(fields@.map_values(|f: String| f@) =~= old_fields
                    .map_values(|f: String| f@).push(old_current));
                assert(prepend_first(old_current, csv_fields(pre))[0]
                    =~= old_current);
                assert(prepend_first(old_current, csv_fields(pre)) =~= seq![
                    old_current,
                ] + prepend_first(current@, csv_fields(cs@.skip(i as int))));
                assert(old_fields.map_values(|f: String| f@).push(old_current)
                    + prepend_first(current@, csv_fields(cs@.skip(i as int)))
                    =~= old_fields.map_values(|f: String| f@) + (seq![old_current]
                    + prepend_first(current@, csv_fields(cs@.skip(i as int)))));
            }
        } else {
            let c = cs[i];
            let ghost oc = current@;
            push_char(&mut current, c);
            i = i + 1;
            proof {
                lemma_csv_fields_len(cs@.skip(i as int));
                assert(pre.skip(1) =~= cs@.skip(i as int));
                assert(csv_fields(pre) == prepend_first(
                    seq![c],
                    csv_fields(cs@.skip(i as int)),
                ));
                assert(prepend_first(oc, csv_fields(pre)) =~~= prepend_first(
                    current@,
                    csv_fields(cs@.skip(i as int)),
                ));
            }
        }
    }
    proof {
        assert(cs@.skip(cs@.len() as int) =~= Seq::<char>::empty());
    }
    let ghost old_fields = fields@;
    let ghost old_current = current@;
    fields.push(current);
    proof {
        assert(csv_fields(Seq::<char>::empty()) =~= seq![Seq::<char>::empty()]);
        assert(prepend_first(
            old_current,
            seq![Seq::<char>::empty()],
        ) =~= seq![old_current]);
        assert(fields@.map_values(|f: String| f@) =~= old_fields.map_values(
            |f: String| f@,
        ).push(old_current));
        assert(old_fields.map_values(|f: String| f@).push(old_current)
            =~= old_fields.map_values(|f: String| f@) + seq![old_current]);
    }
    fields
}

/// One character's HTML escape.
pub open spec fn html_escape_char(c: char) -> Seq<char> {
    if c == '&' {
        seq!['&', 'a', 'm', 'p', ';']
    } else if c == '<' {
        seq!['&', 'l', 't', ';']
    } else if c == '>' {
        seq!['&', 'g', 't', ';']
    } else if c == '"' {
        seq!['&', 'q', 'u', 'o', 't', ';']
    } else if c == '\'' {
        seq!['&', '#', '3', '9', ';']
    } else {
        seq![c]
    }
}

pub open spec fn html_escaped(s: Seq<char>) -> Seq<char>
    decreases s.len(),
{
    if s.len() == 0 {
        Seq::empty()
    } else {
        html_escaped(s.drop_last()) + html_escape_char(s.last())
    }
}

/// Escapes text for HTML: ampersands, angle brackets and both quotes
/// become entities.
pub fn html_escape(s: &str) -> (r: String)
    ensures
        r@ == html_escaped(s@),
{
    let cs = crate::text::chars_of(s);
    let mut out = String::new();
    let mut i: usize = 0;
    proof {
        assert(html_escaped(cs@.subrange(0, 0)) =~= Seq::<char>::empty());
    }
    while i < cs.len()
        invariant
            i <= cs@.len(),
            cs@ == s@,
            out@ == html_escaped(cs@.subrange(0, i as int)),
        decreases cs@.len() - i,
    {
        let c = cs[i];
        if c == '&' {
            out.append("&amp;");
            proof {
                reveal_strlit("&amp;");
            }
        } else if c == '<' {
            out.append("&lt;");
            proof {
                reveal_strlit("&lt;");
            }
        } else if c == '>' {
            out.append("&gt;");
            proof {
                reveal_strlit("&gt;");
            }
        } else if c == '"' {
            out.append("&quot;");
            proof {
                reveal_strlit("&quot;");
            }
        } else if c == '\'' {
            out.append("&#39;");
            proof {
                reveal_strlit("&#39;");
            }
        } else {
            push_char(&mut out, c);
        }
        i = i + 1;
        proof {
            assert(cs@.subrange(0, i as int).drop_last() =~= cs@.subrange(
                0,
                i - 1,
            ));
            assert(out@ =~= html_escaped(cs@.subrange(0, i - 1))
                + html_escape_char(cs@[i - 1]));
        }
    }
    proof {
        assert(cs@.subrange(0, cs@.len() as int) =~= cs@);
    }
    out
}

/// The cache header an asset path earns: images and minified assets are
/// immutable for a year, plain styles and scripts a week, pages an hour,
/// everything else a day.
pub open spec fn cache_header_of(p: Seq<char>) -> Seq<char> {
    if ends_with(p, ".webp"@) || ends_with(p, ".png"@) || ends_with(p, ".ico"@)
        || ends_with(p, ".jpg"@) {
        "public, max-age=31536000, immutable"@
    } else if ends_with(p, ".min.css"@) || ends_with(p, ".min.js"@) {
        "public, max-age=31536000, immutable"@
    } else if ends_with(p, ".css"@) || ends_with(p, ".js"@) {
        "public, max-age=604800"@
    } else if ends_with(p, ".html"@) {
        "public, max-age=3600"@
    } else {
        "public, max-age=86400"@
    }
}

/// Picks the cache header for a served asset path.
pub fn get_cache_header(path: &str) -> (r: &'static str)
    ensures
        r@ == cache_header_of(path@),
{
    if str_ends_with(path, ".webp") || str_ends_with(path, ".png")
        || str_ends_with(path, ".ico") || str_ends_with(path, ".jpg") {
        "public, max-age=31536000, immutable"
    } else if str_ends_with(path, ".min.css") || str_ends_with(path, ".min.js") {
        "public, max-age=31536000, immutable"
    } else if str_ends_with(path, ".css") || str_ends_with(path, ".js") {
        "public, max-age=604800"
    } else if str_ends_with(path, ".html") {
        "public, max-age=3600"
    } else {
        "public, max-age=86400"
    }
}

/// The page shown when a stored submission cannot be found.
pub open spec fn not_found_page() -> Seq<char> {
    "<!DOCTYPE html>\n<html lang=\"en\">\n<head>\n    <meta charset=\"UTF-8\">\n    <meta name=\"viewport\" content=\"width=device-width, initial-scale=1.0\">\n    <title>Not Found - South City Computer</title>\n    <style>\n        * { margin: 0; padding: 0; box-sizing: border-box; }\n        body {\n            font-family: -apple-system, BlinkMacSystemFont, 'Segoe UI', Roboto, sans-serif;\n            background: #1a1a1a;\n            color: #fff;\n            min-height: 100vh;\n            display: flex;\n            align-items: center;\n            justify-content: center;\n            text-align: center;\n            padding: 20px;\n        }\n        h1 {\n            font-size: 4rem;\n            background: linear-gradient(135deg, #e91e8c, #00bcd4);\n            -webkit-background-clip: text;\n            -webkit-text-fill-color: transparent;\n            background-clip: text;\n            margin-bottom: 16px;\n        }\n        p {\n            color: #888;\n            margin-bottom: 24px;\n        }\n        a {\n            color: #00bcd4;\n            text-decoration: none;\n        }\n        a:hover {\n            text-decoration: underline;\n        }\n    </style>\n</head>\n<body>\n    <div>\n        <h1>404</h1>\n        <p>Submission not found or link has expired.</p>\n        <a href=\"/\">Back to South City Computer</a>\n    </div>\n</body>\n</html>"@
}

/// The not-found page, as served.
pub fn generate_not_found_html() -> (r: String)
    ensures
        r@ == not_found_page(),
{
    String::from_str(
        "<!DOCTYPE html>\n<html lang=\"en\">\n<head>\n    <meta charset=\"UTF-8\">\n    <meta name=\"viewport\" content=\"width=device-width, initial-scale=1.0\">\n    <title>Not Found - South City Computer</title>\n    <style>\n        * { margin: 0; padding: 0; box-sizing: border-box; }\n        body {\n            font-family: -apple-system, BlinkMacSystemFont, 'Segoe UI', Roboto, sans-serif;\n            background: #1a1a1a;\n            color: #fff;\n            min-height: 100vh;\n            display: flex;\n            align-items: center;\n            justify-content: center;\n            text-align: center;\n            padding: 20px;\n        }\n        h1 {\n            font-size: 4rem;\n            background: linear-gradient(135deg, #e91e8c, #00bcd4);\n            -webkit-background-clip: text;\n            -webkit-text-fill-color: transparent;\n            background-clip: text;\n            margin-bottom: 16px;\n        }\n        p {\n            color: #888;\n            margin-bottom: 24px;\n        }\n        a {\n            color: #00bcd4;\n            text-decoration: none;\n        }\n        a:hover {\n            text-decoration: underline;\n        }\n    </style>\n</head>\n<body>\n    <div>\n        <h1>404</h1>\n        <p>Submission not found or link has expired.</p>\n        <a href=\"/\">Back to South City Computer</a>\n    </div>\n</body>\n</html>",
    )
}

/// A lowercase hexadecimal digit.
pub open spec fn is_lower_hex(c: char) -> bool {
    ('0' <= c && c <= '9') || ('a' <= c && c <= 'f')
}

/// Relies on uuid::Uuid::new_v4 and uuid::fmt::Simple: a fresh random
/// identifier rendered as exactly 32 lowercase hexadecimal digits.
#[verifier::external_body]
fn fresh_uuid_simple_hex() -> (r: String)
    ensures
        r@.len() == 32,
        forall|i: int| 0 <= i < 32 ==> is_lower_hex(#[trigger] r@[i]),
{
    uuid::Uuid::new_v4().simple().to_string()
}

/// A fresh short record identifier: the first eight hexadecimal digits of
/// a random identifier.
pub fn generate_short_id() -> (r: String)
    ensures
        r@.len() == 8,
        forall|i: int| 0 <= i < 8 ==> is_lower_hex(#[trigger] r@[i]),
{
    let hex = fresh_uuid_simple_hex();
    let cut = hex.as_str().substring_char(0, 8);
    let r = String::from_str(cut);
    proof {
        assert forall|i: int| 0 <= i < 8 implies is_lower_hex(#[trigger] r@[i]) by {
            assert(r@[i] == hex@[i]);
        }
    }
    r
}

} // verus!

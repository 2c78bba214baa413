use contact_handler::site::{
    escape_csv_field, generate_not_found_html, generate_short_id, get_cache_header,
    html_escape, parse_csv_line, unescape_csv_field,
};
use contact_handler::whitepaper::generate_whitepaper_pdf;

#[test]
fn csv_fields_are_escaped_for_storage() {
    assert_eq!(escape_csv_field("plain"), "plain");
    assert_eq!(escape_csv_field("a,b"), "a\\,b");
    assert_eq!(escape_csv_field("line\nbreak"), "line break");
    assert_eq!(escape_csv_field("cr\rgone"), "crgone");
    assert_eq!(escape_csv_field("x,\r\ny"), "x\\, y");
    assert_eq!(escape_csv_field(""), "");
}

#[test]
fn csv_unescaping_restores_commas() {
    assert_eq!(unescape_csv_field("a\\,b"), "a,b");
    assert_eq!(unescape_csv_field("plain"), "plain");
    assert_eq!(unescape_csv_field("\\,\\,"), ",,");
    assert_eq!(unescape_csv_field("tail\\"), "tail\\");
}

#[test]
fn escaping_then_unescaping_is_identity_without_line_breaks() {
    for s in ["", "plain", "a,b", "a,,b,", "\\", "\\x,y"] {
        assert_eq!(unescape_csv_field(&escape_csv_field(s)), s);
    }
}

#[test]
fn csv_lines_split_on_unescaped_commas() {
    assert_eq!(parse_csv_line("a,b,c"), vec!["a", "b", "c"]);
    assert_eq!(parse_csv_line("id,ts,a\\,b,x"), vec!["id", "ts", "a,b", "x"]);
    assert_eq!(parse_csv_line(""), vec![""]);
    assert_eq!(parse_csv_line(",,"), vec!["", "", ""]);
    assert_eq!(parse_csv_line("a\\b,c"), vec!["a\\b", "c"]);
    assert_eq!(parse_csv_line("trail,"), vec!["trail", ""]);
}

#[test]
fn html_is_escaped_entity_by_entity() {
    assert_eq!(
        html_escape("<a href=\"x\">&'"),
        "&lt;a href=&quot;x&quot;&gt;&amp;&#39;"
    );
    assert_eq!(html_escape("plain text"), "plain text");
    assert_eq!(html_escape("&amp;"), "&amp;amp;");
}

#[test]
fn cache_headers_by_asset_kind() {
    assert_eq!(get_cache_header("images/logo.webp"), "public, max-age=31536000, immutable");
    assert_eq!(get_cache_header("favicon.ico"), "public, max-age=31536000, immutable");
    assert_eq!(get_cache_header("css/style.min.css"), "public, max-age=31536000, immutable");
    assert_eq!(get_cache_header("js/main.min.js"), "public, max-age=31536000, immutable");
    assert_eq!(get_cache_header("css/style.css"), "public, max-age=604800");
    assert_eq!(get_cache_header("js/main.js"), "public, max-age=604800");
    assert_eq!(get_cache_header("index.html"), "public, max-age=3600");
    assert_eq!(get_cache_header("notes.txt"), "public, max-age=86400");
}

#[test]
fn short_ids_are_eight_lowercase_hex_digits() {
    for _ in 0..20 {
        let id = generate_short_id();
        assert_eq!(id.len(), 8);
        assert!(id.chars().all(|c| c.is_ascii_hexdigit() && !c.is_ascii_uppercase()));
    }
    // Two fresh identifiers almost surely differ; equal ones twenty times
    // running would mean the randomness is not wired through.
    let distinct = (0..20)
        .map(|_| generate_short_id())
        .collect::<std::collections::HashSet<_>>();
    assert!(distinct.len() > 1);
}

#[test]
fn not_found_page_is_the_expected_document() {
    let page = generate_not_found_html();
    assert!(page.starts_with("<!DOCTYPE html>"));
    assert!(page.contains("<h1>404</h1>"));
    assert!(page.contains("Submission not found or link has expired."));
    assert!(page.ends_with("</html>"));
}

#[test]
fn whitepaper_layout_in_both_languages() {
    let en = generate_whitepaper_pdf(false);
    assert_eq!(en.len(), 73);
    assert_eq!(en[0].text, "SOUTH CITY COMPUTER");
    assert_eq!(en[2].text, "The Sub-Second Website");
    assert!(en[2].bold);
    let es = generate_whitepaper_pdf(true);
    assert_eq!(es.len(), 73);
    assert_eq!(es[2].text, "El Sitio Web Sub-Segundo");
    for sp in en.iter().chain(es.iter()) {
        assert!(sp.page == 1 || sp.page == 2);
        assert_eq!(sp.x_tenths, 200);
        assert!(80 <= sp.size_tenths && sp.size_tenths <= 220);
    }
    let footer = "South City Computer | Puerto Morelos, Mexico | southcitycomputer.com";
    assert_eq!(en[71].text, footer);
    assert_eq!(en[71].page, 1);
    assert_eq!(en[72].text, footer);
    assert_eq!(en[72].page, 2);
    assert_eq!(en[71].y_tenths, 100);
}

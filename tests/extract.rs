use web_crawler::extract::{extract_hrefs_from, links_from_hrefs};
use web_crawler::url_norm::{canonical_base, fragment_only, normalize};

const BASE: &str = "https://www.example.com/examples/";

#[test]
fn test_extract_urls() {
    let body = "
        <html><body>
        <h1>header</h1>
        <a href=\"https://www.example.com\">
        <a href=\"https://www.trailing-slash.com/\">
        <a href=\"https://www.example2.com\">
        <a href=\"/relative\">
        <a href=\"../other_rel\">
        </body></html>";

    let links = extract_hrefs_from("https://www.example.com/examples/", body);

    assert_eq!(links, [
        "https://www.example.com/",
        "https://www.trailing-slash.com/",
        "https://www.example2.com/",
        "https://www.example.com/relative",
        "https://www.example.com/other_rel"
    ]);
}

#[test]
fn test_extract_urls_ignores() {
    let body = "
        <html><body>
        <h1>header</h1>
        <a href=\"#item1\">
        <a href=\"mailto:example@gmail.com\">
        </body></html>";

    let links = extract_hrefs_from("https://www.example.com/examples/", body);

    let expected: [&str; 0] = [];
    assert_eq!(links, expected);
}

#[test]
fn extracts_scenario_without_second_domain() {
    let body = "<html><body>\
        <a href=\"https://www.example.com\">x</a>\
        <a href=\"https://www.trailing-slash.com/\">x</a>\
        <a href=\"/relative\">x</a>\
        <a href=\"../other_rel\">x</a>\
        </body></html>";
    let links = extract_hrefs_from(BASE, body);
    assert_eq!(links, [
        "https://www.example.com/",
        "https://www.trailing-slash.com/",
        "https://www.example.com/relative",
        "https://www.example.com/other_rel"
    ]);
}

#[test]
fn extraction_keeps_document_order() {
    let body = "<p><a href=\"/c\">c</a></p><div><a href=\"/a\">a</a></div><a href=\"/b\">b</a>";
    let links = extract_hrefs_from(BASE, body);
    assert_eq!(links, [
        "https://www.example.com/c",
        "https://www.example.com/a",
        "https://www.example.com/b"
    ]);
}

#[test]
fn extraction_skips_anchors_without_href() {
    let body = "<a name=\"top\">t</a><a href=\"javascript:void(0)\">j</a><a href=\"page\">p</a>";
    let links = extract_hrefs_from(BASE, body);
    assert_eq!(links, ["https://www.example.com/examples/page"]);
}

#[test]
fn extraction_of_page_without_links_is_empty() {
    let links = extract_hrefs_from(BASE, "<html><body><p>no links</p></body></html>");
    assert!(links.is_empty());
}

#[test]
fn extraction_drops_host_less_links() {
    let body = "<a href=\"mailto:a@b.com\">m</a><a href=\"#top\">t</a>\
        <a href=\"data:text/plain,hi\">d</a><a href=\"https://ok.example/\">o</a>";
    let links = extract_hrefs_from(BASE, body);
    assert_eq!(links, ["https://ok.example/"]);
}

#[test]
fn links_from_hrefs_normalizes_each_present_target() {
    let hrefs = vec![
        Some("a#frag".to_string()),
        None,
        Some("mailto:x@y.z".to_string()),
        Some("HTTPS://Other.Example/p".to_string()),
    ];
    let links = links_from_hrefs(BASE, &hrefs);
    assert_eq!(links, [
        "https://www.example.com/examples/a",
        "https://other.example/p"
    ]);
}

#[test]
fn canonical_base_serializes() {
    assert_eq!(canonical_base("https://www.example.com"), Some("https://www.example.com/".to_string()));
    assert_eq!(canonical_base("not a url"), None);
    assert_eq!(canonical_base("/relative"), None);
}

#[test]
fn normalize_resolves_relative_references() {
    assert_eq!(normalize("/relative", BASE), Some("https://www.example.com/relative".to_string()));
    assert_eq!(normalize("../other_rel", BASE), Some("https://www.example.com/other_rel".to_string()));
    assert_eq!(normalize("sub/page", BASE), Some("https://www.example.com/examples/sub/page".to_string()));
}

#[test]
fn normalize_strips_fragments() {
    assert_eq!(normalize("https://a.example/x#y", BASE), Some("https://a.example/x".to_string()));
    assert_eq!(normalize("page#one", BASE), normalize("page#two", BASE));
    assert_eq!(normalize("page#one", BASE), normalize("page", BASE));
}

#[test]
fn normalize_is_idempotent() {
    for href in ["https://www.example.com", "../other_rel", "x/y?q=1#f", "HTTP://A.EXAMPLE:80/p"] {
        let once = normalize(href, BASE).expect("normalizes");
        assert_eq!(normalize(&once, BASE), Some(once.clone()));
    }
}

#[test]
fn normalize_rejects_host_less_targets() {
    assert_eq!(normalize("mailto:example@gmail.com", BASE), None);
    assert_eq!(normalize("#section", BASE), None);
    assert_eq!(normalize("  #section", BASE), None);
    assert_eq!(normalize("javascript:alert(1)", BASE), None);
}

#[test]
fn fragment_only_detects_bare_fragments() {
    assert!(fragment_only("#a"));
    assert!(fragment_only(" \t#a"));
    assert!(!fragment_only("a#b"));
    assert!(!fragment_only(""));
    assert!(!fragment_only("   "));
}

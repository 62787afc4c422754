use crafty::catalog::extract_embedded_json;
use crafty::catalog::parse_catalog;
use crafty::catalog::CatalogError;
use crafty::matcher::list_all;
use crafty::matcher::resolve_exact;

const START: &str = "<script type=\"application/json\" data-target=\"react-app.embeddedData\">";

fn listing_page(payload: &str) -> String {
    format!(
        "<html><head><script>var x = 1;</script></head><body>{}{}</script><p>tail</p></body></html>",
        START, payload
    )
}

#[test]
fn extracts_the_marker_delimited_span() {
    let body = listing_page("{\"k\":1}");
    assert_eq!(extract_embedded_json(&body), Some("{\"k\":1}".to_string()));
}

#[test]
fn missing_markers_yield_none() {
    assert_eq!(extract_embedded_json("<html>no markers here</html>"), None);
    let unclosed = format!("<html>{}{}", START, "{\"k\":1}");
    assert_eq!(extract_embedded_json(&unclosed), None);
    assert_eq!(extract_embedded_json(""), None);
}

#[test]
fn takes_the_first_opening_and_next_closing_marker() {
    let body = format!("pre{}first</script>{}second</script>", START, START);
    assert_eq!(extract_embedded_json(&body), Some("first".to_string()));
}

#[test]
fn parses_the_item_names_in_listing_order() {
    let payload = "{\"payload\":{\"tree\":{\"items\":[\
        {\"name\":\"archcraft-fish-3.6.1-1-x86_64.pkg.tar.zst\"},\
        {\"path\":\"nameless\"},\
        {\"name\":7},\
        {\"name\":\"htop-3.2.2-2-x86_64.pkg.tar.zst\"},\
        {\"name\":\"notes.txt\"}]}}}";
    let body = listing_page(payload);
    let catalog = parse_catalog(&body).unwrap();
    // items without a string name are skipped; no grammar filtering here
    assert_eq!(
        catalog,
        vec![
            "archcraft-fish-3.6.1-1-x86_64.pkg.tar.zst".to_string(),
            "htop-3.2.2-2-x86_64.pkg.tar.zst".to_string(),
            "notes.txt".to_string(),
        ]
    );
}

#[test]
fn missing_marker_is_reported() {
    let r = parse_catalog("<html>plain page</html>");
    assert_eq!(r, Err(CatalogError::MarkerNotFound));
}

#[test]
fn bad_json_is_reported() {
    let body = listing_page("{not json at all");
    assert_eq!(parse_catalog(&body), Err(CatalogError::InvalidJson));
}

#[test]
fn missing_items_path_is_reported() {
    let no_path = listing_page("{\"payload\":{\"blob\":3}}");
    assert_eq!(parse_catalog(&no_path), Err(CatalogError::ItemsNotFound));
    let not_an_array = listing_page("{\"payload\":{\"tree\":{\"items\":{\"name\":\"x\"}}}}");
    assert_eq!(parse_catalog(&not_an_array), Err(CatalogError::ItemsNotFound));
}

#[test]
fn empty_items_array_gives_an_empty_catalog() {
    let body = listing_page("{\"payload\":{\"tree\":{\"items\":[]}}}");
    assert_eq!(parse_catalog(&body), Ok(Vec::new()));
}

#[test]
fn fetched_catalog_feeds_the_matcher() {
    let payload = "{\"payload\":{\"tree\":{\"items\":[\
        {\"name\":\"archcraft-fish-3.6.1-1-x86_64.pkg.tar.zst\"},\
        {\"name\":\"htop-3.2.2-2-x86_64.pkg.tar.zst\"},\
        {\"name\":\"notes.txt\"}]}}}";
    let body = listing_page(payload);
    let catalog = parse_catalog(&body).unwrap();
    assert_eq!(
        resolve_exact(&catalog, "fish"),
        Some("archcraft-fish-3.6.1-1-x86_64.pkg.tar.zst".to_string())
    );
    assert_eq!(list_all(&catalog).len(), 2);
}

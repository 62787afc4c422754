use crafty::matcher::filter_by_keyword;
use crafty::matcher::list_all;
use crafty::matcher::resolve_exact;

fn sample_catalog() -> Vec<String> {
    vec![
        "archcraft-fish-3.6.1-1-x86_64.pkg.tar.zst".to_string(),
        "htop-3.2.2-2-x86_64.pkg.tar.zst".to_string(),
        "notes.txt".to_string(),
    ]
}

#[test]
fn resolves_with_distribution_prefix() {
    let catalog = sample_catalog();
    assert_eq!(
        resolve_exact(&catalog, "fish"),
        Some("archcraft-fish-3.6.1-1-x86_64.pkg.tar.zst".to_string())
    );
}

#[test]
fn resolves_plain_name() {
    let catalog = sample_catalog();
    assert_eq!(
        resolve_exact(&catalog, "htop"),
        Some("htop-3.2.2-2-x86_64.pkg.tar.zst".to_string())
    );
}

#[test]
fn missing_name_is_not_found() {
    let catalog = sample_catalog();
    assert_eq!(resolve_exact(&catalog, "vim"), None);
}

#[test]
fn list_all_keeps_only_grammar_valid_entries() {
    let catalog = sample_catalog();
    assert_eq!(
        list_all(&catalog),
        vec![
            "archcraft-fish-3.6.1-1-x86_64.pkg.tar.zst".to_string(),
            "htop-3.2.2-2-x86_64.pkg.tar.zst".to_string(),
        ]
    );
}

#[test]
fn keyword_filter_searches_the_name_component() {
    let catalog = sample_catalog();
    assert_eq!(
        filter_by_keyword(&catalog, "top"),
        vec!["htop-3.2.2-2-x86_64.pkg.tar.zst".to_string()]
    );
}

#[test]
fn keyword_filter_ignores_version_arch_and_extension() {
    let catalog = sample_catalog();
    assert_eq!(filter_by_keyword(&catalog, "zst"), Vec::<String>::new());
    assert_eq!(filter_by_keyword(&catalog, "x86"), Vec::<String>::new());
    assert_eq!(filter_by_keyword(&catalog, "3.2"), Vec::<String>::new());
}

#[test]
fn empty_keyword_matches_every_valid_entry() {
    let catalog = sample_catalog();
    assert_eq!(filter_by_keyword(&catalog, ""), list_all(&catalog));
}

#[test]
fn keyword_filter_is_case_insensitive() {
    let catalog = vec![
        "gcc-13.1.1-1-x86_64.pkg.tar.zst".to_string(),
        "GCC-libs-13.1.1-1-x86_64.pkg.tar.zst".to_string(),
        "htop-3.2.2-2-x86_64.pkg.tar.zst".to_string(),
    ];
    let upper = filter_by_keyword(&catalog, "GCC");
    let lower = filter_by_keyword(&catalog, "gcc");
    assert_eq!(upper, lower);
    assert_eq!(
        lower,
        vec![
            "gcc-13.1.1-1-x86_64.pkg.tar.zst".to_string(),
            "GCC-libs-13.1.1-1-x86_64.pkg.tar.zst".to_string(),
        ]
    );
}

#[test]
fn resolve_returns_the_first_match_in_catalog_order() {
    // Deliberate current behaviour: the first entry the listing offered wins,
    // not necessarily the newest version.
    let catalog = vec![
        "fish-3.5.0-1-x86_64.pkg.tar.zst".to_string(),
        "fish-3.6.1-1-x86_64.pkg.tar.zst".to_string(),
    ];
    assert_eq!(
        resolve_exact(&catalog, "fish"),
        Some("fish-3.5.0-1-x86_64.pkg.tar.zst".to_string())
    );
}

#[test]
fn requested_name_is_compared_literally() {
    // "fi.h" must not act as a pattern matching "fish".
    let catalog = vec!["fish-3.6.1-1-x86_64.pkg.tar.zst".to_string()];
    assert_eq!(resolve_exact(&catalog, "fi.h"), None);
}

#[test]
fn resolve_does_not_match_name_fragments() {
    let catalog = sample_catalog();
    assert_eq!(resolve_exact(&catalog, "fis"), None);
    assert_eq!(resolve_exact(&catalog, "archcraft-fish-3.6.1"), None);
}

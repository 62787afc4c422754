use crafty::grammar::extract_name;
use crafty::grammar::is_archive_name;
use crafty::grammar::make_archive_name;
use crafty::grammar::parse_archive_name;

#[test]
fn parses_prefixed_name() {
    let p = parse_archive_name("archcraft-fish-3.6.1-1-x86_64.pkg.tar.zst").unwrap();
    assert_eq!(p.name, "archcraft-fish");
    assert_eq!(p.version, "3.6.1");
    assert_eq!(p.release, "1");
    assert_eq!(p.arch, "x86_64");
}

#[test]
fn parses_hyphenated_name() {
    let p = parse_archive_name("gtk-theme-slate-1.0-2-any.pkg.tar.zst").unwrap();
    assert_eq!(p.name, "gtk-theme-slate");
    assert_eq!(p.version, "1.0");
    assert_eq!(p.release, "2");
    assert_eq!(p.arch, "any");
}

#[test]
fn name_may_contain_digits_and_hyphens() {
    let p = parse_archive_name("htop-3-1-2-x86_64.pkg.tar.zst").unwrap();
    // the last three hyphen-separated fields are version, release and arch,
    // so the name keeps every earlier hyphenated part
    assert_eq!(p.name, "htop-3");
    assert_eq!(p.version, "1");
    assert_eq!(p.release, "2");
    assert_eq!(p.arch, "x86_64");
    let q = parse_archive_name("lib-2-fast-1.2-3-any.pkg.tar.zst").unwrap();
    assert_eq!(q.name, "lib-2-fast");
}

#[test]
fn rejects_non_archive_entries() {
    assert!(parse_archive_name("notes.txt").is_none());
    assert!(parse_archive_name("").is_none());
    assert!(parse_archive_name("fish").is_none());
    assert!(parse_archive_name("fish.pkg.tar.zst").is_none());
    // empty name
    assert!(parse_archive_name("-1.0-1-any.pkg.tar.zst").is_none());
    // malformed versions
    assert!(parse_archive_name("fish-1.-1-any.pkg.tar.zst").is_none());
    assert!(parse_archive_name("fish-.1-1-any.pkg.tar.zst").is_none());
    assert!(parse_archive_name("fish-1..2-1-any.pkg.tar.zst").is_none());
    assert!(parse_archive_name("fish--1-any.pkg.tar.zst").is_none());
    // malformed release
    assert!(parse_archive_name("fish-1.0-x-any.pkg.tar.zst").is_none());
    assert!(parse_archive_name("fish-1.0--any.pkg.tar.zst").is_none());
    // unknown architecture
    assert!(parse_archive_name("fish-1.0-1-arm.pkg.tar.zst").is_none());
    assert!(parse_archive_name("fish-1.0-1-.pkg.tar.zst").is_none());
    // wrong extension
    assert!(parse_archive_name("fish-1.0-1-any.pkg.tar.xz").is_none());
    assert!(parse_archive_name("fish-1.0-1-any.pkg.tar.zstd").is_none());
}

#[test]
fn extract_name_takes_everything_before_the_tail() {
    assert_eq!(
        extract_name("archcraft-fish-3.6.1-1-x86_64.pkg.tar.zst").unwrap(),
        "archcraft-fish"
    );
    assert_eq!(extract_name("htop-3.2.2-2-x86_64.pkg.tar.zst").unwrap(), "htop");
    assert!(extract_name("notes.txt").is_none());
}

#[test]
fn name_extraction_round_trip() {
    let filenames = [
        "archcraft-fish-3.6.1-1-x86_64.pkg.tar.zst",
        "htop-3.2.2-2-x86_64.pkg.tar.zst",
        "gtk-theme-slate-1.0-2-any.pkg.tar.zst",
    ];
    for s in filenames {
        let p = parse_archive_name(s).unwrap();
        let rebuilt = make_archive_name(&p.name, &p.version, &p.release, &p.arch);
        assert_eq!(rebuilt, s);
        assert!(is_archive_name(&rebuilt));
    }
}

#[test]
fn make_archive_name_builds_the_convention() {
    assert_eq!(
        make_archive_name("fish", "3.6.1", "1", "x86_64"),
        "fish-3.6.1-1-x86_64.pkg.tar.zst"
    );
}

#[test]
fn is_archive_name_agrees_with_parsing() {
    assert!(is_archive_name("fish-3.6.1-1-x86_64.pkg.tar.zst"));
    assert!(is_archive_name("a-1-1-any.pkg.tar.zst"));
    assert!(!is_archive_name("notes.txt"));
    assert!(!is_archive_name("fish-3.6.1-1-armv7.pkg.tar.zst"));
}

use crafty::archive::is_valid_zst;
use crafty::ledger::upgrade_targets;
use crafty::ledger::PackageDb;

#[test]
fn new_ledger_is_empty() {
    let db = PackageDb::new();
    assert!(!db.contains("htop"));
    assert_eq!(db.names().len(), 0);
}

#[test]
fn add_then_contains() {
    let mut db = PackageDb::new();
    db.add("htop");
    assert!(db.contains("htop"));
    assert!(!db.contains("fish"));
}

#[test]
fn add_is_idempotent_on_the_set() {
    let mut db = PackageDb::new();
    db.add("htop");
    db.add("htop");
    assert!(db.contains("htop"));
    assert_eq!(db.names().len(), 1);
}

#[test]
fn remove_then_contains_is_false() {
    let mut db = PackageDb::new();
    db.add("htop");
    db.add("fish");
    db.remove("htop");
    assert!(!db.contains("htop"));
    assert!(db.contains("fish"));
}

#[test]
fn removing_an_absent_name_is_a_no_op() {
    let mut db = PackageDb::new();
    db.add("fish");
    db.remove("htop");
    assert!(db.contains("fish"));
    assert_eq!(db.names().len(), 1);
}

#[test]
fn from_names_keeps_each_distinct_name_once() {
    let names = vec!["a".to_string(), "b".to_string(), "a".to_string()];
    let db = PackageDb::from_names(&names);
    assert!(db.contains("a"));
    assert!(db.contains("b"));
    assert!(!db.contains("c"));
    assert_eq!(db.names().len(), 2);
}

#[test]
fn upgrade_without_a_name_covers_every_recorded_package() {
    let mut db = PackageDb::new();
    db.add("fish");
    db.add("htop");
    assert_eq!(
        upgrade_targets(&db, ""),
        vec!["fish".to_string(), "htop".to_string()]
    );
}

#[test]
fn upgrade_with_a_recorded_name_covers_it_alone() {
    let mut db = PackageDb::new();
    db.add("fish");
    db.add("htop");
    assert_eq!(upgrade_targets(&db, "htop"), vec!["htop".to_string()]);
}

#[test]
fn upgrade_with_an_unrecorded_name_covers_nothing() {
    let mut db = PackageDb::new();
    db.add("fish");
    assert_eq!(upgrade_targets(&db, "vim"), Vec::<String>::new());
}

#[test]
fn zstd_magic_is_accepted() {
    let data = vec![0x28u8, 0xB5, 0x2F, 0xFD, 0x00, 0x01, 0x02];
    assert!(is_valid_zst(&data));
    let exact = vec![0x28u8, 0xB5, 0x2F, 0xFD];
    assert!(is_valid_zst(&exact));
}

#[test]
fn other_magics_and_short_data_are_rejected() {
    // a zip archive's magic number
    let zip = vec![0x50u8, 0x4B, 0x03, 0x04, 0x00];
    assert!(!is_valid_zst(&zip));
    let short = vec![0x28u8, 0xB5, 0x2F];
    assert!(!is_valid_zst(&short));
    let empty: Vec<u8> = Vec::new();
    assert!(!is_valid_zst(&empty));
    let off_by_one = vec![0x28u8, 0xB5, 0x2F, 0xFC, 0x00];
    assert!(!is_valid_zst(&off_by_one));
}

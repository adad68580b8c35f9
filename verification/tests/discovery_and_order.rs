use migrator::discovery::{filter_migration_candidates, is_valid_migration};
use migrator::reconcile::filter_not_applied_migrations;

fn strings(names: &[&str]) -> Vec<String> {
    names.iter().map(|n| n.to_string()).collect()
}

#[test]
fn validity_goes_by_the_last_character() {
    assert!(is_valid_migration("migration_001"));
    assert!(is_valid_migration("20240101_create_users_1"));
    assert!(is_valid_migration("7"));
    assert!(!is_valid_migration("notes.txt"));
    assert!(!is_valid_migration("readme.md"));
    assert!(!is_valid_migration(""));
    // A known weak point of the convention, preserved as-is: a backup copy
    // whose name happens to end in a digit counts as a migration.
    assert!(is_valid_migration("bak_v2"));
}

#[test]
fn non_migrations_are_skipped_not_errored() {
    let found = filter_migration_candidates(strings(&["notes.txt", "migration_002", "migration_001"]));
    assert_eq!(found, Some(strings(&["migration_002", "migration_001"])));
}

#[test]
fn a_source_with_no_valid_candidate_yields_absence() {
    assert_eq!(filter_migration_candidates(strings(&["notes.txt", "readme.md"])), None);
    assert_eq!(filter_migration_candidates(vec![]), None);
}

#[test]
fn reconcile_sorts_and_subtracts() {
    let pending = filter_not_applied_migrations(
        strings(&["000_z9", "001_a1"]),
        strings(&["002_b2", "001_a1", "000_z9", "003_c3"]),
    );
    assert_eq!(pending, strings(&["002_b2", "003_c3"]));
}

#[test]
fn reconcile_of_nothing_discovered_is_empty() {
    assert!(filter_not_applied_migrations(strings(&["001_a"]), vec![]).is_empty());
    assert!(filter_not_applied_migrations(vec![], vec![]).is_empty());
}

#[test]
fn applied_identifiers_never_discovered_are_ignored() {
    let pending = filter_not_applied_migrations(
        strings(&["000_gone", "001_a"]),
        strings(&["001_a"]),
    );
    assert!(pending.is_empty());
}

#[test]
fn ordering_is_lexicographic_with_prefixes_first() {
    let pending = filter_not_applied_migrations(vec![], strings(&["01", "0", "001", "1"]));
    assert_eq!(pending, strings(&["0", "001", "01", "1"]));
}

#[test]
fn repeated_candidates_are_kept_and_sorted_together() {
    let pending = filter_not_applied_migrations(vec![], strings(&["002", "001", "002"]));
    assert_eq!(pending, strings(&["001", "002", "002"]));
}

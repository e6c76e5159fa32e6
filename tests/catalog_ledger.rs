use schema_migrate::catalog::{Catalog, CatalogError};
use schema_migrate::ledger::{Ledger, LedgerEntry};
use schema_migrate::script::{Migration, MigrationError, MigrationKind};
use schema_migrate::store::Store;

fn script(version: i64, kind: MigrationKind) -> Migration {
    Migration {
        version,
        description: format!("step {}", version),
        sql: String::from("SELECT 1;"),
        kind,
    }
}

#[test]
fn catalog_refuses_non_positive_version() {
    let r = Catalog::new(vec![script(1, MigrationKind::Up), script(0, MigrationKind::Up)]);
    assert_eq!(r.err(), Some(CatalogError::NonPositiveVersion(0)));
    let r = Catalog::new(vec![script(-4, MigrationKind::Down)]);
    assert_eq!(r.err(), Some(CatalogError::NonPositiveVersion(-4)));
}

#[test]
fn catalog_refuses_duplicate_up_version() {
    let r = Catalog::new(vec![
        script(1, MigrationKind::Up),
        script(2, MigrationKind::Up),
        script(2, MigrationKind::Up),
    ]);
    assert_eq!(r.err(), Some(CatalogError::DuplicateVersion(2)));
}

#[test]
fn catalog_reports_non_positive_before_duplicate() {
    let r = Catalog::new(vec![
        script(2, MigrationKind::Up),
        script(2, MigrationKind::Up),
        script(0, MigrationKind::Up),
    ]);
    assert_eq!(r.err(), Some(CatalogError::NonPositiveVersion(0)));
}

#[test]
fn catalog_accepts_down_sharing_an_up_version() {
    let c = Catalog::new(vec![script(1, MigrationKind::Up), script(1, MigrationKind::Down)]).unwrap();
    assert_eq!(c.len(), 2);
    assert_eq!(c.get(1).kind, MigrationKind::Down);
    assert_eq!(c.max_version(), Some(1));
}

#[test]
fn max_version_ignores_down_scripts() {
    let c = Catalog::new(vec![
        script(3, MigrationKind::Up),
        script(7, MigrationKind::Down),
        script(5, MigrationKind::Up),
    ])
    .unwrap();
    assert_eq!(c.max_version(), Some(5));
    let only_down = Catalog::new(vec![script(7, MigrationKind::Down)]).unwrap();
    assert_eq!(only_down.max_version(), None);
}

#[test]
fn next_pending_picks_smallest_version_above_floor() {
    let c = Catalog::new(vec![
        script(9, MigrationKind::Up),
        script(2, MigrationKind::Up),
        script(3, MigrationKind::Down),
        script(5, MigrationKind::Up),
    ])
    .unwrap();
    assert_eq!(c.next_pending(None), Some(1));
    assert_eq!(c.next_pending(Some(2)), Some(3));
    assert_eq!(c.next_pending(Some(5)), Some(0));
    assert_eq!(c.next_pending(Some(9)), None);
}

#[test]
fn ledger_record_and_conflict() {
    let mut l = Ledger::new();
    assert_eq!(l.current_max_applied(), None);
    assert_eq!(l.record(4, 10), Ok(()));
    assert_eq!(l.record(2, 11), Ok(()));
    assert_eq!(l.current_max_applied(), Some(4));
    assert!(l.contains(2));
    assert!(!l.contains(3));
    assert_eq!(l.record(4, 12), Err(MigrationError::ConflictError(4)));
    assert_eq!(
        l.entries(),
        &vec![
            LedgerEntry { version: 4, applied_at: 10 },
            LedgerEntry { version: 2, applied_at: 11 },
        ]
    );
}

#[test]
fn store_ledger_is_created_lazily() {
    let mut s = Store::new();
    assert!(s.ledger().is_none());
    s.ensure_ledger();
    assert!(s.ledger().is_some());
    assert_eq!(s.applied_versions(), Vec::<i64>::new());
    s.ensure_ledger();
    assert_eq!(s.record(1, 0), Ok(()));
    s.ensure_ledger();
    assert_eq!(s.applied_versions(), vec![1]);
    assert_eq!(s.record(1, 0), Err(MigrationError::ConflictError(1)));
}

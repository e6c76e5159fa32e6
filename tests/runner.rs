use schema_migrate::catalog::Catalog;
use schema_migrate::runner::apply_all;
use schema_migrate::script::{Migration, MigrationError, MigrationKind};
use schema_migrate::store::Store;

fn up(version: i64, description: &str) -> Migration {
    Migration {
        version,
        description: String::from(description),
        sql: format!("CREATE TABLE t{} (id INTEGER PRIMARY KEY);", version),
        kind: MigrationKind::Up,
    }
}

fn down(version: i64, description: &str) -> Migration {
    Migration {
        version,
        description: String::from(description),
        sql: format!("DROP TABLE t{};", version),
        kind: MigrationKind::Down,
    }
}

fn catalog(scripts: Vec<Migration>) -> Catalog {
    match Catalog::new(scripts) {
        Ok(c) => c,
        Err(e) => panic!("invalid catalog: {:?}", e),
    }
}

fn four_step() -> Catalog {
    catalog(vec![up(1, "a"), up(2, "b"), up(5, "c"), up(9, "d")])
}

#[test]
fn fresh_store_reaches_newest_version() {
    let c = four_step();
    let mut s = Store::new();
    assert_eq!(s.current_max_applied(), None);
    let r = apply_all(&c, &mut s, 100);
    assert_eq!(r, Ok(Some(9)));
    assert_eq!(s.current_max_applied(), Some(9));
    assert_eq!(c.max_version(), Some(9));
}

#[test]
fn second_run_is_a_no_op() {
    let c = four_step();
    let mut s = Store::new();
    let r1 = apply_all(&c, &mut s, 100);
    let executed = s.executed().clone();
    let applied = s.applied_versions();
    let r2 = apply_all(&c, &mut s, 200);
    assert_eq!(r1, r2);
    assert_eq!(s.executed(), &executed);
    assert_eq!(s.applied_versions(), applied);
    let entries = s.ledger().unwrap().entries();
    assert!(entries.iter().all(|e| e.applied_at == 100));
}

#[test]
fn scripts_run_in_version_order_whatever_the_declaration_order() {
    let c = catalog(vec![up(9, "d"), up(2, "b"), up(5, "c"), up(1, "a")]);
    let mut s = Store::new();
    assert_eq!(apply_all(&c, &mut s, 7), Ok(Some(9)));
    assert_eq!(s.executed(), &vec![1, 2, 5, 9]);
    assert_eq!(s.applied_versions(), vec![1, 2, 5, 9]);
}

#[test]
fn failed_script_leaves_last_success() {
    let c = four_step();
    let mut s = Store::new();
    s.reject_script(5, String::from("syntax error"));
    let r = apply_all(&c, &mut s, 1);
    assert_eq!(r, Err(MigrationError::ScriptExecutionError(5, String::from("syntax error"))));
    assert_eq!(s.current_max_applied(), Some(2));
    assert_eq!(s.executed(), &vec![1, 2]);
    assert_eq!(s.applied_versions(), vec![1, 2]);
}

#[test]
fn failed_run_repeats_the_same_failure() {
    let c = four_step();
    let mut s = Store::new();
    s.reject_script(5, String::from("disk full"));
    s.reject_script(5, String::from("second message"));
    let r1 = apply_all(&c, &mut s, 1);
    let r2 = apply_all(&c, &mut s, 2);
    assert_eq!(r1, Err(MigrationError::ScriptExecutionError(5, String::from("disk full"))));
    assert_eq!(r1, r2);
    assert_eq!(s.executed(), &vec![1, 2]);
}

#[test]
fn prerecorded_version_is_skipped_without_conflict() {
    let mut s = Store::new();
    assert_eq!(apply_all(&catalog(vec![up(1, "a"), up(2, "b")]), &mut s, 1), Ok(Some(2)));
    assert_eq!(s.record(3, 5), Ok(()));
    let c = catalog(vec![up(1, "a"), up(2, "b"), up(3, "c"), up(4, "d")]);
    assert_eq!(apply_all(&c, &mut s, 10), Ok(Some(4)));
    assert_eq!(s.executed(), &vec![1, 2, 4]);
    assert_eq!(s.applied_versions(), vec![1, 2, 3, 4]);
}

#[test]
fn extended_catalog_applies_only_the_new_script() {
    let base = vec![
        up(1, "create_core_tables"),
        up(2, "create_fts_tables"),
        up(3, "add_column"),
    ];
    let c = catalog(base.clone());
    let mut s = Store::new();
    assert_eq!(apply_all(&c, &mut s, 1), Ok(Some(3)));
    let mut applied = s.applied_versions();
    applied.sort();
    assert_eq!(applied, vec![1, 2, 3]);
    let mut extended = base;
    extended.push(up(4, "add_index"));
    let c2 = catalog(extended);
    assert_eq!(apply_all(&c2, &mut s, 2), Ok(Some(4)));
    assert_eq!(s.executed(), &vec![1, 2, 3, 4]);
    assert_eq!(s.applied_versions(), vec![1, 2, 3, 4]);
    let entries = s.ledger().unwrap().entries();
    assert_eq!(entries[3].version, 4);
    assert_eq!(entries[3].applied_at, 2);
}

#[test]
fn empty_catalog_is_a_no_op_success() {
    let c = catalog(vec![]);
    let mut s = Store::new();
    assert_eq!(apply_all(&c, &mut s, 1), Ok(None));
    assert!(s.executed().is_empty());
    assert!(s.ledger().is_some());
    assert_eq!(s.current_max_applied(), None);
}

#[test]
fn newer_store_is_reported_as_downgrade() {
    let mut s = Store::new();
    assert_eq!(s.record(5, 1), Ok(()));
    let c = catalog(vec![up(1, "a"), up(3, "b")]);
    assert_eq!(apply_all(&c, &mut s, 2), Err(MigrationError::DowngradeDetected(5, 3)));
    assert!(s.executed().is_empty());
    assert_eq!(s.applied_versions(), vec![5]);
}

#[test]
fn down_scripts_are_never_applied() {
    let c = catalog(vec![up(1, "a"), down(1, "undo a"), up(2, "b"), down(2, "undo b")]);
    let mut s = Store::new();
    assert_eq!(apply_all(&c, &mut s, 1), Ok(Some(2)));
    assert_eq!(s.executed(), &vec![1, 2]);
}

#[test]
fn apply_script_conflict_rolls_back() {
    let mut s = Store::new();
    assert_eq!(s.record(2, 1), Ok(()));
    let r = s.apply_script(&up(2, "b"), 3);
    assert_eq!(r, Err(MigrationError::ConflictError(2)));
    assert!(s.executed().is_empty());
    assert_eq!(s.applied_versions(), vec![2]);
}

#[test]
fn apply_script_failure_leaves_store_untouched() {
    let mut s = Store::new();
    s.reject_script(1, String::from("bad"));
    let r = s.apply_script(&up(1, "a"), 3);
    assert_eq!(r, Err(MigrationError::ScriptExecutionError(1, String::from("bad"))));
    assert!(s.ledger().is_none());
    assert!(s.executed().is_empty());
}

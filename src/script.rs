use vstd::prelude::*;

verus! {

/// Direction of a script: `Up` moves the schema ahead, `Down` undoes an `Up`
/// script of the same version. The runner applies `Up` scripts only.
#[derive(Clone, Copy, Debug, PartialEq, Eq, Structural)]
pub enum MigrationKind {
    Up,
    Down,
}

/// One versioned, atomic unit of schema change. The body (`sql`) is opaque
/// to the engine.
#[derive(Clone, Debug, PartialEq, Eq)]
pub struct Migration {
    pub version: i64,
    pub description: String,
    pub sql: String,
    pub kind: MigrationKind,
}

/// Errors of a migration run.
#[derive(Clone, Debug, PartialEq, Eq)]
pub enum MigrationError {
    /// The body of the script with this version failed; the engine's message.
    ScriptExecutionError(i64, String),
    /// The ledger already holds this version when it is recorded.
    ConflictError(i64),
    /// The store is at a version (first) above the catalog's newest (second).
    DowngradeDetected(i64, i64),
}

pub open spec fn is_up(m: Migration) -> bool {
    m.kind == MigrationKind::Up
}

} // verus!

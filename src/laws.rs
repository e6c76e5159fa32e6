use vstd::prelude::*;
use crate::catalog::{has_up, lemma_up_max, up_max, valid_scripts};
use crate::ledger::{lemma_entries_max, recorded, LedgerEntry};
use crate::runner::{downgrade, entries_for, migrated, pending, run_bodies, strictly_increasing};
use crate::script::{Migration, MigrationError};
use crate::store::{applied, faulty, first_fault, ledger_of, store_max, StoreView};

verus! {

proof fn lemma_recorded_after(base: Seq<LedgerEntry>, vs: Seq<i64>, now: u64)
    ensures
        forall|v: i64| #[trigger] recorded(base + entries_for(vs, now), v) <==> (recorded(base, v) || vs.contains(v)),
{
    let l = base + entries_for(vs, now);
    assert forall|v: i64| #[trigger] recorded(l, v) <==> (recorded(base, v) || vs.contains(v)) by {
        if recorded(l, v) {
            let i = choose|i: int| 0 <= i < l.len() && #[trigger] l[i].version == v;
            if i < base.len() {
                assert(base[i] == l[i]);
            } else {
                assert(vs[i - base.len()] == v);
            }
        }
        if recorded(base, v) {
            let i = choose|i: int| 0 <= i < base.len() && #[trigger] base[i].version == v;
            assert(l[i] == base[i]);
        }
        if vs.contains(v) {
            let k = choose|k: int| 0 <= k < vs.len() && vs[k] == v;
            assert(l[base.len() + k].version == v);
        }
    }
}

proof fn lemma_max_bounds(s: StoreView, v: i64)
    requires
        applied(s, v),
    ensures
        store_max(s) is Some,
        v <= store_max(s)->Some_0,
        applied(s, store_max(s)->Some_0),
{
    lemma_entries_max(ledger_of(s.ledger));
}

proof fn lemma_empty_when_nothing_contained(s: Seq<i64>)
    requires
        forall|v: i64| !s.contains(v),
    ensures
        s.len() == 0,
{
    if s.len() > 0 {
        assert(s.contains(s[0]));
    }
}

/// A run that executed no body leaves the store exactly as it found it,
/// but for creating an absent ledger.
proof fn lemma_quiet_run(c: Seq<Migration>, s0: StoreView, now: u64, s1: StoreView, r: Result<Option<i64>, MigrationError>)
    requires
        migrated(c, s0, now, s1, r),
        s0.ledger is Some,
        run_bodies(s0, s1).len() == 0,
    ensures
        s1 == s0,
{
    assert(s1.bodies =~= s0.bodies) by {
        assert(s1.bodies.len() == s0.bodies.len());
        assert(s1.bodies =~= s1.bodies.subrange(0, s0.bodies.len() as int));
    }
    assert(ledger_of(s0.ledger) + entries_for(run_bodies(s0, s1), now) =~= s0.ledger->Some_0);
}

/// On a fresh store whose engine refuses no script of the catalog, a run
/// succeeds and leaves the ledger at the catalog's newest version.
pub proof fn lemma_fresh_store_reaches_newest(
    c: Seq<Migration>,
    s0: StoreView,
    now: u64,
    s1: StoreView,
    r: Result<Option<i64>, MigrationError>,
)
    requires
        valid_scripts(c),
        s0.ledger is None,
        forall|v: i64| has_up(c, v) ==> !faulty(s0.faults, v),
        migrated(c, s0, now, s1, r),
    ensures
        r == Ok::<Option<i64>, MigrationError>(up_max(c)),
        store_max(s1) == up_max(c),
{
    let added = run_bodies(s0, s1);
    let l = ledger_of(s1.ledger);
    lemma_up_max(c);
    lemma_entries_max(l);
    lemma_recorded_after(Seq::empty(), added, now);
    assert(store_max(s0) is None);
    if let Err(e) = r {
        if let MigrationError::ScriptExecutionError(f, _) = e {
            assert(pending(c, None, f));
        }
    }
    assert(forall|v: i64| recorded(l, v) <==> has_up(c, v));
    match up_max(c) {
        None => {
            if l.len() > 0 {
                assert(recorded(l, l[0].version));
            }
        },
        Some(m) => {
            assert(recorded(l, m));
        },
    }
}

/// Running the same catalog a second time changes nothing and reports what
/// the first run reported, whatever the first run's outcome.
pub proof fn lemma_rerun_changes_nothing(
    c: Seq<Migration>,
    s0: StoreView,
    now0: u64,
    s1: StoreView,
    r1: Result<Option<i64>, MigrationError>,
    now1: u64,
    s2: StoreView,
    r2: Result<Option<i64>, MigrationError>,
)
    requires
        valid_scripts(c),
        migrated(c, s0, now0, s1, r1),
        migrated(c, s1, now1, s2, r2),
    ensures
        s2 == s1,
        r2 == r1,
{
    let v0 = store_max(s0);
    let v1 = store_max(s1);
    let a1 = run_bodies(s0, s1);
    let a2 = run_bodies(s1, s2);
    lemma_up_max(c);
    lemma_recorded_after(ledger_of(s0.ledger), a1, now0);
    lemma_recorded_after(ledger_of(s1.ledger), a2, now1);
    lemma_entries_max(ledger_of(s0.ledger));
    lemma_entries_max(ledger_of(s1.ledger));
    // every version the first run started from is still recorded
    if let Some(x) = v0 {
        lemma_max_bounds(s1, x);
    }
    // the second run finds nothing pending below the first failure, if any
    assert forall|w: i64| pending(c, v1, w) implies pending(c, v0, w) && !a1.contains(w) by {
        if let Some(x) = v0 {
            lemma_max_bounds(s1, x);
        }
        if a1.contains(w) {
            lemma_max_bounds(s1, w);
        }
    }
    if downgrade(c, v0) {
        assert(a1.len() == 0);
        assert(ledger_of(s0.ledger) + entries_for(a1, now0) =~= ledger_of(s0.ledger));
        assert(v1 == v0);
        assert(a2.len() == 0);
        lemma_quiet_run(c, s1, now1, s2, r2);
    } else {
        if let Some(y) = v1 {
            lemma_max_bounds(s1, y);
            if recorded(ledger_of(s0.ledger), y) {
                assert(y <= v0->Some_0);
            } else {
                assert(a1.contains(y));
            }
        }
        assert(!downgrade(c, v1));
        match r1 {
            Ok(fin) => {
                assert forall|w: i64| !a2.contains(w) by {
                    if a2.contains(w) {
                        assert(pending(c, v1, w));
                        assert(pending(c, v0, w) && !a1.contains(w));
                    }
                }
                lemma_empty_when_nothing_contained(a2);
                lemma_quiet_run(c, s1, now1, s2, r2);
                if let Err(e) = r2 {
                    if let MigrationError::ScriptExecutionError(f, _) = e {
                        assert(pending(c, v1, f));
                        assert(pending(c, v0, f) && !a1.contains(f));
                    }
                }
                assert(r2 == r1);
            },
            Err(e) => {
                if let MigrationError::ScriptExecutionError(f, cause) = e {
                    assert(pending(c, v1, f)) by {
                        if let Some(y) = v1 {
                            lemma_max_bounds(s1, y);
                            if recorded(ledger_of(s0.ledger), y) {
                                assert(y <= v0->Some_0);
                            } else {
                                assert(a1.contains(y));
                            }
                        }
                    }
                    assert forall|w: i64| pending(c, v1, w) implies w >= f by {
                        assert(pending(c, v0, w) && !a1.contains(w));
                    }
                    assert(!(r2 is Ok));
                    if let Err(e2) = r2 {
                        if let MigrationError::ScriptExecutionError(f2, cause2) = e2 {
                            assert(f2 >= f);
                            assert(f2 == f);
                            let i1 = choose|i: int| first_fault(s0.faults, f, i) && cause == #[trigger] s0.faults[i].1;
                            let i2 = choose|i: int| first_fault(s1.faults, f2, i) && cause2 == #[trigger] s1.faults[i].1;
                            assert(i1 == i2) by {
                                if i1 < i2 {
                                    assert(s1.faults[i1].0 == f);
                                } else if i2 < i1 {
                                    assert(s0.faults[i2].0 == f);
                                }
                            }
                            assert forall|w: i64| !a2.contains(w) by {
                                if a2.contains(w) {
                                    assert(pending(c, v1, w));
                                }
                            }
                            lemma_empty_when_nothing_contained(a2);
                            lemma_quiet_run(c, s1, now1, s2, r2);
                            assert(cause2 == cause);
                        }
                    }
                }
            },
        }
    }
}

/// A failed script leaves the ledger at the last script that committed
/// before it: the failed version is neither recorded nor executed, and every
/// pending version below it is recorded.
pub proof fn lemma_failure_keeps_last_success(
    c: Seq<Migration>,
    s0: StoreView,
    now: u64,
    s1: StoreView,
    f: i64,
    cause: String,
)
    requires
        valid_scripts(c),
        migrated(c, s0, now, s1, Err(MigrationError::ScriptExecutionError(f, cause))),
    ensures
        !applied(s1, f),
        !run_bodies(s0, s1).contains(f),
        forall|w: i64| pending(c, store_max(s0), w) && w < f ==> applied(s1, w),
        store_max(s1) == if run_bodies(s0, s1).len() == 0 {
            store_max(s0)
        } else {
            Some(run_bodies(s0, s1).last())
        },
{
    let v0 = store_max(s0);
    let a = run_bodies(s0, s1);
    let l0 = ledger_of(s0.ledger);
    let l1 = ledger_of(s1.ledger);
    lemma_recorded_after(l0, a, now);
    lemma_entries_max(l0);
    lemma_entries_max(l1);
    assert(!recorded(l0, f));
    if a.len() == 0 {
        assert(l0 + entries_for(a, now) =~= l0);
    } else {
        let last = a.last();
        assert(a.contains(last)) by {
            assert(a[a.len() - 1] == last);
        }
        assert(recorded(l1, last));
        assert forall|w: i64| recorded(l1, w) implies w <= last by {
            if a.contains(w) {
                let k = choose|k: int| 0 <= k < a.len() && a[k] == w;
                if k < a.len() - 1 {
                    assert(a[k] < a[a.len() - 1]);
                }
            } else {
                assert(recorded(l0, w));
            }
        }
    }
}

/// A run never executes the body of a version its ledger already records,
/// and never reports a ledger conflict.
pub proof fn lemma_recorded_versions_never_rerun(
    c: Seq<Migration>,
    s0: StoreView,
    now: u64,
    s1: StoreView,
    r: Result<Option<i64>, MigrationError>,
)
    requires
        migrated(c, s0, now, s1, r),
    ensures
        forall|v: i64| applied(s0, v) ==> !run_bodies(s0, s1).contains(v),
        !(r matches Err(MigrationError::ConflictError(_))),
{
    assert forall|v: i64| applied(s0, v) implies !run_bodies(s0, s1).contains(v) by {
        lemma_max_bounds(s0, v);
    }
}

/// Whatever the order in which a catalog declares its `Up` scripts of
/// versions 1, 2, 5 and 9, a fresh store executes them as 1, 2, 5, 9.
pub proof fn lemma_versions_run_in_order(
    c: Seq<Migration>,
    s0: StoreView,
    now: u64,
    s1: StoreView,
    r: Result<Option<i64>, MigrationError>,
)
    requires
        valid_scripts(c),
        forall|v: i64| has_up(c, v) <==> (v == 1 || v == 2 || v == 5 || v == 9),
        s0.ledger is None,
        forall|v: i64| has_up(c, v) ==> !faulty(s0.faults, v),
        migrated(c, s0, now, s1, r),
    ensures
        run_bodies(s0, s1) == seq![1i64, 2, 5, 9],
{
    let a = run_bodies(s0, s1);
    lemma_fresh_store_reaches_newest(c, s0, now, s1, r);
    assert(store_max(s0) is None);
    assert(forall|v: i64| a.contains(v) <==> (v == 1 || v == 2 || v == 5 || v == 9));
    assert(strictly_increasing(a));
    assert(a.contains(1i64) && a.contains(2i64) && a.contains(5i64) && a.contains(9i64));
    let k1 = choose|k: int| 0 <= k < a.len() && a[k] == 1;
    let k2 = choose|k: int| 0 <= k < a.len() && a[k] == 2;
    let k5 = choose|k: int| 0 <= k < a.len() && a[k] == 5;
    let k9 = choose|k: int| 0 <= k < a.len() && a[k] == 9;
    assert forall|k: int| 0 <= k < a.len() implies (a[k] == 1 || a[k] == 2 || a[k] == 5 || a[k] == 9) by {
        assert(a.contains(a[k]));
    }
    assert(k1 == 0) by {
        if k1 > 0 {
            assert(a[0] < a[k1]);
        }
    }
    assert(k2 == 1) by {
        if k2 > 1 {
            assert(a[0] < a[1] && a[1] < a[k2]);
        }
    }
    assert(k5 == 2) by {
        if k5 > 2 {
            assert(a[0] < a[1] && a[1] < a[2] && a[2] < a[k5]);
        }
        if k5 < 2 {
            assert(a[k5] < a[2] || k5 == k1 || k5 == k2);
        }
    }
    assert(k9 == 3) by {
        if k9 > 3 {
            assert(a[0] < a[1] && a[1] < a[2] && a[2] < a[3] && a[3] < a[k9]);
        }
    }
    if a.len() > 4 {
        assert(a.contains(a[4]));
        assert(a[3] < a[4]);
    }
    assert(a =~= seq![1i64, 2, 5, 9]);
}

} // verus!

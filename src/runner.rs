use vstd::prelude::*;
use crate::catalog::{above, has_up, lemma_up_max, up_max, Catalog};
use crate::ledger::{lemma_entries_max, lemma_entries_max_push, LedgerEntry};
use crate::script::{is_up, Migration, MigrationError};
use crate::store::{applied, faulty, first_fault, ledger_of, store_max, Store, StoreView};

verus! {

/// Version `v` is pending for a store whose ledger tops out at `floor`.
pub open spec fn pending(c: Seq<Migration>, floor: Option<i64>, v: i64) -> bool {
    has_up(c, v) && above(v, floor)
}

/// The store is at a version above the catalog's newest.
pub open spec fn downgrade(c: Seq<Migration>, floor: Option<i64>) -> bool {
    match (floor, up_max(c)) {
        (Some(v), Some(m)) => v > m,
        _ => false,
    }
}

pub open spec fn strictly_increasing(s: Seq<i64>) -> bool {
    forall|i: int, j: int| 0 <= i < j < s.len() ==> s[i] < s[j]
}

/// The ledger entries written for the versions `vs`, all at time `now`.
pub open spec fn entries_for(vs: Seq<i64>, now: u64) -> Seq<LedgerEntry> {
    vs.map_values(|v: i64| LedgerEntry { version: v, applied_at: now })
}

/// The bodies a run from `s0` to `s1` executed.
pub open spec fn run_bodies(s0: StoreView, s1: StoreView) -> Seq<i64> {
    s1.bodies.subrange(s0.bodies.len() as int, s1.bodies.len() as int)
}

/// A run of catalog `c` at time `now` took store `s0` to `s1` with result `r`.
///
/// The run creates the ledger where absent. If the ledger's newest version is
/// above the catalog's, it stops there with `DowngradeDetected`. Otherwise it
/// executes the pending `Up` scripts (those above the ledger's newest version)
/// in increasing version order, recording each in the ledger as it commits,
/// until one fails or none is left. The result is the ledger's final newest
/// version, or the first failure.
pub open spec fn migrated(
    c: Seq<Migration>,
    s0: StoreView,
    now: u64,
    s1: StoreView,
    r: Result<Option<i64>, MigrationError>,
) -> bool {
    let v0 = store_max(s0);
    let added = run_bodies(s0, s1);
    &&& s1.faults == s0.faults
    &&& s0.bodies.len() <= s1.bodies.len()
    &&& s1.bodies.subrange(0, s0.bodies.len() as int) == s0.bodies
    &&& s1.ledger == Some(ledger_of(s0.ledger) + entries_for(added, now))
    &&& strictly_increasing(added)
    &&& if downgrade(c, v0) {
        &&& r == Err::<Option<i64>, MigrationError>(
            MigrationError::DowngradeDetected(v0->Some_0, up_max(c)->Some_0),
        )
        &&& added.len() == 0
    } else {
        match r {
            Ok(fin) => {
                &&& fin == store_max(s1)
                &&& forall|v: i64| pending(c, v0, v) ==> !faulty(s0.faults, v)
                &&& forall|v: i64| added.contains(v) <==> pending(c, v0, v)
            },
            Err(MigrationError::ScriptExecutionError(f, cause)) => {
                &&& pending(c, v0, f)
                &&& exists|i: int| first_fault(s0.faults, f, i) && cause == #[trigger] s0.faults[i].1
                &&& forall|v: i64| pending(c, v0, v) && v < f ==> !faulty(s0.faults, v)
                &&& forall|v: i64| added.contains(v) <==> (pending(c, v0, v) && v < f)
            },
            Err(_) => false,
        }
    }
}

spec fn floor_value(x: Option<i64>) -> int {
    match x {
        None => 0,
        Some(v) => v as int,
    }
}

/// Brings `store` up to the newest `Up` version of `catalog`, at time `now`.
pub fn apply_all(catalog: &Catalog, store: &mut Store, now: u64) -> (r: Result<Option<i64>, MigrationError>)
    requires
        catalog.wf(),
        old(store).wf(),
    ensures
        final(store).wf(),
        migrated(catalog@, old(store)@, now, final(store)@, r),
{
    let ghost s0 = store@;
    let ghost c = catalog@;
    let ghost v0 = store_max(s0);
    store.ensure_ledger();
    let mut cur = store.current_max_applied();
    proof {
        lemma_up_max(c);
        assert(ledger_of(s0.ledger) + entries_for(Seq::empty(), now) =~= ledger_of(s0.ledger));
        assert(run_bodies(s0, store@) =~= Seq::<i64>::empty());
        assert(store@.bodies.subrange(0, s0.bodies.len() as int) =~= s0.bodies);
    }
    match (cur, catalog.max_version()) {
        (Some(v), Some(m)) => {
            if v > m {
                return Err(MigrationError::DowngradeDetected(v, m));
            }
        },
        _ => {},
    }
    let mut result: Result<Option<i64>, MigrationError> = Ok(None);
    loop
        invariant_except_break
            catalog.wf(),
            c == catalog@,
            store.wf(),
            v0 == store_max(s0),
            !downgrade(c, v0),
            cur == store_max(store@),
            store@.faults == s0.faults,
            s0.bodies.len() <= store@.bodies.len(),
            store@.bodies.subrange(0, s0.bodies.len() as int) == s0.bodies,
            store@.ledger == Some(ledger_of(s0.ledger) + entries_for(run_bodies(s0, store@), now)),
            strictly_increasing(run_bodies(s0, store@)),
            run_bodies(s0, store@).len() == 0 ==> cur == v0,
            run_bodies(s0, store@).len() > 0 ==> cur == Some(run_bodies(s0, store@).last()),
            forall|v: i64| #[trigger] run_bodies(s0, store@).contains(v) <==> (pending(c, v0, v) && !above(v, cur)),
            forall|v: i64| pending(c, v0, v) && !above(v, cur) ==> !faulty(s0.faults, v),
            forall|v: i64| has_up(c, v) ==> (up_max(c) is Some && v <= up_max(c)->Some_0),
        ensures
            store.wf(),
            migrated(c, s0, now, store@, result),
        decreases floor_value(up_max(c)) - floor_value(cur),
    {
        match catalog.next_pending(cur) {
            None => {
                proof {
                }
                result = Ok(cur);
                proof {
                    let added = run_bodies(s0, store@);
                    assert forall|w: i64| pending(c, v0, w) implies !faulty(s0.faults, w) by {
                        assert(!above(w, cur));
                    }
                    assert forall|w: i64| added.contains(w) <==> pending(c, v0, w) by {
                        if pending(c, v0, w) {
                            assert(!above(w, cur));
                        }
                    }
                }
                break;
            },
            Some(i) => {
                let script = catalog.get(i);
                let ghost before = store@;
                let ghost added = run_bodies(s0, before);
                proof {
                    assert(has_up(c, script.version)) by {
                        assert(is_up(c[i as int]));
                    }
                    assert(!applied(before, script.version)) by {
                        lemma_entries_max(ledger_of(before.ledger));
                    }
                }
                let res = store.apply_script(script, now);
                match res {
                    Err(e) => {
                        proof {
                            let v = script.version;
                            assert(pending(c, v0, v)) by {
                                if added.len() > 0 {
                                    assert(added.contains(added.last()));
                                }
                            }
                            assert forall|w: i64| pending(c, v0, w) && w < v implies !faulty(s0.faults, w) by {
                                assert(!above(w, cur));
                            }
                            assert forall|w: i64| added.contains(w) <==> (pending(c, v0, w) && w < v) by {
                                if pending(c, v0, w) && w < v {
                                    assert(!above(w, cur));
                                }
                                if added.contains(w) {
                                    assert(!above(w, cur));
                                    if let Some(x) = cur {
                                        assert(w <= x);
                                    }
                                }
                            }
                            assert(run_bodies(s0, store@) == added);
                        }
                        result = Err(e);
                        break;
                    },
                    Ok(()) => {},
                }
                proof {
                    let v = script.version;
                    let l0 = ledger_of(before.ledger);
                    lemma_entries_max_push(l0, LedgerEntry { version: v, applied_at: now });
                    assert(run_bodies(s0, store@) =~= added.push(v));
                    assert(entries_for(added.push(v), now) =~= entries_for(added, now).push(
                        LedgerEntry { version: v, applied_at: now },
                    ));
                    assert(ledger_of(s0.ledger) + entries_for(added.push(v), now) =~= l0.push(
                        LedgerEntry { version: v, applied_at: now },
                    ));
                    assert(store@.bodies.subrange(0, s0.bodies.len() as int) =~= s0.bodies);
                    assert(pending(c, v0, v)) by {
                        if added.len() > 0 {
                            assert(added.contains(added.last()));
                        }
                    }
                    assert forall|w: i64| pending(c, v0, w) && !above(w, Some(v)) implies !faulty(s0.faults, w) by {
                        if above(w, cur) {
                            assert(w == v);
                        }
                    }
                    assert forall|w: i64| #[trigger] added.push(v).contains(w) <==> (pending(c, v0, w) && !above(w, Some(v))) by {
                        if w == v {
                            assert(added.push(v)[added.len() as int] == v);
                        }
                        if added.push(v).contains(w) {
                            let k = choose|k: int| 0 <= k < added.push(v).len() && added.push(v)[k] == w;
                            if k < added.len() {
                                assert(added.contains(w));
                            }
                        }
                        if pending(c, v0, w) && !above(w, Some(v)) {
                            if above(w, cur) {
                                assert(w == v);
                                assert(added.push(v)[added.len() as int] == v);
                            } else {
                                assert(added.contains(w));
                                let k = choose|k: int| 0 <= k < added.len() && added[k] == w;
                                assert(added.push(v)[k] == w);
                            }
                        }
                    }
                }
                cur = store.current_max_applied();
            },
        }
    }
    result
}

} // verus!

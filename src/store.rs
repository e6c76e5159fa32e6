use vstd::prelude::*;
use crate::ledger::{entries_max, recorded, unique_versions, Ledger, LedgerEntry};
use crate::script::{Migration, MigrationError};

verus! {

/// What a store holds, as far as migrations are concerned: its ledger (absent
/// on a fresh store), the versions whose bodies have taken effect, in order,
/// and the versions whose bodies its engine refuses, with the engine's message.
pub struct StoreView {
    pub ledger: Option<Seq<LedgerEntry>>,
    pub bodies: Seq<i64>,
    pub faults: Seq<(i64, String)>,
}

/// The ledger's entries; an absent ledger has none.
pub open spec fn ledger_of(l: Option<Seq<LedgerEntry>>) -> Seq<LedgerEntry> {
    match l {
        None => Seq::empty(),
        Some(s) => s,
    }
}

/// The highest version the store's ledger records.
pub open spec fn store_max(s: StoreView) -> Option<i64> {
    entries_max(ledger_of(s.ledger))
}

/// The store's ledger records version `v`.
pub open spec fn applied(s: StoreView, v: i64) -> bool {
    recorded(ledger_of(s.ledger), v)
}

/// The engine refuses the body of version `v`.
pub open spec fn faulty(f: Seq<(i64, String)>, v: i64) -> bool {
    exists|i: int| 0 <= i < f.len() && #[trigger] f[i].0 == v
}

/// Index `i` holds the first refusal of version `v`.
pub open spec fn first_fault(f: Seq<(i64, String)>, v: i64, i: int) -> bool {
    &&& 0 <= i < f.len()
    &&& f[i].0 == v
    &&& forall|j: int| 0 <= j < i ==> #[trigger] f[j].0 != v
}

/// An in-memory store: the target of a migration run.
pub struct Store {
    ledger: Option<Ledger>,
    bodies: Vec<i64>,
    faults: Vec<(i64, String)>,
}

impl View for Store {
    type V = StoreView;

    closed spec fn view(&self) -> StoreView {
        StoreView {
            ledger: match self.ledger {
                None => None,
                Some(l) => Some(l@),
            },
            bodies: self.bodies@,
            faults: self.faults@,
        }
    }
}

impl Store {
    pub open spec fn wf(&self) -> bool {
        unique_versions(ledger_of(self@.ledger))
    }

    /// A fresh store: no ledger, no schema, an engine that refuses nothing.
    pub fn new() -> (r: Store)
        ensures
            r@.ledger is None,
            r@.bodies == Seq::<i64>::empty(),
            r@.faults == Seq::<(i64, String)>::empty(),
            r.wf(),
    {
        Store { ledger: None, bodies: Vec::new(), faults: Vec::new() }
    }

    /// Makes the engine refuse the body of `version` with the message `cause`.
    pub fn reject_script(&mut self, version: i64, cause: String)
        ensures
            final(self)@ == (StoreView { faults: old(self)@.faults.push((version, cause)), ..old(self)@ }),
            final(self).wf() == old(self).wf(),
    {
        self.faults.push((version, cause));
    }

    /// Creates the ledger where it is absent; otherwise does nothing.
    pub fn ensure_ledger(&mut self)
        ensures
            final(self)@ == (StoreView { ledger: Some(ledger_of(old(self)@.ledger)), ..old(self)@ }),
            final(self).wf() == old(self).wf(),
    {
        if self.ledger.is_none() {
            self.ledger = Some(Ledger::new());
        }
    }

    /// Records `version` in the ledger, creating the ledger first where it
    /// is absent, without running any body.
    pub fn record(&mut self, version: i64, applied_at: u64) -> (r: Result<(), MigrationError>)
        requires
            old(self).wf(),
        ensures
            final(self).wf(),
            applied(old(self)@, version) ==> r == Err::<(), MigrationError>(
                MigrationError::ConflictError(version),
            ) && final(self)@ == old(self)@,
            !applied(old(self)@, version) ==> r is Ok && final(self)@ == (StoreView {
                ledger: Some(ledger_of(old(self)@.ledger).push(LedgerEntry { version, applied_at })),
                ..old(self)@
            }),
    {
        let mut l = match self.ledger.take() {
            Some(l) => l,
            None => Ledger::new(),
        };
        let r = l.record(version, applied_at);
        self.ledger = Some(l);
        r
    }

    /// The ledger, where it exists.
    pub fn ledger(&self) -> (r: Option<&Ledger>)
        ensures
            r is None <==> self@.ledger is None,
            r matches Some(l) ==> self@.ledger == Some(l@),
    {
        match &self.ledger {
            None => None,
            Some(l) => Some(l),
        }
    }

    /// The highest recorded version; `None` where the ledger is absent or empty.
    pub fn current_max_applied(&self) -> (r: Option<i64>)
        ensures
            r == store_max(self@),
    {
        match &self.ledger {
            None => None,
            Some(l) => l.current_max_applied(),
        }
    }

    /// The recorded versions, in the order they were recorded.
    pub fn applied_versions(&self) -> (r: Vec<i64>)
        ensures
            r@ == ledger_of(self@.ledger).map_values(|e: LedgerEntry| e.version),
    {
        let mut r: Vec<i64> = Vec::new();
        match &self.ledger {
            None => {},
            Some(l) => {
                let es = l.entries();
                let mut i: usize = 0;
                while i < es.len()
                    invariant
                        i <= es@.len(),
                        es@ == ledger_of(self@.ledger),
                        r@ == es@.take(i as int).map_values(|e: LedgerEntry| e.version),
                    decreases es@.len() - i,
                {
                    r.push(es[i].version);
                    i = i + 1;
                    proof {
                        assert(r@ =~= es@.take(i as int).map_values(|e: LedgerEntry| e.version));
                    }
                }
                proof {
                    assert(es@.take(i as int) =~= es@);
                }
            },
        }
        proof {
            assert(r@ =~= ledger_of(self@.ledger).map_values(|e: LedgerEntry| e.version));
        }
        r
    }

    /// The versions whose bodies have taken effect, in order of execution.
    pub fn executed(&self) -> (r: &Vec<i64>)
        ensures
            r@ == self@.bodies,
    {
        &self.bodies
    }

    /// The engine's message for the first refusal of `version`, if any.
    fn find_fault(&self, version: i64) -> (r: Option<String>)
        ensures
            r is None <==> !faulty(self@.faults, version),
            r matches Some(c) ==> exists|i: int|
                first_fault(self@.faults, version, i) && c == #[trigger] self@.faults[i].1,
    {
        let mut i: usize = 0;
        while i < self.faults.len()
            invariant
                i <= self@.faults.len(),
                self@.faults == self.faults@,
                forall|k: int| 0 <= k < i ==> #[trigger] self@.faults[k].0 != version,
            decreases self@.faults.len() - i,
        {
            if self.faults[i].0 == version {
                proof {
                    assert(first_fault(self@.faults, version, i as int));
                }
                return Some(self.faults[i].1.clone());
            }
            i = i + 1;
        }
        None
    }

    /// Runs one script as an atomic unit: the body, then the ledger entry.
    /// Where either fails the store is left exactly as it was.
    pub fn apply_script(&mut self, script: &Migration, applied_at: u64) -> (r: Result<(), MigrationError>)
        requires
            old(self).wf(),
        ensures
            final(self).wf(),
            faulty(old(self)@.faults, script.version) ==> final(self)@ == old(self)@ && exists|i: int|
                first_fault(old(self)@.faults, script.version, i) && r == Err::<(), MigrationError>(
                    MigrationError::ScriptExecutionError(script.version, #[trigger] old(self)@.faults[i].1),
                ),
            !faulty(old(self)@.faults, script.version) && applied(old(self)@, script.version) ==> r
                == Err::<(), MigrationError>(MigrationError::ConflictError(script.version))
                && final(self)@ == old(self)@,
            !faulty(old(self)@.faults, script.version) && !applied(old(self)@, script.version) ==> r
                is Ok && final(self)@ == (StoreView {
                ledger: Some(
                    ledger_of(old(self)@.ledger).push(
                        LedgerEntry { version: script.version, applied_at },
                    ),
                ),
                bodies: old(self)@.bodies.push(script.version),
                faults: old(self)@.faults,
            }),
    {
        match self.find_fault(script.version) {
            Some(cause) => {
                return Err(MigrationError::ScriptExecutionError(script.version, cause));
            },
            None => {},
        }
        let r = self.record(script.version, applied_at);
        if r.is_ok() {
            self.bodies.push(script.version);
        }
        r
    }
}

} // verus!

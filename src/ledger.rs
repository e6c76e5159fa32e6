use vstd::prelude::*;
use crate::script::MigrationError;

verus! {

/// One applied version and when it was applied.
#[derive(Clone, Copy, Debug, PartialEq, Eq, Structural)]
pub struct LedgerEntry {
    pub version: i64,
    pub applied_at: u64,
}

/// Some entry of `l` certifies version `v`.
pub open spec fn recorded(l: Seq<LedgerEntry>, v: i64) -> bool {
    exists|i: int| 0 <= i < l.len() && #[trigger] l[i].version == v
}

/// The highest version in `l`, or `None` where `l` is empty.
pub open spec fn entries_max(l: Seq<LedgerEntry>) -> Option<i64>
    decreases l.len(),
{
    if l.len() == 0 {
        None
    } else {
        let v = l.last().version;
        match entries_max(l.drop_last()) {
            None => Some(v),
            Some(x) => Some(if v > x { v } else { x }),
        }
    }
}

/// No two entries of `l` certify the same version.
pub open spec fn unique_versions(l: Seq<LedgerEntry>) -> bool {
    forall|i: int, j: int|
        0 <= i < l.len() && 0 <= j < l.len() && i != j ==> #[trigger] l[i].version
            != #[trigger] l[j].version
}

/// `entries_max` is the greatest recorded version, `None` only where none is.
pub proof fn lemma_entries_max(l: Seq<LedgerEntry>)
    ensures
        entries_max(l) is None <==> l.len() == 0,
        entries_max(l) matches Some(m) ==> recorded(l, m) && forall|v: i64|
            recorded(l, v) ==> v <= m,
    decreases l.len(),
{
    if l.len() > 0 {
        let d = l.drop_last();
        lemma_entries_max(d);
        assert forall|v: i64| recorded(l, v) <==> (recorded(d, v) || l.last().version == v) by {
            if recorded(l, v) {
                let i = choose|i: int| 0 <= i < l.len() && #[trigger] l[i].version == v;
                if i < l.len() - 1 {
                    assert(d[i] == l[i]);
                }
            }
            if recorded(d, v) {
                let i = choose|i: int| 0 <= i < d.len() && #[trigger] d[i].version == v;
                assert(l[i] == d[i]);
            }
        }
        assert(recorded(l, l.last().version)) by {
            assert(l[l.len() - 1] == l.last());
        }
        if let Some(x) = entries_max(d) {
            assert(recorded(l, x));
        }
    }
}

/// Appending an entry raises the maximum to the entry's version at least.
pub proof fn lemma_entries_max_push(l: Seq<LedgerEntry>, e: LedgerEntry)
    ensures
        entries_max(l.push(e)) == match entries_max(l) {
            None => Some(e.version),
            Some(x) => Some(if e.version > x { e.version } else { x }),
        },
{
    assert(l.push(e).drop_last() =~= l);
}

/// The durable record of which versions have been applied to a store.
pub struct Ledger {
    entries: Vec<LedgerEntry>,
}

impl View for Ledger {
    type V = Seq<LedgerEntry>;

    closed spec fn view(&self) -> Seq<LedgerEntry> {
        self.entries@
    }
}

impl Ledger {
    pub open spec fn wf(&self) -> bool {
        unique_versions(self@)
    }

    pub fn new() -> (r: Ledger)
        ensures
            r@ == Seq::<LedgerEntry>::empty(),
            r.wf(),
    {
        Ledger { entries: Vec::new() }
    }

    pub fn entries(&self) -> (r: &Vec<LedgerEntry>)
        ensures
            r@ == self@,
    {
        &self.entries
    }

    pub fn contains(&self, version: i64) -> (r: bool)
        ensures
            r == recorded(self@, version),
    {
        let mut i: usize = 0;
        while i < self.entries.len()
            invariant
                i <= self@.len(),
                self@ == self.entries@,
                forall|k: int| 0 <= k < i ==> #[trigger] self@[k].version != version,
            decreases self@.len() - i,
        {
            if self.entries[i].version == version {
                return true;
            }
            i = i + 1;
        }
        false
    }

    /// The highest recorded version, or `None` for an empty ledger.
    pub fn current_max_applied(&self) -> (r: Option<i64>)
        ensures
            r == entries_max(self@),
    {
        let mut m: Option<i64> = None;
        let mut i: usize = 0;
        while i < self.entries.len()
            invariant
                i <= self@.len(),
                self@ == self.entries@,
                m == entries_max(self@.take(i as int)),
            decreases self@.len() - i,
        {
            let v = self.entries[i].version;
            proof {
                assert(self@.take(i + 1).drop_last() =~= self@.take(i as int));
                assert(self@.take(i + 1).last() == self@[i as int]);
            }
            m = match m {
                None => Some(v),
                Some(x) => Some(if v > x { v } else { x }),
            };
            i = i + 1;
        }
        proof {
            assert(self@.take(i as int) =~= self@);
        }
        m
    }

    /// Records `version` as applied at `applied_at`; a version already
    /// recorded is a conflict and leaves the ledger as it was.
    pub fn record(&mut self, version: i64, applied_at: u64) -> (r: Result<(), MigrationError>)
        requires
            old(self).wf(),
        ensures
            final(self).wf(),
            recorded(old(self)@, version) ==> r == Err::<(), MigrationError>(
                MigrationError::ConflictError(version),
            ) && final(self)@ == old(self)@,
            !recorded(old(self)@, version) ==> r is Ok && final(self)@ == old(self)@.push(
                LedgerEntry { version, applied_at },
            ),
    {
        if self.contains(version) {
            return Err(MigrationError::ConflictError(version));
        }
        self.entries.push(LedgerEntry { version, applied_at });
        Ok(())
    }
}

} // verus!

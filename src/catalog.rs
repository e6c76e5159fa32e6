use vstd::prelude::*;
use crate::script::{is_up, Migration, MigrationKind};

verus! {

/// Some `Up` script of `c` has version `v`.
pub open spec fn has_up(c: Seq<Migration>, v: i64) -> bool {
    exists|i: int| 0 <= i < c.len() && is_up(#[trigger] c[i]) && c[i].version == v
}

/// The newest `Up` version of `c`, if it has any `Up` script.
pub open spec fn up_max(c: Seq<Migration>) -> Option<i64>
    decreases c.len(),
{
    if c.len() == 0 {
        None
    } else {
        let rest = up_max(c.drop_last());
        let m = c.last();
        if !is_up(m) {
            rest
        } else {
            match rest {
                None => Some(m.version),
                Some(x) => Some(if m.version > x { m.version } else { x }),
            }
        }
    }
}

/// Every version is positive and no two `Up` scripts share a version.
pub open spec fn valid_scripts(c: Seq<Migration>) -> bool {
    &&& forall|i: int| 0 <= i < c.len() ==> #[trigger] c[i].version > 0
    &&& forall|i: int, j: int|
        0 <= i < c.len() && 0 <= j < c.len() && i != j && is_up(#[trigger] c[i]) && is_up(
            #[trigger] c[j],
        ) ==> c[i].version != c[j].version
}

/// `v` lies above `floor`, where no floor lies below every version.
pub open spec fn above(v: i64, floor: Option<i64>) -> bool {
    match floor {
        None => true,
        Some(f) => v > f,
    }
}

/// `up_max` is the greatest `Up` version, and `None` only where there is none.
pub proof fn lemma_up_max(c: Seq<Migration>)
    ensures
        up_max(c) is None <==> forall|v: i64| !has_up(c, v),
        up_max(c) matches Some(m) ==> has_up(c, m) && forall|v: i64| has_up(c, v) ==> v <= m,
    decreases c.len(),
{
    if c.len() > 0 {
        let d = c.drop_last();
        lemma_up_max(d);
        assert forall|v: i64| has_up(c, v) <==> (has_up(d, v) || (is_up(c.last()) && c.last().version == v)) by {
            if has_up(c, v) {
                let i = choose|i: int| 0 <= i < c.len() && is_up(#[trigger] c[i]) && c[i].version == v;
                if i < c.len() - 1 {
                    assert(d[i] == c[i]);
                }
            }
            if has_up(d, v) {
                let i = choose|i: int| 0 <= i < d.len() && is_up(#[trigger] d[i]) && d[i].version == v;
                assert(c[i] == d[i]);
            }
            if is_up(c.last()) && c.last().version == v {
                assert(c[c.len() - 1] == c.last());
            }
        }
        if is_up(c.last()) {
            assert(has_up(c, c.last().version));
            if let Some(x) = up_max(d) {
                assert(has_up(c, x));
            }
        }
    }
}

/// The fixed set of scripts known to a build, in declaration order.
pub struct Catalog {
    scripts: Vec<Migration>,
}

/// Why a list of scripts cannot form a catalog.
#[derive(Clone, Copy, Debug, PartialEq, Eq, Structural)]
pub enum CatalogError {
    /// A script has a version that is not positive.
    NonPositiveVersion(i64),
    /// Two `Up` scripts share this version.
    DuplicateVersion(i64),
}

impl View for Catalog {
    type V = Seq<Migration>;

    closed spec fn view(&self) -> Seq<Migration> {
        self.scripts@
    }
}

impl Catalog {
    pub open spec fn wf(&self) -> bool {
        valid_scripts(self@)
    }

    /// Builds a catalog, refusing a non-positive version first and then a
    /// version shared by two `Up` scripts.
    pub fn new(scripts: Vec<Migration>) -> (r: Result<Catalog, CatalogError>)
        ensures
            r is Ok <==> valid_scripts(scripts@),
            r matches Ok(c) ==> c@ == scripts@ && c.wf(),
            r matches Err(CatalogError::NonPositiveVersion(v)) ==> exists|i: int|
                0 <= i < scripts@.len() && #[trigger] scripts@[i].version == v && v <= 0,
            (exists|i: int| 0 <= i < scripts@.len() && #[trigger] scripts@[i].version <= 0)
                ==> r is Err && r->Err_0 is NonPositiveVersion,
            r matches Err(CatalogError::DuplicateVersion(v)) ==> {
                &&& forall|i: int| 0 <= i < scripts@.len() ==> #[trigger] scripts@[i].version > 0
                &&& exists|i: int, j: int|
                    0 <= i < scripts@.len() && 0 <= j < scripts@.len() && i != j && is_up(
                        #[trigger] scripts@[i],
                    ) && is_up(#[trigger] scripts@[j]) && scripts@[i].version == v
                        && scripts@[j].version == v
            },
    {
        let n = scripts.len();
        let mut i: usize = 0;
        while i < n
            invariant
                n == scripts@.len(),
                i <= n,
                forall|k: int| 0 <= k < i ==> #[trigger] scripts@[k].version > 0,
            decreases n - i,
        {
            if scripts[i].version <= 0 {
                return Err(CatalogError::NonPositiveVersion(scripts[i].version));
            }
            i = i + 1;
        }
        let mut i: usize = 0;
        while i < n
            invariant
                n == scripts@.len(),
                i <= n,
                forall|k: int| 0 <= k < n ==> #[trigger] scripts@[k].version > 0,
                forall|a: int, b: int|
                    0 <= a < i && 0 <= b < n && a != b && is_up(#[trigger] scripts@[a]) && is_up(
                        #[trigger] scripts@[b],
                    ) ==> scripts@[a].version != scripts@[b].version,
            decreases n - i,
        {
            if scripts[i].kind == MigrationKind::Up {
                let mut j: usize = 0;
                while j < n
                    invariant
                        n == scripts@.len(),
                        i < n,
                        j <= n,
                        is_up(scripts@[i as int]),
                        forall|k: int| 0 <= k < n ==> #[trigger] scripts@[k].version > 0,
                        forall|b: int|
                            0 <= b < j && b != i && is_up(#[trigger] scripts@[b])
                                ==> scripts@[i as int].version != scripts@[b].version,
                    decreases n - j,
                {
                    if j != i && scripts[j].kind == MigrationKind::Up
                        && scripts[j].version == scripts[i].version {
                        proof {
                            assert(is_up(scripts@[i as int]) && is_up(scripts@[j as int]));
                        }
                        return Err(CatalogError::DuplicateVersion(scripts[i].version));
                    }
                    j = j + 1;
                }
            }
            i = i + 1;
        }
        Ok(Catalog { scripts })
    }

    pub fn len(&self) -> (r: usize)
        ensures
            r == self@.len(),
    {
        self.scripts.len()
    }

    pub fn get(&self, i: usize) -> (r: &Migration)
        requires
            i < self@.len(),
        ensures
            *r == self@[i as int],
    {
        &self.scripts[i]
    }

    /// The newest `Up` version, or `None` where the catalog has no `Up` script.
    pub fn max_version(&self) -> (r: Option<i64>)
        ensures
            r == up_max(self@),
    {
        let mut m: Option<i64> = None;
        let mut i: usize = 0;
        while i < self.scripts.len()
            invariant
                i <= self@.len(),
                self@ == self.scripts@,
                m == up_max(self@.take(i as int)),
            decreases self@.len() - i,
        {
            let s = &self.scripts[i];
            proof {
                assert(self@.take(i + 1).drop_last() =~= self@.take(i as int));
                assert(self@.take(i + 1).last() == self@[i as int]);
            }
            if s.kind == MigrationKind::Up {
                m = match m {
                    None => Some(s.version),
                    Some(x) => Some(if s.version > x { s.version } else { x }),
                };
            }
            i = i + 1;
        }
        proof {
            assert(self@.take(i as int) =~= self@);
        }
        m
    }

    /// The `Up` script with the smallest version above `floor`, if any.
    pub fn next_pending(&self, floor: Option<i64>) -> (r: Option<usize>)
        ensures
            r is None ==> forall|v: i64| has_up(self@, v) ==> !above(v, floor),
            r matches Some(i) ==> {
                &&& i < self@.len()
                &&& is_up(self@[i as int])
                &&& above(self@[i as int].version, floor)
                &&& forall|v: i64| has_up(self@, v) && above(v, floor) ==> self@[i as int].version <= v
            },
    {
        let mut best: Option<usize> = None;
        let mut i: usize = 0;
        while i < self.scripts.len()
            invariant
                i <= self@.len(),
                self@ == self.scripts@,
                best is None ==> forall|k: int|
                    0 <= k < i && is_up(#[trigger] self@[k]) ==> !above(self@[k].version, floor),
                best matches Some(b) ==> {
                    &&& b < i
                    &&& is_up(self@[b as int])
                    &&& above(self@[b as int].version, floor)
                    &&& forall|k: int|
                        0 <= k < i && is_up(#[trigger] self@[k]) && above(self@[k].version, floor)
                            ==> self@[b as int].version <= self@[k].version
                },
            decreases self@.len() - i,
        {
            let s = &self.scripts[i];
            let pending = s.kind == MigrationKind::Up && match floor {
                None => true,
                Some(f) => s.version > f,
            };
            if pending {
                match best {
                    None => {
                        best = Some(i);
                    },
                    Some(b) => {
                        if s.version < self.scripts[b].version {
                            best = Some(i);
                        }
                    },
                }
            }
            i = i + 1;
        }
        best
    }
}

} // verus!

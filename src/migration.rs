use vstd::prelude::*;

verus! {

/// Direction of a migration step; the schema only moves forward.
#[derive(Clone, Copy, Debug, PartialEq, Eq, Structural)]
pub enum MigrationKind {
    Up,
}

/// One versioned step of the schema: a forward SQL script.
#[derive(Debug)]
pub struct Migration {
    pub version: i64,
    pub description: String,
    pub sql: String,
    pub kind: MigrationKind,
}

/// Why bringing the store up to date failed. Each one aborts startup.
#[derive(Debug)]
pub enum MigrationError {
    /// The supplied list is out of order, has a duplicate or a gap, or
    /// starts below version 1; `index` is the first offending position.
    InvalidMigrationSequence { index: usize, version: i64 },
    /// The script of this step failed against the store; it was not recorded.
    MigrationFailed { version: i64, description: String },
    /// The store file could not be opened or locked.
    StoreUnavailable,
}

pub open spec fn versions(ms: Seq<Migration>) -> Seq<i64> {
    ms.map_values(|m: Migration| m.version)
}

/// Position `i` of a version list breaks the rule that versions start at 1 or
/// above and go up by exactly one from step to step.
pub open spec fn breaks_sequence(vs: Seq<i64>, i: int) -> bool {
    if i == 0 {
        vs[0] < 1
    } else {
        vs[i] != vs[i - 1] + 1
    }
}

pub open spec fn valid_sequence(vs: Seq<i64>) -> bool {
    forall|i: int| 0 <= i < vs.len() ==> !#[trigger] breaks_sequence(vs, i)
}

/// `i` is the first position at which `vs` breaks the sequence rule.
pub open spec fn first_break(vs: Seq<i64>, i: int) -> bool {
    &&& 0 <= i < vs.len()
    &&& breaks_sequence(vs, i)
    &&& forall|j: int| 0 <= j < i ==> !#[trigger] breaks_sequence(vs, j)
}

/// Checks that the versions of `ms` are unique, strictly increasing without
/// gaps, and positive; reports the first position where they are not.
pub fn validate_sequence(ms: &Vec<Migration>) -> (r: Result<(), MigrationError>)
    ensures
        r is Ok <==> valid_sequence(versions(ms@)),
        r is Err ==> match r {
            Err(MigrationError::InvalidMigrationSequence { index, version }) => first_break(
                versions(ms@),
                index as int,
            ) && version == ms@[index as int].version,
            _ => false,
        },
{
    let ghost vs = versions(ms@);
    let mut i: usize = 0;
    while i < ms.len()
        invariant
            0 <= i <= ms.len(),
            vs == versions(ms@),
            forall|j: int| 0 <= j < i ==> !#[trigger] breaks_sequence(vs, j),
        decreases ms.len() - i,
    {
        let v = ms[i].version;
        let bad = if i == 0 {
            v < 1
        } else {
            let prev = ms[i - 1].version;
            prev == i64::MAX || v != prev + 1
        };
        assert(bad == breaks_sequence(vs, i as int));
        if bad {
            return Err(MigrationError::InvalidMigrationSequence { index: i, version: v });
        }
        i = i + 1;
    }
    Ok(())
}

/// Indices into `ms` of the steps whose version `ledger` does not record, in
/// list order: the steps a run still has to execute.
pub open spec fn plan(ms: Seq<Migration>, ledger: Set<i64>) -> Seq<int>
    decreases ms.len(),
{
    if ms.len() == 0 {
        Seq::empty()
    } else {
        let p = plan(ms.drop_last(), ledger);
        if ledger.contains(ms.last().version) {
            p
        } else {
            p.push(ms.len() - 1)
        }
    }
}

/// The ledger after a complete run of `ms` on a store whose ledger was `ledger`.
pub open spec fn applied_after(ms: Seq<Migration>, ledger: Set<i64>) -> Set<i64> {
    ledger + versions(ms).to_set()
}

/// The versions of the first `n` steps of a plan.
pub open spec fn plan_versions(ms: Seq<Migration>, p: Seq<int>, n: int) -> Set<i64> {
    Set::new(|v: i64| exists|k: int| 0 <= k < n && v == ms[p[k]].version)
}

/// A plan holds, in ascending order, exactly the unrecorded steps.
pub proof fn lemma_plan_shape(ms: Seq<Migration>, ledger: Set<i64>)
    ensures
        forall|k: int|
            0 <= k < plan(ms, ledger).len() ==> {
                &&& 0 <= #[trigger] plan(ms, ledger)[k] < ms.len()
                &&& !ledger.contains(ms[plan(ms, ledger)[k]].version)
            },
        forall|k1: int, k2: int|
            0 <= k1 < k2 < plan(ms, ledger).len() ==> #[trigger] plan(ms, ledger)[k1]
                < #[trigger] plan(ms, ledger)[k2],
        forall|j: int|
            0 <= j < ms.len() && !ledger.contains(#[trigger] ms[j].version) ==> exists|k: int|
                0 <= k < plan(ms, ledger).len() && plan(ms, ledger)[k] == j,
        plan(ms, ledger).len() <= ms.len(),
    decreases ms.len(),
{
    if ms.len() > 0 {
        let ms0 = ms.drop_last();
        lemma_plan_shape(ms0, ledger);
        let p0 = plan(ms0, ledger);
        let p = plan(ms, ledger);
        assert forall|j: int|
            0 <= j < ms.len() && !ledger.contains(#[trigger] ms[j].version) implies exists|k: int|
                0 <= k < p.len() && p[k] == j by {
            if j < ms.len() - 1 {
                assert(ms0[j] == ms[j]);
                let k = choose|k: int| 0 <= k < p0.len() && p0[k] == j;
                assert(p[k] == j);
            } else {
                assert(ms.last() == ms[j]);
                assert(p == p0.push(ms.len() - 1));
                assert(p[p.len() - 1] == j);
            }
        }
        assert forall|k: int| 0 <= k < p.len() implies {
            &&& 0 <= #[trigger] p[k] < ms.len()
            &&& !ledger.contains(ms[p[k]].version)
        } by {
            if k < p0.len() {
                assert(ms0[p0[k]] == ms[p0[k]]);
            }
        }
    }
}

/// Once a ledger records every version of `ms`, nothing is left to run.
pub proof fn lemma_plan_empty_when_recorded(ms: Seq<Migration>, ledger: Set<i64>)
    requires
        forall|j: int| 0 <= j < ms.len() ==> ledger.contains(#[trigger] ms[j].version),
    ensures
        plan(ms, ledger) == Seq::<int>::empty(),
    decreases ms.len(),
{
    if ms.len() > 0 {
        let ms0 = ms.drop_last();
        assert forall|j: int| 0 <= j < ms0.len() implies ledger.contains(
            #[trigger] ms0[j].version,
        ) by {
            assert(ms0[j] == ms[j]);
        }
        lemma_plan_empty_when_recorded(ms0, ledger);
        assert(ledger.contains(ms[ms.len() - 1].version));
    }
}

/// Running a plan to its end leaves the ledger of a complete run.
pub proof fn lemma_full_plan_versions(ms: Seq<Migration>, ledger: Set<i64>)
    ensures
        ledger + plan_versions(ms, plan(ms, ledger), plan(ms, ledger).len() as int)
            == applied_after(ms, ledger),
{
    let p = plan(ms, ledger);
    lemma_plan_shape(ms, ledger);
    let lhs = ledger + plan_versions(ms, p, p.len() as int);
    let rhs = applied_after(ms, ledger);
    assert forall|v: i64| lhs.contains(v) implies rhs.contains(v) by {
        if !ledger.contains(v) {
            let k = choose|k: int| 0 <= k < p.len() && v == ms[p[k]].version;
            let j = p[k];
            assert(versions(ms)[j] == v);
        }
    }
    assert forall|v: i64| rhs.contains(v) implies lhs.contains(v) by {
        if !ledger.contains(v) {
            assert(versions(ms).contains(v));
            let j = choose|j: int| 0 <= j < versions(ms).len() && versions(ms)[j] == v;
            assert(ms[j].version == v);
            let k = choose|k: int| 0 <= k < p.len() && p[k] == j;
            assert(plan_versions(ms, p, p.len() as int).contains(v));
        }
    }
    assert(lhs =~= rhs);
}

/// Applying a migration list a second time runs no script and leaves the
/// ledger, and so the schema, as the first run left it.
pub proof fn lemma_apply_twice_same_as_once(ms: Seq<Migration>, ledger: Set<i64>)
    requires
        valid_sequence(versions(ms)),
    ensures
        plan(ms, applied_after(ms, ledger)) == Seq::<int>::empty(),
        applied_after(ms, applied_after(ms, ledger)) == applied_after(ms, ledger),
{
    let once = applied_after(ms, ledger);
    assert forall|j: int| 0 <= j < ms.len() implies once.contains(#[trigger] ms[j].version) by {
        assert(versions(ms)[j] == ms[j].version);
    }
    lemma_plan_empty_when_recorded(ms, once);
    assert(applied_after(ms, once) =~= once);
}

} // verus!

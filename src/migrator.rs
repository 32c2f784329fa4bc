use vstd::prelude::*;

use crate::migration::{
    applied_after, first_break, lemma_full_plan_versions, lemma_plan_shape, plan, plan_versions,
    valid_sequence, validate_sequence, versions, Migration, MigrationError,
};

verus! {

/// The decisions of one startup run over a migration list.
///
/// The caller owns the store: it reads the ledger, hands it to `new`, then
/// asks `next_step` for a script, runs it in one transaction together with
/// the ledger entry for its version, and reports the outcome to `record`.
pub struct Migrator {
    migrations: Vec<Migration>,
    steps: Vec<usize>,
    next: usize,
    failed: bool,
    start: Ghost<Set<i64>>,
}

impl Migrator {
    pub closed spec fn migrations(&self) -> Seq<Migration> {
        self.migrations@
    }

    /// The ledger as the store held it when the run began.
    pub closed spec fn start_ledger(&self) -> Set<i64> {
        self.start@
    }

    /// The steps of this run, as indices into the migration list.
    pub closed spec fn steps(&self) -> Seq<int> {
        self.steps@.map_values(|i: usize| i as int)
    }

    /// How many steps of this run have been applied and recorded.
    pub closed spec fn done(&self) -> int {
        self.next as int
    }

    pub closed spec fn failed(&self) -> bool {
        self.failed
    }

    pub closed spec fn wf(&self) -> bool {
        &&& valid_sequence(versions(self.migrations@))
        &&& self.steps() == plan(self.migrations@, self.start@)
        &&& self.next <= self.steps@.len()
    }

    /// The steps still to run, in order.
    pub open spec fn remaining(&self) -> Seq<int> {
        self.steps().subrange(self.done(), self.steps().len() as int)
    }

    /// The versions the store's ledger records at this point of the run.
    pub open spec fn ledger(&self) -> Set<i64> {
        self.start_ledger() + plan_versions(self.migrations(), self.steps(), self.done())
    }

    pub open spec fn complete(&self) -> bool {
        !self.failed() && self.remaining().len() == 0
    }

    /// Starts a run of `migrations` against a store whose ledger holds
    /// `recorded`. An invalid list is refused before any script runs.
    pub fn new(migrations: Vec<Migration>, recorded: &Vec<i64>) -> (r: Result<
        Migrator,
        MigrationError,
    >)
        ensures
            r is Ok <==> valid_sequence(versions(migrations@)),
            r matches Ok(m) ==> {
                &&& m.wf()
                &&& m.migrations() == migrations@
                &&& m.start_ledger() == recorded@.to_set()
                &&& m.done() == 0
                &&& !m.failed()
                &&& m.remaining() == plan(migrations@, recorded@.to_set())
                &&& m.ledger() == recorded@.to_set()
            },
            r is Err ==> match r {
                Err(MigrationError::InvalidMigrationSequence { index, version }) => first_break(
                    versions(migrations@),
                    index as int,
                ) && version == migrations@[index as int].version,
                _ => false,
            },
    {
        match validate_sequence(&migrations) {
            Err(e) => {
                return Err(e);
            },
            Ok(()) => {},
        }
        let ghost ledger = recorded@.to_set();
        let ghost ms = migrations@;
        let mut steps: Vec<usize> = Vec::new();
        let mut i: usize = 0;
        while i < migrations.len()
            invariant
                0 <= i <= migrations.len(),
                ms == migrations@,
                ledger == recorded@.to_set(),
                steps@.map_values(|k: usize| k as int) == plan(ms.subrange(0, i as int), ledger),
            decreases migrations.len() - i,
        {
            let v = migrations[i].version;
            let mut found = false;
            let mut j: usize = 0;
            while j < recorded.len()
                invariant
                    0 <= j <= recorded.len(),
                    found <==> exists|t: int| 0 <= t < j && recorded@[t] == v,
                decreases recorded.len() - j,
            {
                if recorded[j] == v {
                    found = true;
                }
                j = j + 1;
            }
            let ghost before = steps@;
            if !found {
                steps.push(i);
                assert(steps@.map_values(|k: usize| k as int) =~= before.map_values(
                    |k: usize| k as int,
                ).push(i as int));
            }
            assert(ms.subrange(0, i as int + 1).drop_last() =~= ms.subrange(0, i as int));
            assert(ms.subrange(0, i as int + 1).last() == ms[i as int]);
            i = i + 1;
        }
        assert(ms.subrange(0, ms.len() as int) =~= ms);
        let m = Migrator { migrations, steps, next: 0, failed: false, start: Ghost(ledger) };
        assert(m.remaining() =~= m.steps());
        assert(plan_versions(ms, m.steps(), 0) =~= Set::empty());
        assert(m.ledger() =~= ledger);
        Ok(m)
    }

    /// The migration to run next, if the run is neither over nor aborted.
    pub fn next_step(&self) -> (r: Option<&Migration>)
        requires
            self.wf(),
        ensures
            r is Some <==> (!self.failed() && self.remaining().len() > 0),
            r matches Some(m) ==> *m == self.migrations()[self.remaining()[0]],
    {
        if self.failed || self.next >= self.steps.len() {
            None
        } else {
            proof {
                lemma_plan_shape(self.migrations@, self.start@);
            }
            let k = self.steps[self.next];
            assert(self.steps()[self.done()] == k as int);
            Some(&self.migrations[k])
        }
    }

    /// Takes the outcome of the step that `next_step` handed out. A success
    /// records its version and moves on; a failure aborts the run, leaving
    /// the ledger as it was, and names the step.
    pub fn record(&mut self, succeeded: bool) -> (r: Result<(), MigrationError>)
        requires
            old(self).wf(),
            !old(self).failed(),
            old(self).remaining().len() > 0,
        ensures
            final(self).wf(),
            final(self).migrations() == old(self).migrations(),
            final(self).start_ledger() == old(self).start_ledger(),
            final(self).steps() == old(self).steps(),
            succeeded ==> {
                &&& r is Ok
                &&& !final(self).failed()
                &&& final(self).done() == old(self).done() + 1
                &&& final(self).remaining() == old(self).remaining().drop_first()
                &&& final(self).ledger() == old(self).ledger().insert(
                    old(self).migrations()[old(self).remaining()[0]].version,
                )
            },
            !succeeded ==> {
                &&& final(self).failed()
                &&& final(self).done() == old(self).done()
                &&& final(self).ledger() == old(self).ledger()
                &&& match r {
                    Err(MigrationError::MigrationFailed { version, description }) => {
                        &&& version == old(self).migrations()[old(self).remaining()[0]].version
                        &&& description@ == old(self).migrations()[old(
                            self,
                        ).remaining()[0]].description@
                    },
                    _ => false,
                }
            },
    {
        proof {
            lemma_plan_shape(self.migrations@, self.start@);
        }
        let n = self.steps.len();
        assert(self.steps().len() == n);
        assert(self.next < n);
        let k = self.steps[self.next];
        assert(self.steps()[self.done()] == k as int);
        if succeeded {
            let ghost old_self = *self;
            let ghost v = self.migrations@[k as int].version;
            self.next = self.next + 1;
            assert(self.remaining() =~= old_self.remaining().drop_first());
            assert(self.ledger() =~= old_self.ledger().insert(v)) by {
                let ms = self.migrations@;
                let p = self.steps();
                assert(ms[p[old_self.done()]].version == v);
            }
            Ok(())
        } else {
            self.failed = true;
            let m = &self.migrations[k];
            Err(MigrationError::MigrationFailed { version: m.version, description: m.description.clone() })
        }
    }

    /// Whether every step of the run has been applied and recorded.
    pub fn is_complete(&self) -> (r: bool)
        requires
            self.wf(),
        ensures
            r == self.complete(),
    {
        !self.failed && self.next >= self.steps.len()
    }

    /// A run that completes leaves the ledger holding what it held before and
    /// every version of the list.
    pub proof fn lemma_complete_ledger(&self)
        requires
            self.wf(),
            self.complete(),
        ensures
            self.ledger() == applied_after(self.migrations(), self.start_ledger()),
    {
        lemma_full_plan_versions(self.migrations@, self.start@);
    }
}

} // verus!

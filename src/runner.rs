//! Planning and driving a migration run, one atomic step at a time.
//!
//! A run starts from the registry, the ledger rows read from the database
//! and a target. It then hands out one step at a time: the caller executes
//! the step's SQL together with the matching ledger write (insert for a
//! forward step, delete for a backward one) in one transaction, and reports
//! the outcome back. The run halts at the first failure and never rolls back
//! steps that already committed.

use vstd::prelude::*;
use crate::migration::{
    MigrationDescriptor, MigrationError, MigrationRegistry, is_prefix_ledger, ledger_consistent,
    strictly_ascending, top_of,
};

verus! {

/// Which way a run moves the schema.
#[derive(Clone, Copy, Debug, PartialEq, Eq, Structural)]
pub enum Direction {
    /// Apply forward SQL, in ascending version order.
    Up,
    /// Apply backward SQL, in descending version order.
    Down,
}

/// What the caller observed when it executed one step.
#[derive(Clone, Debug)]
pub enum StepOutcome {
    /// The step's SQL and its ledger write committed together.
    Committed,
    /// The step's SQL failed; its transaction did not commit.
    Failed { cause: String },
    /// The database could not be reached; the step did not commit.
    ConnectionLost { cause: String },
}

/// Where a run stands.
#[derive(Clone, Debug)]
pub enum RunState {
    /// Steps remain to be executed.
    Applying,
    /// Every planned step committed; the target is reached.
    Done,
    /// A step did not commit; the run halted there.
    Failed { error: MigrationError },
}

/// One step to execute: the descriptor, and whether to apply its forward
/// SQL and insert its ledger row, or its backward SQL and delete that row.
pub struct Step<'a> {
    pub descriptor: &'a MigrationDescriptor,
    pub direction: Direction,
}

/// The versions that a forward run from `k` applied versions to `g`
/// applies, in order.
pub open spec fn up_steps(reg: Seq<u64>, k: int, g: int) -> Seq<u64> {
    reg.subrange(k, g)
}

/// The versions that a backward run from `k` applied versions to `g`
/// reverts, in order.
pub open spec fn down_steps(reg: Seq<u64>, k: int, g: int) -> Seq<u64> {
    reg.subrange(g, k).reverse()
}

/// `g` is the number of versions applied once a forward run reaches
/// `target` (`None`: the newest version).
pub open spec fn up_goal(reg: Seq<u64>, target: Option<u64>, g: int) -> bool {
    match target {
        None => g == reg.len(),
        Some(v) => 0 < g <= reg.len() && reg[g - 1] == v,
    }
}

/// `g` is the number of versions applied once a backward run reaches
/// `target` (`None`: before the first migration).
pub open spec fn down_goal(reg: Seq<u64>, target: Option<u64>, g: int) -> bool {
    match target {
        None => g == 0,
        Some(v) => 0 < g <= reg.len() && reg[g - 1] == v,
    }
}

/// The target names a version of the registry, or is `None`.
pub open spec fn known_target(reg: Seq<u64>, target: Option<u64>) -> bool {
    match target {
        None => true,
        Some(v) => reg.contains(v),
    }
}

/// A migration run in progress.
pub struct MigrationRunner<'a> {
    registry: &'a MigrationRegistry,
    direction: Direction,
    applied: usize,
    goal: usize,
    state: RunState,
}

impl<'a> MigrationRunner<'a> {
    pub closed spec fn registry(&self) -> &'a MigrationRegistry {
        self.registry
    }

    pub closed spec fn dir(&self) -> Direction {
        self.direction
    }

    /// How many versions, from the first, the ledger holds now.
    pub closed spec fn applied_count(&self) -> int {
        self.applied as int
    }

    /// How many versions, from the first, the ledger holds at the target.
    pub closed spec fn goal_count(&self) -> int {
        self.goal as int
    }

    pub closed spec fn run_state(&self) -> RunState {
        self.state
    }

    pub open spec fn is_applying(&self) -> bool {
        self.run_state() is Applying
    }

    /// The versions recorded in the ledger.
    pub open spec fn ledger(&self) -> Set<u64> {
        self.registry()@.take(self.applied_count()).to_set()
    }

    /// The highest applied version.
    pub open spec fn current(&self) -> Option<u64> {
        top_of(self.registry()@, self.applied_count())
    }

    /// The versions still to be stepped through, in the order of execution.
    pub open spec fn pending(&self) -> Seq<u64> {
        if !self.is_applying() {
            Seq::empty()
        } else if self.dir() == Direction::Up {
            up_steps(self.registry()@, self.applied_count(), self.goal_count())
        } else {
            down_steps(self.registry()@, self.applied_count(), self.goal_count())
        }
    }

    pub closed spec fn wf(&self) -> bool {
        &&& self.registry.wf()
        &&& self.applied <= self.registry@.len()
        &&& self.goal <= self.registry@.len()
        &&& self.direction == Direction::Up ==> self.applied <= self.goal
        &&& self.direction == Direction::Down ==> self.goal <= self.applied
        &&& self.state is Applying ==> self.applied != self.goal
        &&& self.state is Done ==> self.applied == self.goal
    }

    /// Plans a forward run to `target`, or to the newest version when
    /// `target` is `None`, from the ledger `rows`.
    ///
    /// Fails with `UnknownVersion` when the target is not in the registry;
    /// otherwise with `LedgerInvariantViolation` when the rows are not the
    /// first few versions of the registry; otherwise with
    /// `NoMigrationsToRun` when the ledger already reaches the target.
    pub fn start_up(registry: &'a MigrationRegistry, rows: &Vec<u64>, target: Option<u64>) -> (r: Result<
        MigrationRunner<'a>,
        MigrationError,
    >)
        requires
            registry.wf(),
        ensures
            match r {
                Err(MigrationError::UnknownVersion { version }) => target == Some(version)
                    && !registry@.contains(version),
                Err(MigrationError::LedgerInvariantViolation { .. }) => known_target(registry@, target)
                    && !ledger_consistent(registry@, rows@.to_set()),
                Err(MigrationError::NoMigrationsToRun) => exists|k: int, g: int|
                    is_prefix_ledger(registry@, rows@.to_set(), k) && up_goal(registry@, target, g) && g <= k,
                Ok(run) => {
                    &&& run.wf()
                    &&& run.registry() == registry
                    &&& run.dir() == Direction::Up
                    &&& run.is_applying()
                    &&& is_prefix_ledger(registry@, rows@.to_set(), run.applied_count())
                    &&& up_goal(registry@, target, run.goal_count())
                    &&& run.applied_count() < run.goal_count()
                    &&& run.pending() == up_steps(registry@, run.applied_count(), run.goal_count())
                },
                Err(_) => false,
            },
            (target is Some && exists|k: int|
                is_prefix_ledger(registry@, rows@.to_set(), k) && top_of(registry@, k) == target)
                ==> r matches Err(MigrationError::NoMigrationsToRun),
    {
        let n = registry.len();
        let g: usize = match target {
            None => n,
            Some(v) => match registry.resolve(v) {
                Ok(i) => i + 1,
                Err(e) => return Err(e),
            },
        };
        let k = match registry.ledger_count(rows) {
            Ok(k) => k,
            Err(e) => return Err(e),
        };
        proof {
            if target is Some && exists|k2: int|
                is_prefix_ledger(registry@, rows@.to_set(), k2) && top_of(registry@, k2) == target {
                let k2 = choose|k2: int|
                    is_prefix_ledger(registry@, rows@.to_set(), k2) && top_of(registry@, k2) == target;
                lemma_prefix_unique(registry@, rows@.to_set(), k as int, k2);
                assert(registry@[g - 1] == registry@[k - 1]);
                if g - 1 < k - 1 {
                    assert(registry@[g - 1] < registry@[k - 1]);
                } else if g - 1 > k - 1 {
                    assert(registry@[k - 1] < registry@[g - 1]);
                }
            }
        }
        if g <= k {
            assert(is_prefix_ledger(registry@, rows@.to_set(), k as int) && up_goal(registry@, target, g as int));
            return Err(MigrationError::NoMigrationsToRun);
        }
        Ok(MigrationRunner { registry, direction: Direction::Up, applied: k, goal: g, state: RunState::Applying })
    }

    /// Plans a backward run to `target`, or to before the first migration
    /// when `target` is `None`, from the ledger `rows`.
    ///
    /// Fails with `UnknownVersion` when the target is not in the registry;
    /// otherwise with `LedgerInvariantViolation` when the rows are not the
    /// first few versions of the registry; otherwise with
    /// `NoMigrationsToRun` when the ledger already stands at or below the
    /// target.
    pub fn start_down(registry: &'a MigrationRegistry, rows: &Vec<u64>, target: Option<u64>) -> (r: Result<
        MigrationRunner<'a>,
        MigrationError,
    >)
        requires
            registry.wf(),
        ensures
            match r {
                Err(MigrationError::UnknownVersion { version }) => target == Some(version)
                    && !registry@.contains(version),
                Err(MigrationError::LedgerInvariantViolation { .. }) => known_target(registry@, target)
                    && !ledger_consistent(registry@, rows@.to_set()),
                Err(MigrationError::NoMigrationsToRun) => exists|k: int, g: int|
                    is_prefix_ledger(registry@, rows@.to_set(), k) && down_goal(registry@, target, g) && k <= g,
                Ok(run) => {
                    &&& run.wf()
                    &&& run.registry() == registry
                    &&& run.dir() == Direction::Down
                    &&& run.is_applying()
                    &&& is_prefix_ledger(registry@, rows@.to_set(), run.applied_count())
                    &&& down_goal(registry@, target, run.goal_count())
                    &&& run.goal_count() < run.applied_count()
                    &&& run.pending() == down_steps(registry@, run.applied_count(), run.goal_count())
                },
                Err(_) => false,
            },
    {
        let n = registry.len();
        let g: usize = match target {
            None => 0,
            Some(v) => match registry.resolve(v) {
                Ok(i) => i + 1,
                Err(e) => return Err(e),
            },
        };
        let k = match registry.ledger_count(rows) {
            Ok(k) => k,
            Err(e) => return Err(e),
        };
        if k <= g {
            assert(is_prefix_ledger(registry@, rows@.to_set(), k as int) && down_goal(registry@, target, g as int));
            return Err(MigrationError::NoMigrationsToRun);
        }
        Ok(MigrationRunner { registry, direction: Direction::Down, applied: k, goal: g, state: RunState::Applying })
    }
    /// The next step to execute, or `None` once the run is done or halted.
    pub fn next_step(&self) -> (r: Option<Step<'a>>)
        requires
            self.wf(),
        ensures
            r is Some <==> self.is_applying(),
            r matches Some(step) ==> {
                &&& step.direction == self.dir()
                &&& step.descriptor.version == self.pending()[0]
                &&& self.registry().holds(*step.descriptor)
            },
    {
        match self.state {
            RunState::Applying => {
                let i: usize = if self.direction == Direction::Up {
                    self.applied
                } else {
                    self.applied - 1
                };
                let descriptor = self.registry.descriptor(i);
                Some(Step { descriptor, direction: self.direction })
            },
            _ => None,
        }
    }

    /// Takes in the outcome of the step that `next_step` handed out.
    ///
    /// A committed step moves the ledger by that one version; the run is
    /// done when the target is reached. Any other outcome halts the run at
    /// that version with the ledger as it was.
    pub fn record(&mut self, outcome: StepOutcome)
        requires
            old(self).wf(),
            old(self).is_applying(),
        ensures
            final(self).wf(),
            final(self).registry() == old(self).registry(),
            final(self).dir() == old(self).dir(),
            final(self).goal_count() == old(self).goal_count(),
            match outcome {
                StepOutcome::Committed => {
                    &&& final(self).pending() == old(self).pending().drop_first()
                    &&& old(self).dir() == Direction::Up ==> final(self).applied_count()
                        == old(self).applied_count() + 1 && final(self).ledger()
                        == old(self).ledger().insert(old(self).pending()[0])
                    &&& old(self).dir() == Direction::Down ==> final(self).applied_count()
                        == old(self).applied_count() - 1 && final(self).ledger()
                        == old(self).ledger().remove(old(self).pending()[0])
                    &&& final(self).run_state() is Done || final(self).is_applying()
                    &&& (final(self).run_state() is Done <==> final(self).applied_count()
                        == final(self).goal_count())
                },
                StepOutcome::Failed { cause } => {
                    &&& final(self).applied_count() == old(self).applied_count()
                    &&& final(self).run_state() == RunState::Failed {
                        error: MigrationError::StepExecutionFailure { version: old(self).pending()[0], cause },
                    }
                },
                StepOutcome::ConnectionLost { cause } => {
                    &&& final(self).applied_count() == old(self).applied_count()
                    &&& final(self).run_state() == RunState::Failed {
                        error: MigrationError::ConnectionFailure { version: old(self).pending()[0], cause },
                    }
                },
            },
    {
        let ghost reg = self.registry@;
        let ghost k = self.applied as int;
        let ghost g = self.goal as int;
        let i: usize = if self.direction == Direction::Up {
            self.applied
        } else {
            self.applied - 1
        };
        let version = self.registry.descriptor(i).version;
        assert(version == old(self).pending()[0]) by {
            if self.direction == Direction::Up {
                assert(up_steps(reg, k, g)[0] == reg[k]);
            } else {
                assert(down_steps(reg, k, g)[0] == reg[k - 1]);
            }
        }
        match outcome {
            StepOutcome::Committed => {
                if self.direction == Direction::Up {
                    self.applied = self.applied + 1;
                    proof {
                        assert(reg.take(k + 1) == reg.take(k).push(reg[k]));
                        reg.take(k).lemma_push_to_set_commute(reg[k]);
                    }
                } else {
                    self.applied = self.applied - 1;
                    proof {
                        assert(reg.take(k) == reg.take(k - 1).push(reg[k - 1]));
                        assert(!reg.take(k - 1).contains(reg[k - 1])) by {
                            if reg.take(k - 1).contains(reg[k - 1]) {
                                let x = choose|x: int| 0 <= x < k - 1 && #[trigger] reg.take(k - 1)[x] == reg[k - 1];
                                assert(reg[x] < reg[k - 1]);
                            }
                        }
                        assert(reg.take(k - 1).to_set() =~= reg.take(k - 1).push(reg[k - 1]).to_set().remove(reg[k - 1]));
                    }
                }
                if self.applied == self.goal {
                    self.state = RunState::Done;
                }
                proof {
                    if self.direction == Direction::Up {
                        assert(up_steps(reg, k + 1, g) =~= up_steps(reg, k, g).drop_first());
                    } else {
                        assert(down_steps(reg, k - 1, g) =~= down_steps(reg, k, g).drop_first());
                    }
                }
            },
            StepOutcome::Failed { cause } => {
                self.state = RunState::Failed { error: MigrationError::StepExecutionFailure { version, cause } };
            },
            StepOutcome::ConnectionLost { cause } => {
                self.state = RunState::Failed { error: MigrationError::ConnectionFailure { version, cause } };
            },
        }
    }

    /// The run's result once no step remains: the version reached, or the
    /// error at which it halted.
    pub fn finish(self) -> (r: Result<Option<u64>, MigrationError>)
        requires
            self.wf(),
            !self.is_applying(),
        ensures
            match self.run_state() {
                RunState::Failed { error } => r == Err::<Option<u64>, MigrationError>(error),
                _ => r == Ok::<Option<u64>, MigrationError>(self.current()),
            },
    {
        let cur = self.current_version();
        match self.state {
            RunState::Failed { error } => Err(error),
            _ => Ok(cur),
        }
    }

    /// The highest applied version, as the ledger stands now.
    pub fn current_version(&self) -> (r: Option<u64>)
        requires
            self.wf(),
        ensures
            r == self.current(),
    {
        if self.applied == 0 {
            None
        } else {
            Some(self.registry.descriptor(self.applied - 1).version)
        }
    }

    /// The direction of the run.
    pub fn direction(&self) -> (r: Direction)
        ensures
            r == self.dir(),
    {
        self.direction
    }
}

/// The ledger rows determine how many versions they cover.
pub proof fn lemma_prefix_unique(reg: Seq<u64>, rows: Set<u64>, k1: int, k2: int)
    requires
        strictly_ascending(reg),
        is_prefix_ledger(reg, rows, k1),
        is_prefix_ledger(reg, rows, k2),
    ensures
        k1 == k2,
{
    if k1 < k2 {
        assert(reg.take(k2)[k1] == reg[k1]);
        assert(reg.take(k2).to_set().contains(reg[k1]));
        assert(!reg.take(k1).to_set().contains(reg[k1])) by {
            if reg.take(k1).contains(reg[k1]) {
                let x = choose|x: int| 0 <= x < k1 && reg.take(k1)[x] == reg[k1];
                assert(reg[x] < reg[k1]);
            }
        }
    } else if k2 < k1 {
        assert(reg.take(k1)[k2] == reg[k2]);
        assert(reg.take(k1).to_set().contains(reg[k2]));
        assert(!reg.take(k2).to_set().contains(reg[k2])) by {
            if reg.take(k2).contains(reg[k2]) {
                let x = choose|x: int| 0 <= x < k2 && reg.take(k2)[x] == reg[k2];
                assert(reg[x] < reg[k2]);
            }
        }
    }
}

/// Applies `step` for each of `versions`, first to last, starting from `s`.
pub open spec fn replay<S>(step: spec_fn(u64, S) -> S, versions: Seq<u64>, s: S) -> S
    decreases versions.len(),
{
    if versions.len() == 0 {
        s
    } else {
        step(versions.last(), replay(step, versions.drop_last(), s))
    }
}

proof fn lemma_replay_prepend<S>(step: spec_fn(u64, S) -> S, x: u64, rest: Seq<u64>, s: S)
    ensures
        replay(step, seq![x] + rest, s) == replay(step, rest, step(x, s)),
    decreases rest.len(),
{
    if rest.len() == 0 {
        assert(seq![x] + rest =~= seq![x]);
        assert(seq![x].drop_last() =~= Seq::<u64>::empty());
        assert(replay(step, Seq::<u64>::empty(), s) == s);
        assert(replay(step, seq![x], s) == step(x, replay(step, seq![x].drop_last(), s)));
    } else {
        let init = rest.drop_last();
        assert((seq![x] + rest).drop_last() =~= seq![x] + init);
        assert((seq![x] + rest).last() == rest.last());
        lemma_replay_prepend(step, x, init, s);
        assert(replay(step, seq![x] + rest, s) == step(rest.last(), replay(step, seq![x] + init, s)));
    }
}

proof fn lemma_replay_undo<S>(forward: spec_fn(u64, S) -> S, backward: spec_fn(u64, S) -> S, xs: Seq<u64>, s: S)
    requires
        forall|v: u64, x: S| #[trigger] backward(v, forward(v, x)) == x,
    ensures
        replay(backward, xs.reverse(), replay(forward, xs, s)) == s,
    decreases xs.len(),
{
    if xs.len() == 0 {
        assert(xs.reverse() =~= Seq::<u64>::empty());
    } else {
        let init = xs.drop_last();
        let x = xs.last();
        let t = replay(forward, init, s);
        assert(xs.reverse() =~= seq![x] + init.reverse());
        lemma_replay_prepend(backward, x, init.reverse(), forward(x, t));
        lemma_replay_undo(forward, backward, init, s);
    }
}

/// Round trip. From an empty ledger, a forward run to the newest version
/// steps through every version in ascending order and leaves the ledger
/// full; from a full ledger, a backward run to before the first migration
/// steps through them in descending order. When each backward step undoes
/// its forward step, the two runs together restore the state they started
/// from.
pub proof fn lemma_round_trip<S>(
    registry: &MigrationRegistry,
    forward: spec_fn(u64, S) -> S,
    backward: spec_fn(u64, S) -> S,
    s: S,
)
    requires
        registry.wf(),
        forall|v: u64, x: S| #[trigger] backward(v, forward(v, x)) == x,
    ensures
        forall|k: int| is_prefix_ledger(registry@, Set::<u64>::empty(), k) ==> k == 0,
        forall|k: int| is_prefix_ledger(registry@, registry@.to_set(), k) ==> k == registry@.len(),
        forall|g: int| up_goal(registry@, None, g) ==> g == registry@.len(),
        forall|g: int| down_goal(registry@, None, g) ==> g == 0,
        is_prefix_ledger(registry@, registry@.to_set(), registry@.len() as int),
        replay(
            backward,
            down_steps(registry@, registry@.len() as int, 0),
            replay(forward, up_steps(registry@, 0, registry@.len() as int), s),
        ) == s,
{
    let reg = registry@;
    let n = reg.len() as int;
    assert(reg.take(0).to_set() =~= Set::<u64>::empty());
    assert(reg.take(n) =~= reg);
    assert forall|k: int| is_prefix_ledger(reg, Set::<u64>::empty(), k) implies k == 0 by {
        lemma_prefix_unique(reg, Set::<u64>::empty(), k, 0);
    }
    assert forall|k: int| is_prefix_ledger(reg, reg.to_set(), k) implies k == n by {
        lemma_prefix_unique(reg, reg.to_set(), k, n);
    }
    assert(up_steps(reg, 0, n) =~= reg);
    assert(down_steps(reg, n, 0) =~= reg.reverse());
    lemma_replay_undo(forward, backward, reg, s);
}

/// Once a forward run to `v` is done, `v` is the highest applied version and
/// the ledger holds exactly the registry's versions up to `v`.
pub proof fn lemma_up_done(run: &MigrationRunner, v: u64)
    requires
        run.wf(),
        run.dir() == Direction::Up,
        run.run_state() is Done,
        up_goal(run.registry()@, Some(v), run.goal_count()),
    ensures
        run.current() == Some(v),
        run.ledger() == Set::new(|x: u64| run.registry()@.contains(x) && x <= v),
{
    let reg = run.registry()@;
    let g = run.goal_count();
    assert(run.applied_count() == g);
    assert forall|x: u64| run.ledger().contains(x) <==> (reg.contains(x) && x <= v) by {
        if run.ledger().contains(x) {
            let i = choose|i: int| 0 <= i < g && #[trigger] reg.take(g)[i] == x;
            assert(reg[i] == x);
            if i < g - 1 {
                assert(reg[i] < reg[g - 1]);
            }
        }
        if reg.contains(x) && x <= v {
            let i = choose|i: int| 0 <= i < reg.len() && reg[i] == x;
            if i > g - 1 {
                assert(reg[g - 1] < reg[i]);
            }
            assert(reg.take(g)[i] == x);
        }
    }
    assert(run.ledger() =~= Set::new(|x: u64| reg.contains(x) && x <= v));
}

} // verus!

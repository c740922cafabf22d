//! Running the processes of one example, under one of two policies.
//!
//! Starting, waiting on and sleeping for processes is left to the caller;
//! this module decides when each process is started, which outcomes are
//! collected, and what they add up to.

use vstd::prelude::*;
use crate::config::{ExampleConfig, ProcessModel, ProcessSpec, processes_view};

verus! {

/// How the processes of an example are run and their outcomes collected.
#[derive(Clone, Copy, Debug, PartialEq, Eq, Structural)]
pub enum Policy {
    /// One worker per process, each delaying, spawning and waiting on its
    /// own; workers are joined in order and the first failure ends the
    /// collection.
    FailFast,
    /// A single launcher delays and spawns each process in turn, then
    /// waits on every spawned process in order; no failure stops it.
    BestEffort,
}

impl Policy {
    /// The policy chosen by a fail-fast flag.
    pub fn from_fail_fast(fail_fast: bool) -> (r: Policy)
        ensures
            r == (if fail_fast { Policy::FailFast } else { Policy::BestEffort }),
    {
        if fail_fast {
            Policy::FailFast
        } else {
            Policy::BestEffort
        }
    }
}

/// How one launched process ended.
#[derive(Clone, Copy, Debug, PartialEq, Eq, Structural)]
pub enum Status {
    Success,
    /// It ran and exited unsuccessfully; `code` is its exit code, `None`
    /// where it was ended by a signal.
    NonZeroExit { code: Option<i32> },
    /// It could not be started.
    SpawnFailure,
    /// Its termination could not be observed.
    WaitFailure,
}

/// The status of a process that exited with `code` (`None`: ended by a
/// signal). Only an exit code of zero is a success.
pub fn exit_status(code: Option<i32>) -> (r: Status)
    ensures
        r == (if code == Some(0i32) { Status::Success } else { Status::NonZeroExit { code } }),
{
    match code {
        Some(0i32) => Status::Success,
        _ => Status::NonZeroExit { code },
    }
}

/// The recorded end of one process.
#[derive(Clone, Debug)]
pub struct Outcome {
    /// 1-based position of the process in its example.
    pub index: usize,
    pub path: String,
    pub status: Status,
}

/// What a run of one example adds up to.
#[derive(Clone, Debug)]
pub struct RunResult {
    /// The outcomes collected, in collection order.
    pub outcomes: Vec<Outcome>,
    /// Every collected outcome is a success.
    pub overall_success: bool,
}

/// One start of a process: how long to sleep first, then which process.
#[derive(Clone, Copy, Debug, PartialEq, Eq, Structural)]
pub struct Launch {
    /// 1-based position of the process in its example.
    pub index: usize,
    /// Seconds to sleep before the spawn; `None` for no sleep.
    pub sleep: Option<u64>,
}

/// The sleep before a process is started: its delay, where that is set
/// and not zero.
pub open spec fn sleep_of(p: ProcessModel) -> Option<u64> {
    match p.delay {
        Some(d) => if d > 0 {
            Some(d)
        } else {
            None
        },
        None => None,
    }
}

/// The starts of the processes `ps`, in configuration order.
pub open spec fn launches_of(ps: Seq<ProcessModel>) -> Seq<Launch> {
    Seq::new(ps.len(), |i: int| Launch { index: (i + 1) as usize, sleep: sleep_of(ps[i]) })
}

/// The sleep before a process is started.
pub fn startup_delay(p: &ProcessSpec) -> (r: Option<u64>)
    ensures
        r == sleep_of(p@),
{
    match p.delay {
        Some(d) => if d > 0 {
            Some(d)
        } else {
            None
        },
        None => None,
    }
}

/// The starts of an example's processes, in configuration order. Under
/// [`Policy::BestEffort`] the launcher performs them one after the other;
/// under [`Policy::FailFast`] each is performed by its own worker.
pub fn launch_plan(c: &ExampleConfig) -> (r: Vec<Launch>)
    ensures
        r@ == launches_of(c@.processes),
{
    let mut plan: Vec<Launch> = Vec::new();
    let mut i: usize = 0;
    while i < c.processes.len()
        invariant
            i <= c.processes@.len(),
            plan@ =~= launches_of(processes_view(c.processes@)).subrange(0, i as int),
        decreases c.processes@.len() - i,
    {
        let sleep = startup_delay(&c.processes[i]);
        plan.push(Launch { index: i + 1, sleep });
        i = i + 1;
    }
    plan
}


/// The launcher starts the processes one by one in configuration order,
/// and before each spawn it sleeps exactly that process's own delay: the
/// spawn of process `i + 1` follows the spawn of process `i` after a sleep
/// of the delay of process `i + 1`.
pub proof fn lemma_launches_in_order(ps: Seq<ProcessModel>, i: int)
    requires
        0 <= i < ps.len(),
        ps.len() <= usize::MAX,
    ensures
        launches_of(ps).len() == ps.len(),
        launches_of(ps)[i].index == i + 1,
        launches_of(ps)[i].sleep == sleep_of(ps[i]),
        i + 1 < ps.len() ==> launches_of(ps)[i + 1].index == launches_of(ps)[i].index + 1
            && launches_of(ps)[i + 1].sleep == sleep_of(ps[i + 1]),
{
}

/// Every outcome is a success.
pub open spec fn all_success(os: Seq<Outcome>) -> bool {
    forall|i: int| 0 <= i < os.len() ==> (#[trigger] os[i]).status == Status::Success
}

/// Collects the outcomes of a run, in the order in which the caller
/// observes them, and decides when to stop.
pub struct Tally {
    policy: Policy,
    outcomes: Vec<Outcome>,
    failed: bool,
}

impl Tally {
    pub closed spec fn policy(&self) -> Policy {
        self.policy
    }

    /// The outcomes collected so far.
    pub closed spec fn collected(&self) -> Seq<Outcome> {
        self.outcomes@
    }

    /// No further outcome is collected: the policy is fail-fast and a
    /// failure has been collected.
    pub open spec fn stopped(&self) -> bool {
        self.policy() == Policy::FailFast && !all_success(self.collected())
    }

    pub closed spec fn wf(&self) -> bool {
        &&& self.failed == !all_success(self.outcomes@)
        &&& self.policy == Policy::FailFast ==> forall|i: int|
            0 <= i < self.outcomes@.len() - 1 ==> (#[trigger] self.outcomes@[i]).status == Status::Success
    }

    /// An empty tally under `policy`.
    pub fn new(policy: Policy) -> (r: Tally)
        ensures
            r.wf(),
            r.policy() == policy,
            r.collected() == Seq::<Outcome>::empty(),
    {
        let r = Tally { policy, outcomes: Vec::new(), failed: false };
        assert(r.outcomes@ =~= Seq::<Outcome>::empty());
        r
    }

    /// Collects the next observed outcome, unless the tally has stopped;
    /// returns whether further outcomes are to be observed.
    pub fn record(&mut self, outcome: Outcome) -> (keep_going: bool)
        requires
            old(self).wf(),
        ensures
            final(self).wf(),
            final(self).policy() == old(self).policy(),
            old(self).stopped() ==> final(self).collected() == old(self).collected() && !keep_going,
            !old(self).stopped() ==> final(self).collected() == old(self).collected().push(outcome),
            keep_going == !final(self).stopped(),
            !old(self).stopped() ==> keep_going == (old(self).policy() == Policy::BestEffort
                || outcome.status == Status::Success),
    {
        if self.policy == Policy::FailFast && self.failed {
            return false;
        }
        let ghost before = self.outcomes@;
        let success = outcome.status == Status::Success;
        self.outcomes.push(outcome);
        if !success {
            self.failed = true;
            assert(!all_success(self.outcomes@)) by {
                assert(self.outcomes@[before.len() as int] == outcome);
            }
        } else {
            assert(all_success(self.outcomes@) == all_success(before)) by {
                if all_success(before) {
                    assert forall|i: int| 0 <= i < self.outcomes@.len() implies (#[trigger] self.outcomes@[i]).status
                        == Status::Success by {
                        if i < before.len() {
                            assert(self.outcomes@[i] == before[i]);
                        }
                    }
                } else {
                    let k = choose|k: int| 0 <= k < before.len() && before[k].status != Status::Success;
                    assert(self.outcomes@[k] == before[k]);
                }
            }
        }
        assert forall|i: int| 0 <= i < before.len() implies self.outcomes@[i] == #[trigger] before[i] by {}
        !(self.policy == Policy::FailFast && self.failed)
    }

    /// The result of the run: the collected outcomes, and whether all of
    /// them are successes. Under the fail-fast policy only the last
    /// collected outcome can be a failure.
    pub fn finish(self) -> (r: RunResult)
        requires
            self.wf(),
        ensures
            r.outcomes@ == self.collected(),
            r.overall_success == all_success(self.collected()),
            self.policy() == Policy::FailFast ==> forall|i: int|
                0 <= i < r.outcomes@.len() - 1 ==> (#[trigger] r.outcomes@[i]).status == Status::Success,
    {
        let overall_success = !self.failed;
        RunResult { outcomes: self.outcomes, overall_success }
    }
}

} // verus!

//! The agent: it watches the processes that rules name, starts a limiter on one that stays hot, and
//! stops the limiter once the process has cooled down.

use std::collections::HashMap;

use vstd::prelude::*;

use crate::app::limiters;
use crate::app::limiters::cpulimit_pids_by_target;
use crate::app::plan;
use crate::app::plan::{plan_tick, CommandLine};
use crate::app::tick;
use crate::app::tick::{Tick, TickRequest, TickRequestView};
use crate::clock::{local_now, plus_seconds, Moment, Timestamp, MAX_SECS};
use crate::infra::command::CommandReply;
use crate::infra::process_snapshot::ProcessEntry;
use crate::lists::has_number;
use crate::model::{Domain, Rule, StateFile, StateView};
use crate::store;
use crate::store::{
    add_watch_instance_at, remove_instance_by_pid, update_instance_cpu, WatchInstanceUpdate,
    WatchUpdateView,
};

verus! {

broadcast use vstd::std_specs::hash::group_hash_axioms;

/// Hot samples in a row before a limiter is started.
pub const HOT_REQUIRED_SAMPLES: u8 = 2;

/// Cold samples in a row before a limiter is stopped.
pub const COLD_REQUIRED_SAMPLES: u8 = 2;

/// How long a target is left alone after its limiter was lost or could not be started.
pub const BACKOFF_SECS: i64 = 60;

/// The number of limiters that the agent keeps at a time.
pub const MAX_WATCH_INSTANCES: usize = 8;

/// Seconds between two looks at an idle system.
pub const IDLE_SCAN_SECS: u64 = 30;

/// Seconds between two looks at a hot system.
pub const HOT_SCAN_SECS: u64 = 5;

/// The label of the agent, by which it marks the limiters that it started.
pub const AGENT_LABEL: &'static str = "com.cpuguard.agent";

/// Whether a tick saw a hot process.
#[derive(Clone, Copy, Debug, PartialEq, Eq, Structural)]
pub enum AgentTickActivity {
    Idle,
    Hot,
}

impl AgentTickActivity {
    /// The seconds to wait before the next tick.
    pub fn next_sleep(self) -> (r: u64)
        ensures
            r == match self {
                AgentTickActivity::Idle => IDLE_SCAN_SECS,
                AgentTickActivity::Hot => HOT_SCAN_SECS,
            },
            self is Idle ==> r == 30,
            self is Hot ==> r == 5,
    {
        match self {
            AgentTickActivity::Idle => IDLE_SCAN_SECS,
            AgentTickActivity::Hot => HOT_SCAN_SECS,
        }
    }
}

/// What the agent remembers of a process from tick to tick.
#[derive(Clone, Copy, Debug, PartialEq, Eq, Structural)]
pub struct TargetRuntime {
    pub hot_samples: u8,
    pub cold_samples: u8,
    pub backoff_until: Option<Moment>,
}

/// What is remembered of a process that the agent has not met.
pub open spec fn fresh() -> TargetRuntime {
    TargetRuntime { hot_samples: 0, cold_samples: 0, backoff_until: None }
}

/// What is remembered of the process `pid`.
pub open spec fn recalled(targets: Map<u32, TargetRuntime>, pid: u32) -> TargetRuntime {
    if targets.contains_key(pid) {
        targets[pid]
    } else {
        fresh()
    }
}

/// Whether a process is still left alone at `now`.
pub open spec fn backed_off(t: TargetRuntime, now: Moment) -> bool {
    t.backoff_until is Some && t.backoff_until->0.is_after(now)
}

/// One more sample in a row.
pub open spec fn one_more(samples: u8) -> u8 {
    if samples == u8::MAX {
        u8::MAX
    } else {
        (samples + 1) as u8
    }
}

impl TargetRuntime {
    /// Whether the process is still left alone at `now`.
    pub(crate) fn is_backed_off(&self, now: Moment) -> (r: bool)
        ensures
            r == backed_off(*self, now),
    {
        match self.backoff_until {
            Some(until) => until.after(now),
            None => false,
        }
    }
}

/// What the agent remembers from tick to tick: its targets by process id.
#[derive(Debug)]
pub struct AgentRuntime {
    targets: HashMap<u32, TargetRuntime>,
}

impl View for AgentRuntime {
    type V = Map<u32, TargetRuntime>;

    closed spec fn view(&self) -> Map<u32, TargetRuntime> {
        self.targets@
    }
}

impl Default for AgentRuntime {
    /// An agent that has met no process yet.
    fn default() -> (r: AgentRuntime)
        ensures
            r@ == Map::<u32, TargetRuntime>::empty(),
    {
        AgentRuntime::new()
    }
}

impl AgentRuntime {
    /// An agent that has met no process yet.
    pub fn new() -> (r: AgentRuntime)
        ensures
            r@ == Map::<u32, TargetRuntime>::empty(),
    {
        AgentRuntime { targets: HashMap::new() }
    }

    /// What is remembered of the process `pid`.
    pub fn recall(&self, pid: u32) -> (r: TargetRuntime)
        ensures
            r == recalled(self@, pid),
    {
        match self.targets.get(&pid) {
            Some(t) => *t,
            None => TargetRuntime { hot_samples: 0, cold_samples: 0, backoff_until: None },
        }
    }

    /// Remembers `t` of the process `pid`.
    pub(crate) fn keep(&mut self, pid: u32, t: TargetRuntime)
        ensures
            final(self)@ == old(self)@.insert(pid, t),
    {
        self.targets.insert(pid, t);
    }

    /// Forgets the processes that are neither present nor left alone.
    pub(crate) fn retain(&mut self, present: &Vec<u32>, now: Moment)
        ensures
            final(self)@ == retained(old(self)@, present@, now),
    {
        let ghost before = self.targets@;
        let ghost all = vstd::std_specs::iter::IteratorSpec::remaining(&self.targets.iter());
        let ghost mut seen: Set<u32> = Set::empty();
        let mut kept: HashMap<u32, TargetRuntime> = HashMap::new();
        for pair in it: self.targets.iter()
            invariant
                it.seq() == all,
                before == self.targets@,
                forall|j: int|
                    0 <= j < all.len() ==> before.contains_key(*(#[trigger] all[j]).0)
                        && before[*all[j].0] == *all[j].1,
                forall|j: int| 0 <= j < it.index() ==> seen.contains(*(#[trigger] all[j]).0),
                kept@ == retained(before, present@, now).restrict(seen),
        {
            let (pid, t) = pair;
            proof {
                assert(*pid == *all[it.index() as int].0 && *t == *all[it.index() as int].1);
                seen = seen.insert(*pid);
            }
            if has_number(present, *pid) || t.is_backed_off(now) {
                kept.insert(*pid, *t);
            }
            assert(kept@ =~= retained(before, present@, now).restrict(seen));
        }
        assert forall|k: u32| before.contains_key(k) implies seen.contains(k) by {
            assert(all.contains((&k, &before[k])));
        }
        assert(kept@ =~= retained(before, present@, now));
        self.targets = kept;
    }
}

/// What is left to remember at `now` when the processes `present` exist.
pub open spec fn retained(
    targets: Map<u32, TargetRuntime>,
    present: Seq<u32>,
    now: Moment,
) -> Map<u32, TargetRuntime> {
    targets.restrict(
        Set::new(|pid: u32| present.contains(pid) || backed_off(recalled(targets, pid), now)),
    )
}

/// The agent of a domain.
#[derive(Clone, Copy, Debug)]
pub struct Agent {
    pub domain: Domain,
}

/// The state after a request of a tick was carried out in it: a limiter forgotten, a load
/// recorded, or a limiter added. The other requests leave it as it is.
pub open spec fn entered(
    domain: Domain,
    s: StateView,
    request: TickRequestView,
    named_at: Timestamp,
    started_at: Timestamp,
) -> StateView {
    match request {
        TickRequestView::Forget { cpulimit_pid } => store::without_limiter(s, cpulimit_pid),
        TickRequestView::Record { cpulimit_pid, cpu } => store::with_observation(
            s,
            cpulimit_pid,
            cpu,
        ),
        TickRequestView::Remember {
            cpulimit_pid,
            target_pid,
            rule_name,
            limit,
            cpu,
        } => store::with_watch(
            s,
            WatchUpdateView {
                cpulimit_pid,
                target_pid,
                rule_name,
                limit,
                last_observed_cpu: cpu,
                domain,
                owner_label: AGENT_LABEL@,
            },
            named_at,
            started_at,
        ),
        _ => s,
    }
}

/// Whether carrying out a request changes what is on record.
pub open spec fn needs_saving(s: StateView, request: TickRequestView) -> bool {
    match request {
        TickRequestView::Forget { cpulimit_pid } => store::is_recorded(s, cpulimit_pid),
        TickRequestView::Record { cpulimit_pid, cpu } => store::is_recorded(s, cpulimit_pid),
        TickRequestView::Remember { .. } => true,
        _ => false,
    }
}

/// The time until which a target is left alone when something fails at `now`, unless the calendar
/// ends before that.
pub fn backoff_deadline(now: Moment) -> (r: Option<Moment>)
    requires
        now.on_calendar(),
    ensures
        r == if now.secs + BACKOFF_SECS <= MAX_SECS {
            Some(now.later(BACKOFF_SECS as int))
        } else {
            None
        },
        r matches Some(until) ==> until.secs == now.secs + 60,
{
    plus_seconds(now, BACKOFF_SECS)
}

impl Agent {
    /// Carries out a request of a tick in the state. Says whether the state is to be saved.
    pub fn enter_at(
        &self,
        state: &mut StateFile,
        request: &TickRequest,
        named_at: Timestamp,
        started_at: Timestamp,
    ) -> (r: bool)
        requires
            named_at.at.on_calendar(),
        ensures
            final(state)@ == entered(self.domain, old(state)@, request@, named_at, started_at),
            r == needs_saving(old(state)@, request@),
    {
        match request {
            TickRequest::Forget { cpulimit_pid } => remove_instance_by_pid(state, *cpulimit_pid),
            TickRequest::Record { cpulimit_pid, cpu } => update_instance_cpu(
                state,
                *cpulimit_pid,
                *cpu,
            ),
            TickRequest::Remember { cpulimit_pid, target_pid, rule_name, limit, cpu } => {
                add_watch_instance_at(
                    state,
                    WatchInstanceUpdate {
                        cpulimit_pid: *cpulimit_pid,
                        target_pid: *target_pid,
                        rule_name: rule_name.as_str(),
                        limit: *limit,
                        last_observed_cpu: *cpu,
                        domain: self.domain,
                        owner_label: AGENT_LABEL,
                    },
                    named_at,
                    started_at,
                );
                true
            },
            _ => false,
        }
    }

    /// Carries out a request of a tick in the state now. Says whether the state is to be saved.
    pub fn enter(&self, state: &mut StateFile, request: &TickRequest) -> (r: bool)
        ensures
            exists|named_at: Timestamp, started_at: Timestamp|
                named_at.at.on_calendar() && started_at.at.on_calendar() && final(state)@
                    == #[trigger] entered(
                    self.domain,
                    old(state)@,
                    request@,
                    named_at,
                    started_at,
                ),
            r == needs_saving(old(state)@, request@),
    {
        let named_at = local_now();
        let started_at = local_now();
        self.enter_at(state, request, named_at, started_at)
    }

    /// Begins a tick at `now`. `ps` is the reply to the query for all command lines, and `lines`
    /// holds the command lines of the processes that rules ask for.
    pub fn tick_with_snapshot_at(
        &self,
        runtime: AgentRuntime,
        rules: &Vec<Rule>,
        snapshot: &Vec<ProcessEntry>,
        state: &StateFile,
        ps: &Option<CommandReply>,
        lines: &Vec<CommandLine>,
        now: Moment,
        deadline: Moment,
    ) -> (r: Tick)
        ensures
            r@.well_formed(),
            r@ == tick::begun(
                plan::sighting(
                    self.domain,
                    rules@,
                    snapshot@,
                    state.instances@,
                    limiters::running_limiters(*ps),
                    lines@,
                ).plan(now, deadline),
                runtime@,
            ),
    {
        let running = cpulimit_pids_by_target(ps);
        let plan = plan_tick(
            self.domain,
            rules,
            snapshot,
            &state.instances,
            &running,
            lines,
            now,
            deadline,
        );
        Tick::begin(plan, runtime)
    }

    /// Begins a tick at `now`. Targets are left alone for [`BACKOFF_SECS`] seconds when something
    /// fails. Where the calendar ends before that, there is no tick, and the memory is handed back.
    pub fn begin_tick_at(
        &self,
        runtime: AgentRuntime,
        rules: &Vec<Rule>,
        snapshot: &Vec<ProcessEntry>,
        state: &StateFile,
        ps: &Option<CommandReply>,
        lines: &Vec<CommandLine>,
        now: Moment,
    ) -> (r: Result<Tick, AgentRuntime>)
        requires
            now.on_calendar(),
        ensures
            match r {
                Ok(t) => {
                    &&& now.secs + BACKOFF_SECS <= MAX_SECS
                    &&& t@.well_formed()
                    &&& t@ == tick::begun(
                        plan::sighting(
                            self.domain,
                            rules@,
                            snapshot@,
                            state.instances@,
                            limiters::running_limiters(*ps),
                            lines@,
                        ).plan(now, now.later(BACKOFF_SECS as int)),
                        runtime@,
                    )
                },
                Err(kept) => now.secs + BACKOFF_SECS > MAX_SECS && kept@ == runtime@,
            },
    {
        match backoff_deadline(now) {
            Some(deadline) => Ok(
                self.tick_with_snapshot_at(
                    runtime,
                    rules,
                    snapshot,
                    state,
                    ps,
                    lines,
                    now,
                    deadline,
                ),
            ),
            None => Err(runtime),
        }
    }

    /// Begins a tick as [`Agent::begin_tick_at`] does, at the time that the clock shows. Which time
    /// that is, and so whether the calendar ends too soon, is not said.
    pub fn tick_with_snapshot(
        &self,
        runtime: AgentRuntime,
        rules: &Vec<Rule>,
        snapshot: &Vec<ProcessEntry>,
        state: &StateFile,
        ps: &Option<CommandReply>,
        lines: &Vec<CommandLine>,
    ) -> (r: Result<Tick, AgentRuntime>)
        ensures
            match r {
                Ok(t) => t@.well_formed() && exists|now: Moment|
                    now.on_calendar() && now.secs + BACKOFF_SECS <= MAX_SECS && t@
                        == #[trigger] tick::begun(
                        plan::sighting(
                            self.domain,
                            rules@,
                            snapshot@,
                            state.instances@,
                            limiters::running_limiters(*ps),
                            lines@,
                        ).plan(now, now.later(BACKOFF_SECS as int)),
                        runtime@,
                    ),
                Err(kept) => kept@ == runtime@,
            },
    {
        let now = local_now().at;
        self.begin_tick_at(runtime, rules, snapshot, state, ps, lines, now)
    }
}

} // verus!

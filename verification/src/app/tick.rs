//! One tick of the agent, as a dialogue: it asks for one action at a time and goes on by the reply.

use std::collections::HashSet;

use vstd::prelude::*;

use crate::app::agent;
use crate::app::agent::{
    AgentRuntime, AgentTickActivity, TargetRuntime, COLD_REQUIRED_SAMPLES, HOT_REQUIRED_SAMPLES,
    MAX_WATCH_INSTANCES,
};
use crate::app::limiters;
use crate::app::limiters::stop_cpulimit_pids;
use crate::app::plan::{CandidateView, ItemView, PlanView, TickPlan};
use crate::cpu::CpuPercent;
use crate::text;
use crate::text::{owned, to_decimal};

verus! {

broadcast use vstd::std_specs::hash::group_hash_axioms;

/// What a tick asks for.
#[derive(Debug)]
pub enum TickRequest {
    /// Is the limiter alive?
    Probe { cpulimit_pid: u32 },
    /// Stop the limiter.
    Stop { cpulimit_pid: u32 },
    /// Remove the limiter from the state.
    Forget { cpulimit_pid: u32 },
    /// Record the load of the limiter's target in the state.
    Record { cpulimit_pid: u32, cpu: CpuPercent },
    /// Start a limiter.
    Start { target_pid: u32, limit: u16 },
    /// Add the limiter to the state.
    Remember {
        cpulimit_pid: u32,
        target_pid: u32,
        rule_name: String,
        limit: u16,
        cpu: CpuPercent,
    },
}

/// What a [`TickRequest`] says.
pub enum TickRequestView {
    Probe { cpulimit_pid: u32 },
    Stop { cpulimit_pid: u32 },
    Forget { cpulimit_pid: u32 },
    Record { cpulimit_pid: u32, cpu: CpuPercent },
    Start { target_pid: u32, limit: u16 },
    Remember {
        cpulimit_pid: u32,
        target_pid: u32,
        rule_name: Seq<char>,
        limit: u16,
        cpu: CpuPercent,
    },
}

impl View for TickRequest {
    type V = TickRequestView;

    open spec fn view(&self) -> TickRequestView {
        match *self {
            TickRequest::Probe { cpulimit_pid } => TickRequestView::Probe { cpulimit_pid },
            TickRequest::Stop { cpulimit_pid } => TickRequestView::Stop { cpulimit_pid },
            TickRequest::Forget { cpulimit_pid } => TickRequestView::Forget { cpulimit_pid },
            TickRequest::Record { cpulimit_pid, cpu } => TickRequestView::Record {
                cpulimit_pid,
                cpu,
            },
            TickRequest::Start { target_pid, limit } => TickRequestView::Start {
                target_pid,
                limit,
            },
            TickRequest::Remember {
                cpulimit_pid,
                target_pid,
                rule_name,
                limit,
                cpu,
            } => TickRequestView::Remember {
                cpulimit_pid,
                target_pid,
                rule_name: rule_name@,
                limit,
                cpu,
            },
        }
    }
}

/// The reply to a request. To a probe, `Done` says that the limiter is alive. A limiter is started
/// only by the reply `Started`, with its process id.
#[derive(Clone, Copy, Debug, PartialEq, Eq, Structural)]
pub enum TickReply {
    Done,
    Failed,
    Started(u32),
}

/// What the tick is waiting for.
#[derive(Clone, Copy, Debug, PartialEq, Eq, Structural)]
pub enum Stage {
    /// Whether the limiter at hand is alive.
    Probe,
    /// The stop of a limiter that has lost its rule or its target.
    StopLost,
    /// The stop of limiters that outlived the one at hand.
    ClearOrphans,
    /// The removal of a limiter that is gone.
    ForgetLost,
    /// The stop of limiters that double the one at hand.
    ClearDuplicates,
    /// The record of the target's load.
    Record,
    /// The stop of a limiter that is no longer needed.
    StopReleased,
    /// The removal of a limiter that is no longer needed.
    ForgetReleased,
    /// The start of a limiter.
    Start,
    /// The record of a new limiter.
    Remember(u32),
    /// The stop of a new limiter that could not be recorded.
    Undo(u32),
    /// Nothing: the tick is over.
    Over,
}

/// A tick under way: what it has decided so far, the stage, and the position among the recorded
/// limiters or, later, among the candidates.
#[verifier::ext_equal]
pub struct TickView {
    pub plan: PlanView,
    pub targets: Map<u32, TargetRuntime>,
    pub limited: Set<u32>,
    pub active: nat,
    pub activity: AgentTickActivity,
    pub stage: Stage,
    pub at: nat,
    pub outcomes: Seq<bool>,
    pub warnings: Seq<Seq<char>>,
}

/// One limiter less.
pub open spec fn one_less(active: nat) -> nat {
    if active == 0 {
        0
    } else {
        (active - 1) as nat
    }
}

/// The warning when limiters that double the one on `target_pid` could not be stopped.
pub open spec fn cleanup_warning(target_pid: u32, failed: Seq<u32>) -> Seq<char> {
    "cpuguard agent duplicate cleanup failed for PID "@ + text::decimal(target_pid as nat) + ": "@
        + limiters::stop_failure(failed)
}

impl TickView {
    /// The recorded limiter at hand.
    pub open spec fn item(self) -> ItemView {
        self.plan.items[self.at as int]
    }

    /// The candidate at hand.
    pub open spec fn candidate(self) -> CandidateView {
        self.plan.candidates[self.at as int]
    }

    /// Whether the tick looks after recorded limiters.
    pub open spec fn on_items(self) -> bool {
        match self.stage {
            Stage::Probe | Stage::StopLost | Stage::ClearOrphans | Stage::ForgetLost
            | Stage::ClearDuplicates | Stage::Record | Stage::StopReleased
            | Stage::ForgetReleased => true,
            _ => false,
        }
    }

    /// Whether the tick is starting a limiter.
    pub open spec fn on_candidates(self) -> bool {
        match self.stage {
            Stage::Start | Stage::Remember(_) | Stage::Undo(_) => true,
            _ => false,
        }
    }

    /// What holds of every tick under way.
    pub open spec fn well_formed(self) -> bool {
        &&& self.on_items() ==> self.at < self.plan.items.len() && self.active <= self.at + 1
        &&& self.on_candidates() ==> self.at < self.plan.candidates.len() && self.active
            < MAX_WATCH_INSTANCES
        &&& self.stage is Over ==> self.at == self.plan.candidates.len()
        &&& self.stage is ClearOrphans || self.stage is ClearDuplicates ==> self.outcomes.len()
            < self.item().duplicates.len()
        &&& self.stage is ClearDuplicates || self.stage is Record ==> self.item().load is Some
            && self.item().hold is Some
    }

    /// What the tick remembers of `pid`.
    pub open spec fn recalled(self, pid: u32) -> TargetRuntime {
        agent::recalled(self.targets, pid)
    }

    /// The tick, with `t` remembered of `pid`.
    pub open spec fn keeping(self, pid: u32, t: TargetRuntime) -> TickView {
        TickView { targets: self.targets.insert(pid, t), ..self }
    }

    /// The tick, with `pid` left alone from now on, and its hot samples as given.
    pub open spec fn leaving_alone(self, pid: u32, hot_samples: u8) -> TickView {
        self.keeping(
            pid,
            TargetRuntime {
                backoff_until: Some(self.plan.deadline),
                hot_samples,
                ..self.recalled(pid)
            },
        )
    }

    /// The tick with the recorded limiter at position `i` at hand: it counts, and its target is
    /// limited. Past the last one come the candidates.
    pub open spec fn to_item(self, i: nat) -> TickView {
        if i < self.plan.items.len() {
            TickView {
                limited: self.limited.insert(self.plan.items[i as int].target_pid),
                active: self.active + 1,
                stage: Stage::Probe,
                at: i,
                ..self
            }
        } else {
            self.to_candidate(0)
        }
    }

    /// The tick, done with the recorded limiter at hand.
    pub open spec fn next_item(self) -> TickView {
        self.to_item(self.at + 1)
    }

    /// Whether the candidate at hand is hot.
    pub open spec fn is_hot(self) -> bool {
        !self.candidate().cpu.is_below(self.candidate().trigger_cpu)
    }

    /// Whether a limiter may be started on the candidate at hand: it has none, and the agent can
    /// keep another one.
    pub open spec fn is_free(self) -> bool {
        &&& !self.limited.contains(self.candidate().pid)
        &&& !self.candidate().taken
        &&& self.active < MAX_WATCH_INSTANCES
    }

    /// Whether the candidate at hand is left alone.
    pub open spec fn is_backed_off(self) -> bool {
        agent::backed_off(self.recalled(self.candidate().pid), self.plan.now)
    }

    /// The tick, having looked at the candidate at hand: a sample more for a hot one on which a
    /// limiter may be started, none for one that is not hot.
    pub open spec fn sampled(self) -> TickView {
        let pid = self.candidate().pid;
        let known = self.recalled(pid);
        if !self.is_hot() {
            self.keeping(pid, TargetRuntime { hot_samples: 0, ..known })
        } else {
            let hot = TickView { activity: AgentTickActivity::Hot, ..self };
            if !self.is_free() {
                hot
            } else if self.is_backed_off() {
                hot.keeping(pid, known)
            } else {
                hot.keeping(
                    pid,
                    TargetRuntime { hot_samples: agent::one_more(known.hot_samples), ..known },
                )
            }
        }
    }

    /// Whether the candidate at hand gets a limiter: with this sample it has been hot often enough.
    pub open spec fn is_due(self) -> bool {
        &&& self.is_hot()
        &&& self.is_free()
        &&& !self.is_backed_off()
        &&& agent::one_more(self.recalled(self.candidate().pid).hot_samples)
            >= HOT_REQUIRED_SAMPLES
    }

    /// The tick at the first candidate from position `c` on that gets a limiter. Past the last one
    /// the tick is over, and forgets the processes that are gone.
    pub open spec fn to_candidate(self, c: nat) -> TickView
        decreases self.plan.candidates.len() - c,
    {
        let here = TickView { at: c, ..self };
        if c >= self.plan.candidates.len() {
            TickView {
                targets: agent::retained(self.targets, self.plan.present, self.plan.now),
                stage: Stage::Over,
                at: self.plan.candidates.len(),
                ..self
            }
        } else if here.is_due() {
            TickView { stage: Stage::Start, ..here.sampled() }
        } else {
            here.sampled().to_candidate(c + 1)
        }
    }

    /// The tick, done with the candidate at hand.
    pub open spec fn next_candidate(self) -> TickView {
        self.to_candidate(self.at + 1)
    }

    /// The tick at the next limiter to clear away. When all of them are, the target is left alone,
    /// and the limiter at hand is forgotten; it is kept if one of them could not be stopped.
    pub open spec fn clearing_orphans(self) -> TickView {
        if self.outcomes.len() < self.item().duplicates.len() {
            TickView { stage: Stage::ClearOrphans, ..self }
        } else if limiters::failed_pids(self.item().duplicates, self.outcomes).len() > 0 {
            self.next_item()
        } else {
            let pid = self.item().target_pid;
            TickView {
                stage: Stage::ForgetLost,
                ..self.leaving_alone(pid, self.recalled(pid).hot_samples)
            }
        }
    }

    /// The tick at the next limiter to clear away. When all of them are, the target's load is
    /// recorded; if one of them could not be stopped, a warning is left instead.
    pub open spec fn clearing_duplicates(self) -> TickView {
        let failed = limiters::failed_pids(self.item().duplicates, self.outcomes);
        if self.outcomes.len() < self.item().duplicates.len() {
            TickView { stage: Stage::ClearDuplicates, ..self }
        } else if failed.len() > 0 {
            TickView {
                warnings: self.warnings.push(cleanup_warning(self.item().target_pid, failed)),
                ..self
            }.next_item()
        } else {
            TickView { stage: Stage::Record, ..self }
        }
    }

    /// The tick, knowing whether the limiter at hand is alive.
    pub open spec fn probed(self, alive: bool) -> TickView {
        let cleared = TickView { outcomes: Seq::empty(), ..self };
        if alive && self.item().load is Some && self.item().hold is Some {
            cleared.clearing_duplicates()
        } else if alive {
            TickView { stage: Stage::StopLost, ..self }
        } else if self.item().load is Some {
            cleared.clearing_orphans()
        } else {
            TickView { stage: Stage::ForgetLost, ..self }
        }
    }

    /// The cold samples of the target at hand, with this one.
    pub open spec fn cold_samples(self) -> u8 {
        if self.item().load->0.is_at_most(self.item().hold->0.release_cpu) {
            agent::one_more(self.recalled(self.item().target_pid).cold_samples)
        } else {
            0
        }
    }

    /// The tick, done with recording the load of the target at hand. The limiter is stopped if its
    /// target is no longer what the rule names, or has been cold often enough.
    pub open spec fn recorded(self) -> TickView {
        let pid = self.item().target_pid;
        let known = self.recalled(pid);
        let counted = TickView {
            activity: if self.item().load->0.is_at_most(self.item().hold->0.release_cpu) {
                self.activity
            } else {
                AgentTickActivity::Hot
            },
            ..self.keeping(pid, TargetRuntime { cold_samples: self.cold_samples(), ..known })
        };
        if !self.item().hold->0.still_matches {
            TickView { stage: Stage::StopReleased, ..self }
        } else if self.cold_samples() >= COLD_REQUIRED_SAMPLES {
            TickView { stage: Stage::StopReleased, ..counted }
        } else {
            counted.next_item()
        }
    }

    /// The tick, with one limiter less.
    pub open spec fn without_one(self) -> TickView {
        TickView { active: one_less(self.active), ..self }
    }

    /// The tick, with the target of the limiter at hand no longer limited.
    pub open spec fn freed(self) -> TickView {
        TickView { limited: self.limited.remove(self.item().target_pid), ..self }
    }

    /// The tick, with a limiter on the candidate at hand.
    pub open spec fn with_new(self) -> TickView {
        let pid = self.candidate().pid;
        TickView { active: self.active + 1, limited: self.limited.insert(pid), ..self }.keeping(
            pid,
            TargetRuntime { hot_samples: 0, cold_samples: 0, ..self.recalled(pid) },
        )
    }

    /// The tick, after a reply.
    pub open spec fn answered(self, reply: TickReply) -> TickView {
        let done = reply is Done;
        match self.stage {
            Stage::Probe => self.probed(done),
            Stage::StopLost => if done {
                TickView { stage: Stage::ForgetLost, ..self }
            } else {
                self.next_item()
            },
            Stage::ClearOrphans => TickView {
                outcomes: self.outcomes.push(done),
                ..self
            }.clearing_orphans(),
            Stage::ForgetLost => self.without_one().next_item(),
            Stage::ClearDuplicates => TickView {
                outcomes: self.outcomes.push(done),
                ..self
            }.clearing_duplicates(),
            Stage::Record => self.recorded(),
            Stage::StopReleased => if done {
                TickView { stage: Stage::ForgetReleased, ..self }
            } else {
                self.next_item()
            },
            Stage::ForgetReleased => self.without_one().freed().next_item(),
            Stage::Start => match reply {
                TickReply::Started(pid) => TickView { stage: Stage::Remember(pid), ..self },
                _ => self.leaving_alone(self.candidate().pid, 0).next_candidate(),
            },
            Stage::Remember(pid) => if done {
                self.with_new().next_candidate()
            } else {
                TickView { stage: Stage::Undo(pid), ..self }
            },
            Stage::Undo(_) => self.leaving_alone(self.candidate().pid, 0).next_candidate(),
            Stage::Over => self,
        }
    }

    /// What the tick asks for; nothing when it is over.
    pub open spec fn asks(self) -> Option<TickRequestView> {
        let own = self.item().cpulimit_pid;
        match self.stage {
            Stage::Probe => Some(TickRequestView::Probe { cpulimit_pid: own }),
            Stage::StopLost | Stage::StopReleased => Some(
                TickRequestView::Stop { cpulimit_pid: own },
            ),
            Stage::ClearOrphans | Stage::ClearDuplicates => Some(
                TickRequestView::Stop {
                    cpulimit_pid: self.item().duplicates[self.outcomes.len() as int],
                },
            ),
            Stage::ForgetLost | Stage::ForgetReleased => Some(
                TickRequestView::Forget { cpulimit_pid: own },
            ),
            Stage::Record => Some(
                TickRequestView::Record { cpulimit_pid: own, cpu: self.item().load->0 },
            ),
            Stage::Start => Some(
                TickRequestView::Start {
                    target_pid: self.candidate().pid,
                    limit: self.candidate().limit,
                },
            ),
            Stage::Remember(pid) => Some(
                TickRequestView::Remember {
                    cpulimit_pid: pid,
                    target_pid: self.candidate().pid,
                    rule_name: self.candidate().rule_name,
                    limit: self.candidate().limit,
                    cpu: self.candidate().cpu,
                },
            ),
            Stage::Undo(pid) => Some(TickRequestView::Stop { cpulimit_pid: pid }),
            Stage::Over => None,
        }
    }
}

/// A tick that has just begun.
pub open spec fn begun(plan: PlanView, targets: Map<u32, TargetRuntime>) -> TickView {
    TickView {
        plan,
        targets,
        limited: Set::empty(),
        active: 0,
        activity: AgentTickActivity::Idle,
        stage: Stage::Over,
        at: 0,
        outcomes: Seq::empty(),
        warnings: Seq::empty(),
    }.to_item(0)
}

/// A tick under way.
#[derive(Debug)]
pub struct Tick {
    plan: TickPlan,
    runtime: AgentRuntime,
    limited: HashSet<u32>,
    active: usize,
    activity: AgentTickActivity,
    stage: Stage,
    at: usize,
    outcomes: Vec<bool>,
    warnings: Vec<String>,
}

impl View for Tick {
    type V = TickView;

    closed spec fn view(&self) -> TickView {
        TickView {
            plan: self.plan@,
            targets: self.runtime@,
            limited: self.limited@,
            active: self.active as nat,
            activity: self.activity,
            stage: self.stage,
            at: self.at as nat,
            outcomes: self.outcomes@,
            warnings: text::texts(self.warnings@),
        }
    }
}

/// One more sample in a row.
fn one_more(samples: u8) -> (r: u8)
    ensures
        r == agent::one_more(samples),
{
    if samples == u8::MAX {
        u8::MAX
    } else {
        samples + 1
    }
}

impl Tick {
    /// Begins a tick.
    pub fn begin(plan: TickPlan, runtime: AgentRuntime) -> (r: Tick)
        ensures
            r@ == begun(plan@, runtime@),
            r@.well_formed(),
    {
        let mut tick = Tick {
            plan,
            runtime,
            limited: HashSet::new(),
            active: 0,
            activity: AgentTickActivity::Idle,
            stage: Stage::Over,
            at: 0,
            outcomes: Vec::new(),
            warnings: Vec::new(),
        };
        assert(tick@ =~= TickView {
            plan: plan@,
            targets: runtime@,
            limited: Set::empty(),
            active: 0,
            activity: AgentTickActivity::Idle,
            stage: Stage::Over,
            at: 0,
            outcomes: Seq::empty(),
            warnings: Seq::empty(),
        });
        tick.to_item(0);
        tick
    }

    /// Goes to the recorded limiter at position `i`.
    fn to_item(&mut self, i: usize)
        requires
            i <= old(self)@.plan.items.len(),
            old(self)@.active <= i,
        ensures
            final(self)@ == old(self)@.to_item(i as nat),
            final(self)@.well_formed(),
    {
        if i < self.plan.items.len() {
            self.limited.insert(self.plan.items[i].target_pid);
            self.active = self.active + 1;
            self.stage = Stage::Probe;
            self.at = i;
            assert(self@ =~= old(self)@.to_item(i as nat));
        } else {
            self.to_candidate(0);
        }
    }

    /// Goes to the first candidate from position `c` on that gets a limiter.
    fn to_candidate(&mut self, c: usize)
        requires
            c <= old(self)@.plan.candidates.len(),
        ensures
            final(self)@ == old(self)@.to_candidate(c as nat),
            final(self)@.well_formed(),
    {
        let ghost goal = self@.to_candidate(c as nat);
        let mut k: usize = c;
        while k < self.plan.candidates.len()
            invariant
                k <= self@.plan.candidates.len(),
                self@.to_candidate(k as nat) == goal,
                goal == old(self)@.to_candidate(c as nat),
                self.plan.candidates@.len() == self@.plan.candidates.len(),
            decreases self@.plan.candidates.len() - k,
        {
            let ghost here = TickView { at: k as nat, ..self@ };
            let pid: u32 = self.plan.candidates[k].pid;
            let hot = !self.plan.candidates[k].cpu.below(self.plan.candidates[k].trigger_cpu);
            let mut known = self.runtime.recall(pid);
            if hot {
                self.activity = AgentTickActivity::Hot;
                let free = !self.limited.contains(&pid) && !self.plan.candidates[k].taken
                    && self.active < MAX_WATCH_INSTANCES;
                if free {
                    if known.is_backed_off(self.plan.now) {
                        self.runtime.keep(pid, known);
                    } else {
                        known.hot_samples = one_more(known.hot_samples);
                        self.runtime.keep(pid, known);
                        if known.hot_samples >= HOT_REQUIRED_SAMPLES {
                            self.stage = Stage::Start;
                            self.at = k;
                            assert(self@ =~= TickView { stage: Stage::Start, ..here.sampled() });
                            return ;
                        }
                    }
                }
            } else {
                known.hot_samples = 0;
                self.runtime.keep(pid, known);
            }
            k += 1;
            proof {
                let next = TickView { at: here.at, ..self@ };
                assert(next =~= here.sampled());
                lemma_position_is_lost(here.sampled(), self@.at, k as nat);
                assert(self@ =~= TickView { at: self@.at, ..here.sampled() });
            }
        }
        self.runtime.retain(&self.plan.present, self.plan.now);
        self.stage = Stage::Over;
        self.at = self.plan.candidates.len();
        assert(self@ =~= goal);
    }

    /// Goes to the next recorded limiter.
    fn next_item(&mut self)
        requires
            old(self)@.at < old(self)@.plan.items.len(),
            old(self)@.active <= old(self)@.at + 1,
        ensures
            final(self)@ == old(self)@.next_item(),
            final(self)@.well_formed(),
    {
        assert(self.plan.items.len() == self@.plan.items.len());
        self.to_item(self.at + 1);
    }

    /// Goes to the next candidate that gets a limiter.
    fn next_candidate(&mut self)
        requires
            old(self)@.at < old(self)@.plan.candidates.len(),
        ensures
            final(self)@ == old(self)@.next_candidate(),
            final(self)@.well_formed(),
    {
        assert(self.plan.candidates.len() == self@.plan.candidates.len());
        self.to_candidate(self.at + 1);
    }

    /// Leaves `pid` alone from now on, with its hot samples as given.
    fn leave_alone(&mut self, pid: u32, hot_samples: u8)
        ensures
            final(self)@ == old(self)@.leaving_alone(pid, hot_samples),
    {
        let mut known = self.runtime.recall(pid);
        known.backoff_until = Some(self.plan.deadline);
        known.hot_samples = hot_samples;
        self.runtime.keep(pid, known);
        assert(self@ =~= old(self)@.leaving_alone(pid, hot_samples));
    }

    /// Goes to the next limiter that outlived the one at hand.
    fn clear_orphans(&mut self)
        requires
            old(self)@.at < old(self)@.plan.items.len(),
            old(self)@.active <= old(self)@.at + 1,
            old(self)@.outcomes.len() <= old(self)@.item().duplicates.len(),
        ensures
            final(self)@ == old(self)@.clearing_orphans(),
            final(self)@.well_formed(),
    {
        assert(self@.item() == self.plan.items@[self.at as int]@);
        if self.outcomes.len() < self.plan.items[self.at].duplicates.len() {
            self.stage = Stage::ClearOrphans;
            assert(self@ =~= old(self)@.clearing_orphans());
            return ;
        }
        match stop_cpulimit_pids(&self.plan.items[self.at].duplicates, &self.outcomes) {
            Ok(_) => {
                let pid: u32 = self.plan.items[self.at].target_pid;
                let hot_samples: u8 = self.runtime.recall(pid).hot_samples;
                self.leave_alone(pid, hot_samples);
                self.stage = Stage::ForgetLost;
                assert(self@ =~= old(self)@.clearing_orphans());
            },
            Err(_) => {
                self.next_item();
            },
        }
    }

    /// Goes to the next limiter that doubles the one at hand.
    fn clear_duplicates(&mut self)
        requires
            old(self)@.at < old(self)@.plan.items.len(),
            old(self)@.active <= old(self)@.at + 1,
            old(self)@.outcomes.len() <= old(self)@.item().duplicates.len(),
            old(self)@.item().load is Some,
            old(self)@.item().hold is Some,
        ensures
            final(self)@ == old(self)@.clearing_duplicates(),
            final(self)@.well_formed(),
    {
        assert(self@.item() == self.plan.items@[self.at as int]@);
        if self.outcomes.len() < self.plan.items[self.at].duplicates.len() {
            self.stage = Stage::ClearDuplicates;
            assert(self@ =~= old(self)@.clearing_duplicates());
            return ;
        }
        match stop_cpulimit_pids(&self.plan.items[self.at].duplicates, &self.outcomes) {
            Ok(_) => {
                self.stage = Stage::Record;
                assert(self@ =~= old(self)@.clearing_duplicates());
            },
            Err(report) => {
                let mut warning = owned("cpuguard agent duplicate cleanup failed for PID ");
                let pid = to_decimal(self.plan.items[self.at].target_pid as u64);
                warning.append(pid.as_str());
                warning.append(": ");
                warning.append(report.as_str());
                self.warnings.push(warning);
                proof {
                    let failed = limiters::failed_pids(self@.item().duplicates, self@.outcomes);
                    assert(self@ =~= TickView {
                        warnings: old(self)@.warnings.push(
                            cleanup_warning(self@.item().target_pid, failed),
                        ),
                        ..old(self)@
                    });
                }
                self.next_item();
            },
        }
    }

    /// Goes on, knowing whether the limiter at hand is alive.
    fn probed(&mut self, alive: bool)
        requires
            old(self)@.at < old(self)@.plan.items.len(),
            old(self)@.active <= old(self)@.at + 1,
        ensures
            final(self)@ == old(self)@.probed(alive),
            final(self)@.well_formed(),
    {
        assert(self@.item() == self.plan.items@[self.at as int]@);
        let exists_still = self.plan.items[self.at].load.is_some();
        let ruled = self.plan.items[self.at].hold.is_some();
        if alive && exists_still && ruled {
            self.outcomes = Vec::new();
            assert(self@ =~= TickView { outcomes: Seq::empty(), ..old(self)@ });
            self.clear_duplicates();
        } else if alive {
            self.stage = Stage::StopLost;
            assert(self@ =~= old(self)@.probed(alive));
        } else if exists_still {
            self.outcomes = Vec::new();
            assert(self@ =~= TickView { outcomes: Seq::empty(), ..old(self)@ });
            self.clear_orphans();
        } else {
            self.stage = Stage::ForgetLost;
            assert(self@ =~= old(self)@.probed(alive));
        }
    }

    /// Goes on with the load of the target at hand recorded.
    fn recorded(&mut self)
        requires
            old(self)@.at < old(self)@.plan.items.len(),
            old(self)@.active <= old(self)@.at + 1,
            old(self)@.item().load is Some,
            old(self)@.item().hold is Some,
        ensures
            final(self)@ == old(self)@.recorded(),
            final(self)@.well_formed(),
    {
        assert(self@.item() == self.plan.items@[self.at as int]@);
        let pid: u32 = self.plan.items[self.at].target_pid;
        let cpu = self.plan.items[self.at].load.unwrap();
        let hold = self.plan.items[self.at].hold.unwrap();
        if !hold.still_matches {
            self.stage = Stage::StopReleased;
            assert(self@ =~= old(self)@.recorded());
            return ;
        }
        let mut known = self.runtime.recall(pid);
        if cpu.at_most(hold.release_cpu) {
            known.cold_samples = one_more(known.cold_samples);
        } else {
            known.cold_samples = 0;
            self.activity = AgentTickActivity::Hot;
        }
        self.runtime.keep(pid, known);
        if known.cold_samples >= COLD_REQUIRED_SAMPLES {
            self.stage = Stage::StopReleased;
            assert(self@ =~= old(self)@.recorded());
        } else {
            proof {
                assert(self@ =~= TickView {
                    activity: self@.activity,
                    ..old(self)@.keeping(
                        pid,
                        TargetRuntime {
                            cold_samples: old(self)@.cold_samples(),
                            ..old(self)@.recalled(pid)
                        },
                    )
                });
            }
            self.next_item();
        }
    }

    /// Takes the reply to the request and goes on.
    pub fn answer(&mut self, reply: TickReply)
        requires
            old(self)@.well_formed(),
        ensures
            final(self)@ == old(self)@.answered(reply),
            final(self)@.well_formed(),
    {
        let done = matches!(reply, TickReply::Done);
        match self.stage {
            Stage::Probe => {
                self.probed(done);
            },
            Stage::StopLost => if done {
                self.stage = Stage::ForgetLost;
                assert(self@ =~= old(self)@.answered(reply));
            } else {
                self.next_item();
            },
            Stage::ClearOrphans => {
                self.outcomes.push(done);
                assert(self@ =~= TickView {
                    outcomes: old(self)@.outcomes.push(done),
                    ..old(self)@
                });
                self.clear_orphans();
            },
            Stage::ClearDuplicates => {
                self.outcomes.push(done);
                assert(self@ =~= TickView {
                    outcomes: old(self)@.outcomes.push(done),
                    ..old(self)@
                });
                self.clear_duplicates();
            },
            Stage::Record => {
                self.recorded();
            },
            Stage::ForgetLost => {
                self.active = if self.active > 0 { self.active - 1 } else { 0 };
                assert(self@ =~= old(self)@.without_one());
                self.next_item();
            },
            Stage::StopReleased => if done {
                self.stage = Stage::ForgetReleased;
                assert(self@ =~= old(self)@.answered(reply));
            } else {
                self.next_item();
            },
            Stage::ForgetReleased => {
                self.active = if self.active > 0 { self.active - 1 } else { 0 };
                assert(self@ =~= old(self)@.without_one());
                self.limited.remove(&self.plan.items[self.at].target_pid);
                assert(self@ =~= old(self)@.without_one().freed());
                self.next_item();
            },
            Stage::Start => match reply {
                TickReply::Started(pid) => {
                    self.stage = Stage::Remember(pid);
                    assert(self@ =~= old(self)@.answered(reply));
                },
                _ => {
                    let pid: u32 = self.plan.candidates[self.at].pid;
                    self.leave_alone(pid, 0);
                    self.next_candidate();
                },
            },
            Stage::Remember(cpulimit_pid) => if done {
                let pid: u32 = self.plan.candidates[self.at].pid;
                let mut known = self.runtime.recall(pid);
                known.hot_samples = 0;
                known.cold_samples = 0;
                self.active = self.active + 1;
                self.limited.insert(pid);
                self.runtime.keep(pid, known);
                assert(self@ =~= old(self)@.with_new());
                self.next_candidate();
            } else {
                self.stage = Stage::Undo(cpulimit_pid);
                assert(self@ =~= old(self)@.answered(reply));
            },
            Stage::Undo(_) => {
                let pid: u32 = self.plan.candidates[self.at].pid;
                self.leave_alone(pid, 0);
                self.next_candidate();
            },
            Stage::Over => {},
        }
    }

    /// What the tick asks for; nothing when it is over.
    pub fn request(&self) -> (r: Option<TickRequest>)
        requires
            self@.well_formed(),
        ensures
            match r {
                Some(request) => self@.asks() == Some(request@),
                None => self@.asks() is None,
            },
    {
        match self.stage {
            Stage::Probe => Some(
                TickRequest::Probe { cpulimit_pid: self.plan.items[self.at].cpulimit_pid },
            ),
            Stage::StopLost | Stage::StopReleased => Some(
                TickRequest::Stop { cpulimit_pid: self.plan.items[self.at].cpulimit_pid },
            ),
            Stage::ClearOrphans | Stage::ClearDuplicates => Some(
                TickRequest::Stop {
                    cpulimit_pid: self.plan.items[self.at].duplicates[self.outcomes.len()],
                },
            ),
            Stage::ForgetLost | Stage::ForgetReleased => Some(
                TickRequest::Forget { cpulimit_pid: self.plan.items[self.at].cpulimit_pid },
            ),
            Stage::Record => Some(
                TickRequest::Record {
                    cpulimit_pid: self.plan.items[self.at].cpulimit_pid,
                    cpu: self.plan.items[self.at].load.unwrap(),
                },
            ),
            Stage::Start => Some(
                TickRequest::Start {
                    target_pid: self.plan.candidates[self.at].pid,
                    limit: self.plan.candidates[self.at].limit,
                },
            ),
            Stage::Remember(cpulimit_pid) => Some(
                TickRequest::Remember {
                    cpulimit_pid,
                    target_pid: self.plan.candidates[self.at].pid,
                    rule_name: self.plan.candidates[self.at].rule_name.clone(),
                    limit: self.plan.candidates[self.at].limit,
                    cpu: self.plan.candidates[self.at].cpu,
                },
            ),
            Stage::Undo(cpulimit_pid) => Some(TickRequest::Stop { cpulimit_pid }),
            Stage::Over => None,
        }
    }

    /// What the tick has warned of so far.
    pub fn warnings(&self) -> (r: &Vec<String>)
        ensures
            text::texts(r@) == self@.warnings,
    {
        &self.warnings
    }

    /// Hands back what is to be remembered, and whether a hot process was seen.
    pub fn finish(self) -> (r: (AgentRuntime, AgentTickActivity))
        ensures
            r.0@ == self@.targets,
            r.1 == self@.activity,
    {
        (self.runtime, self.activity)
    }
}

/// Where a tick was does not matter once it looks for candidates.
proof fn lemma_position_is_lost(t: TickView, at: nat, c: nat)
    ensures
        (TickView { at, ..t }).to_candidate(c) == t.to_candidate(c),
    decreases t.plan.candidates.len() - c,
{
    let other = TickView { at, ..t };
    assert(TickView { at: c, ..other } == TickView { at: c, ..t });
    if c >= t.plan.candidates.len() {
        assert(other.to_candidate(c) =~= t.to_candidate(c));
    }
}

} // verus!

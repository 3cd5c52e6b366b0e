//! Cleaning up a domain: the recorded limiters are stopped, and the rules and the agent removed.

use vstd::prelude::*;

use crate::app::dialogue;
use crate::app::dialogue::{
    error_of, ErrorView, Reply, ReplyView, Request, RequestView, ServiceError,
};
use crate::app::limiters;
use crate::app::limiters::part_by_outcome;
use crate::app::plan;
use crate::lists;
use crate::lists::{has_number, retain};
use crate::model;
use crate::model::{
    Domain, InstanceView, ManagedInstance, RulesFile, RulesView, StateFile, StateView,
};
use crate::store;
use crate::store::remove_rules_by_domain;
use crate::text;
use crate::text::starts_with;

verus! {

// ---------------------------------------------------------------------------
// The limiters
// ---------------------------------------------------------------------------

/// Whether the label of an instance confirms that it is this program's: its owner carries the
/// program's prefix. A one-time limiter has no owner, and its record is enough.
pub open spec fn is_confirmed(i: InstanceView) -> bool {
    i.owner_label is None || text::has_prefix(i.owner_label->0, "com.cpuguard."@)
}

/// Whether a limiter is recorded in a domain by an instance that its label does not confirm. Such a
/// limiter is left alone, whoever else claims it.
pub open spec fn is_contested(instances: Seq<InstanceView>, domain: Domain, pid: u32) -> bool {
    exists|k: int|
        0 <= k < instances.len() && (#[trigger] instances[k]).domain == domain && !is_confirmed(
            instances[k],
        ) && instances[k].cpulimit_pid == pid
}

/// Whether an instance is one to clean up: it belongs to a domain, its label confirms it, and its
/// limiter is not contested.
pub open spec fn belongs(instances: Seq<InstanceView>, domain: Domain) -> spec_fn(
    InstanceView,
) -> bool {
    |i: InstanceView|
        i.domain == domain && is_confirmed(i) && !is_contested(instances, domain, i.cpulimit_pid)
}

/// The recorded limiters of a domain that are to be cleaned up.
pub open spec fn domain_limiters(s: StateView, domain: Domain) -> Seq<u32> {
    plan::managed_pids(s.instances.filter(belongs(s.instances, domain)))
}

/// Whether an instance stays on record when these limiters of a domain were stopped.
pub open spec fn stays(domain: Domain, stopped: Seq<u32>) -> spec_fn(InstanceView) -> bool {
    |i: InstanceView|
        i.domain != domain || !is_confirmed(i) || !stopped.contains(i.cpulimit_pid)
}

/// The state when these limiters of a domain were stopped.
pub open spec fn cleaned(s: StateView, domain: Domain, stopped: Seq<u32>) -> StateView {
    StateView { version: 2, instances: s.instances.filter(stays(domain, stopped)) }
}

/// The result when so many limiters were stopped and these could not be.
pub open spec fn clean_result(stopped: int, failed: Seq<u32>) -> Result<usize, ErrorView> {
    if failed.len() > 0 {
        Err(ErrorView::NotStopped(failed))
    } else {
        Ok(stopped as usize)
    }
}

/// What stopping the limiters of a domain is waiting for.
#[derive(Debug)]
pub enum CleanStage {
    /// The state.
    Load,
    /// The stop of the limiter that has no outcome yet.
    Stop { state: StateFile, pids: Vec<u32>, outcomes: Vec<bool> },
    /// The save of the state without the limiters that were stopped.
    Save { state: StateFile, stopped: usize, failed: Vec<u32> },
    /// Nothing: this is the result.
    Over(Result<usize, ServiceError>),
}

/// What a [`CleanStage`] holds.
pub enum CleanStageView {
    Load,
    Stop { state: StateView, pids: Seq<u32>, outcomes: Seq<bool> },
    Save { state: StateView, stopped: usize, failed: Seq<u32> },
    Over(Result<usize, ErrorView>),
}

impl View for CleanStage {
    type V = CleanStageView;

    open spec fn view(&self) -> CleanStageView {
        match *self {
            CleanStage::Load => CleanStageView::Load,
            CleanStage::Stop { state, pids, outcomes } => CleanStageView::Stop {
                state: state@,
                pids: pids@,
                outcomes: outcomes@,
            },
            CleanStage::Save { state, stopped, failed } => CleanStageView::Save {
                state: state@,
                stopped,
                failed: failed@,
            },
            CleanStage::Over(r) => CleanStageView::Over(dialogue::result_of(r)),
        }
    }
}

/// Stopping the recorded limiters of a domain.
#[derive(Debug)]
pub struct CleanManaged {
    pub domain: Domain,
    pub stage: CleanStage,
}

/// What a [`CleanManaged`] holds.
pub struct CleanManagedView {
    pub domain: Domain,
    pub stage: CleanStageView,
}

impl View for CleanManaged {
    type V = CleanManagedView;

    open spec fn view(&self) -> CleanManagedView {
        CleanManagedView { domain: self.domain, stage: self.stage@ }
    }
}

impl CleanManagedView {
    /// Whether there is a limiter to stop as long as one is being waited for.
    pub open spec fn well_formed(self) -> bool {
        match self.stage {
            CleanStageView::Stop { state, pids, outcomes } => outcomes.len() < pids.len(),
            _ => true,
        }
    }

    /// The operation at the next limiter to stop. When each has an outcome, those that were
    /// stopped are taken off the record.
    pub open spec fn stopping(
        self,
        state: StateView,
        pids: Seq<u32>,
        outcomes: Seq<bool>,
    ) -> CleanManagedView {
        let stopped = limiters::stopped_pids(pids, outcomes);
        let failed = limiters::failed_pids(pids, outcomes);
        let stage = if outcomes.len() < pids.len() {
            CleanStageView::Stop { state, pids, outcomes }
        } else if stopped.len() > 0 {
            CleanStageView::Save {
                state: cleaned(state, self.domain, stopped),
                stopped: stopped.len() as usize,
                failed,
            }
        } else {
            CleanStageView::Over(clean_result(0, failed))
        };
        CleanManagedView { stage, ..self }
    }

    /// The operation after a reply.
    pub open spec fn answered(self, reply: ReplyView) -> CleanManagedView {
        let gone_wrong = CleanManagedView {
            stage: CleanStageView::Over(Err(dialogue::step_error(reply))),
            ..self
        };
        match self.stage {
            CleanStageView::Load => match reply {
                ReplyView::State(s) => self.stopping(
                    s,
                    domain_limiters(s, self.domain),
                    Seq::empty(),
                ),
                _ => gone_wrong,
            },
            CleanStageView::Stop { state, pids, outcomes } => self.stopping(
                state,
                pids,
                outcomes.push(reply is Done),
            ),
            CleanStageView::Save { state, stopped, failed } => if reply is Done {
                CleanManagedView {
                    stage: CleanStageView::Over(clean_result(stopped as int, failed)),
                    ..self
                }
            } else {
                gone_wrong
            },
            CleanStageView::Over(_) => self,
        }
    }

    /// What the operation asks for; nothing when it is over.
    pub open spec fn asks(self) -> Option<RequestView> {
        match self.stage {
            CleanStageView::Load => Some(RequestView::LoadState),
            CleanStageView::Stop { state, pids, outcomes } => Some(
                RequestView::Stop(pids[outcomes.len() as int]),
            ),
            CleanStageView::Save { state, stopped, failed } => Some(RequestView::SaveState(state)),
            CleanStageView::Over(_) => None,
        }
    }
}

/// Whether the label of an instance confirms that it is this program's.
fn confirms(i: &ManagedInstance) -> (r: bool)
    ensures
        r == is_confirmed(i@),
{
    match &i.owner_label {
        Some(label) => starts_with(label.as_str(), "com.cpuguard."),
        None => true,
    }
}

/// Whether a limiter is recorded in a domain by an instance that its label does not confirm.
fn contested(instances: &Vec<ManagedInstance>, domain: Domain, pid: u32) -> (r: bool)
    ensures
        r == is_contested(model::instances_of(instances@), domain, pid),
{
    let ghost all = model::instances_of(instances@);
    let mut k: usize = 0;
    while k < instances.len()
        invariant
            k <= instances.len(),
            all == model::instances_of(instances@),
            forall|j: int|
                0 <= j < k ==> !((#[trigger] all[j]).domain == domain && !is_confirmed(all[j])
                    && all[j].cpulimit_pid == pid),
        decreases instances.len() - k,
    {
        assert(all[k as int] == instances@[k as int]@);
        if instances[k].domain == domain && !confirms(&instances[k]) && instances[k].cpulimit_pid
            == pid {
            return true;
        }
        k += 1;
    }
    false
}

/// Lists the recorded limiters of a domain that are to be cleaned up.
fn list_domain_limiters(instances: &Vec<ManagedInstance>, domain: Domain) -> (r: Vec<u32>)
    ensures
        r@ == plan::managed_pids(
            model::instances_of(instances@).filter(
                belongs(model::instances_of(instances@), domain),
            ),
        ),
{
    let ghost all = model::instances_of(instances@);
    let ghost keep = belongs(all, domain);
    let mut out: Vec<u32> = Vec::new();
    let mut i: usize = 0;
    proof {
        reveal(Seq::filter);
        assert(plan::managed_pids(all.take(0).filter(keep)) =~= Seq::empty());
    }
    while i < instances.len()
        invariant
            i <= instances.len(),
            all == model::instances_of(instances@),
            keep == belongs(all, domain),
            out@ == plan::managed_pids(all.take(i as int).filter(keep)),
        decreases instances.len() - i,
    {
        proof {
            assert(all.take(i + 1) == all.take(i as int).push(instances@[i as int]@));
            lists::lemma_filter_push(all.take(i as int), instances@[i as int]@, keep);
        }
        let pid: u32 = instances[i].cpulimit_pid;
        if instances[i].domain == domain && confirms(&instances[i]) && !contested(
            instances,
            domain,
            pid,
        ) {
            out.push(pid);
        }
        assert(out@ =~= plan::managed_pids(all.take(i + 1).filter(keep)));
        i += 1;
    }
    assert(all.take(i as int) == all);
    out
}

/// Takes the limiters of a domain that were stopped off the record.
fn take_off_record(state: StateFile, domain: Domain, stopped: &Vec<u32>) -> (r: StateFile)
    ensures
        r@ == cleaned(state@, domain, stopped@),
{
    let mut state = state;
    let ghost before = state@;
    let ghost pred = stays(domain, stopped@);
    assert(lists::views(state.instances@) =~= before.instances);
    let keep = |i: &ManagedInstance| -> (b: bool)
        ensures
            b == (i@.domain != domain || !is_confirmed(i@) || !stopped@.contains(
                i@.cpulimit_pid,
            )),
    {
        i.domain != domain || !confirms(i) || !has_number(stopped, i.cpulimit_pid)
    };
    retain(&mut state.instances, keep, Ghost(pred));
    state.version = 2;
    assert(model::instances_of(state.instances@) =~= lists::views(state.instances@));
    state
}

/// The result when so many limiters were stopped and these could not be.
fn result_from(stopped: usize, failed: Vec<u32>) -> (r: Result<usize, ServiceError>)
    ensures
        dialogue::result_of(r) == clean_result(stopped as int, failed@),
{
    if failed.len() > 0 {
        Err(ServiceError::NotStopped(failed))
    } else {
        Ok(stopped)
    }
}

impl CleanManaged {
    /// Goes to the next limiter to stop.
    fn stopping(domain: Domain, state: StateFile, pids: Vec<u32>, outcomes: Vec<bool>) -> (r:
        CleanManaged)
        requires
            outcomes@.len() <= pids@.len(),
        ensures
            r@.well_formed(),
            forall|v: CleanManagedView|
                v.domain == domain ==> r@ == #[trigger] v.stopping(state@, pids@, outcomes@),
    {
        if outcomes.len() < pids.len() {
            return CleanManaged { domain, stage: CleanStage::Stop { state, pids, outcomes } };
        }
        let (stopped, failed) = part_by_outcome(&pids, &outcomes);
        let stage = if stopped.len() > 0 {
            let state = take_off_record(state, domain, &stopped);
            CleanStage::Save { state, stopped: stopped.len(), failed }
        } else {
            CleanStage::Over(result_from(0, failed))
        };
        CleanManaged { domain, stage }
    }

    /// Goes on by a reply.
    pub fn answer(self, reply: Reply) -> (r: CleanManaged)
        requires
            self@.well_formed(),
        ensures
            r@ == self@.answered(reply@),
            r@.well_formed(),
    {
        let domain = self.domain;
        let done = matches!(reply, Reply::Done);
        match self.stage {
            CleanStage::Load => match reply {
                Reply::State(state) => {
                    let pids = list_domain_limiters(&state.instances, domain);
                    CleanManaged::stopping(domain, state, pids, Vec::new())
                },
                _ => CleanManaged { domain, stage: CleanStage::Over(Err(error_of(reply))) },
            },
            CleanStage::Stop { state, pids, outcomes } => {
                let mut outcomes = outcomes;
                outcomes.push(done);
                CleanManaged::stopping(domain, state, pids, outcomes)
            },
            CleanStage::Save { state, stopped, failed } => if done {
                CleanManaged { domain, stage: CleanStage::Over(result_from(stopped, failed)) }
            } else {
                CleanManaged { domain, stage: CleanStage::Over(Err(error_of(reply))) }
            },
            CleanStage::Over(r) => CleanManaged { domain, stage: CleanStage::Over(r) },
        }
    }

    /// What the operation asks for; nothing when it is over.
    pub fn request(&self) -> (r: Option<Request>)
        requires
            self@.well_formed(),
        ensures
            match r {
                Some(request) => self@.asks() == Some(request@),
                None => self@.asks() is None,
            },
    {
        match &self.stage {
            CleanStage::Load => Some(Request::LoadState),
            CleanStage::Stop { state, pids, outcomes } => Some(
                Request::Stop(pids[outcomes.len()]),
            ),
            CleanStage::Save { state, stopped, failed } => Some(Request::SaveState(state.clone())),
            CleanStage::Over(_) => None,
        }
    }

    /// The result, once the operation is over: the number of limiters that were stopped.
    pub fn finish(self) -> (r: Option<Result<usize, ServiceError>>)
        ensures
            match r {
                Some(result) => self@.stage == CleanStageView::Over(dialogue::result_of(result)),
                None => !(self@.stage is Over),
            },
    {
        match self.stage {
            CleanStage::Over(result) => Some(result),
            _ => None,
        }
    }
}

// ---------------------------------------------------------------------------
// Everything
// ---------------------------------------------------------------------------

/// The rules without those of a domain.
pub open spec fn rules_outside(f: RulesView, domain: Domain) -> RulesView {
    RulesView { version: f.version, rules: f.rules.filter(store::is_rule_outside(domain)) }
}

/// What cleaning up a domain is waiting for. `before` are the rules as they were.
#[derive(Debug)]
pub enum CleanAllStage {
    /// The rules as they are.
    LoadRules,
    /// The stop of the recorded limiters.
    Stop { before: RulesFile, managed: CleanManaged },
    /// The rules, to remove those of the domain.
    Reload { before: RulesFile, stopped: usize },
    /// The save of the other rules.
    SaveRules { before: RulesFile, rules: RulesFile, removed: usize, stopped: usize },
    /// The removal of the agent.
    RemoveAgent { before: RulesFile, removed: usize, stopped: usize },
    /// The save of the rules as they were, after this failure.
    Restore { before: RulesFile, error: ServiceError },
    /// The removal of what is left of earlier watches.
    CleanWatches { removed: usize, stopped: usize },
    /// Nothing: this is the result.
    Over(Result<(usize, usize), ServiceError>),
}

/// What a [`CleanAllStage`] holds.
pub enum CleanAllStageView {
    LoadRules,
    Stop { before: RulesView, managed: CleanManagedView },
    Reload { before: RulesView, stopped: usize },
    SaveRules { before: RulesView, rules: RulesView, removed: usize, stopped: usize },
    RemoveAgent { before: RulesView, removed: usize, stopped: usize },
    Restore { before: RulesView, error: ErrorView },
    CleanWatches { removed: usize, stopped: usize },
    Over(Result<(usize, usize), ErrorView>),
}

impl View for CleanAllStage {
    type V = CleanAllStageView;

    open spec fn view(&self) -> CleanAllStageView {
        match *self {
            CleanAllStage::LoadRules => CleanAllStageView::LoadRules,
            CleanAllStage::Stop { before, managed } => CleanAllStageView::Stop {
                before: before@,
                managed: managed@,
            },
            CleanAllStage::Reload { before, stopped } => CleanAllStageView::Reload {
                before: before@,
                stopped,
            },
            CleanAllStage::SaveRules { before, rules, removed, stopped } =>
                CleanAllStageView::SaveRules { before: before@, rules: rules@, removed, stopped },
            CleanAllStage::RemoveAgent { before, removed, stopped } =>
                CleanAllStageView::RemoveAgent { before: before@, removed, stopped },
            CleanAllStage::Restore { before, error } => CleanAllStageView::Restore {
                before: before@,
                error: error@,
            },
            CleanAllStage::CleanWatches { removed, stopped } => CleanAllStageView::CleanWatches {
                removed,
                stopped,
            },
            CleanAllStage::Over(r) => CleanAllStageView::Over(dialogue::result_of(r)),
        }
    }
}

/// Cleaning up a domain.
#[derive(Debug)]
pub struct CleanAll {
    pub domain: Domain,
    pub stage: CleanAllStage,
}

/// What a [`CleanAll`] holds.
pub struct CleanAllView {
    pub domain: Domain,
    pub stage: CleanAllStageView,
}

impl View for CleanAll {
    type V = CleanAllView;

    open spec fn view(&self) -> CleanAllView {
        CleanAllView { domain: self.domain, stage: self.stage@ }
    }
}

impl CleanAllView {
    /// Whether the limiters are being stopped properly.
    pub open spec fn well_formed(self) -> bool {
        match self.stage {
            CleanAllStageView::Stop { before, managed } => managed.well_formed() && managed.domain
                == self.domain,
            _ => true,
        }
    }

    /// Whether the operation can count what a reply says was removed.
    pub open spec fn accepts(self, reply: ReplyView) -> bool {
        match (self.stage, reply) {
            (CleanAllStageView::CleanWatches { removed, stopped }, ReplyView::Count(n)) => removed
                + n <= usize::MAX,
            _ => true,
        }
    }

    /// The operation after a reply.
    pub open spec fn answered(self, reply: ReplyView) -> CleanAllView {
        let error = dialogue::step_error(reply);
        let stage = match self.stage {
            CleanAllStageView::LoadRules => match reply {
                ReplyView::Rules(before) => CleanAllStageView::Stop {
                    before,
                    managed: CleanManagedView { domain: self.domain, stage: CleanStageView::Load },
                },
                _ => CleanAllStageView::Over(Err(error)),
            },
            CleanAllStageView::Stop { before, managed } => {
                let next = managed.answered(reply);
                match next.stage {
                    CleanStageView::Over(Ok(stopped)) => CleanAllStageView::Reload {
                        before,
                        stopped,
                    },
                    CleanStageView::Over(Err(e)) => CleanAllStageView::Over(Err(e)),
                    _ => CleanAllStageView::Stop { before, managed: next },
                }
            },
            CleanAllStageView::Reload { before, stopped } => match reply {
                ReplyView::Rules(f) => {
                    let rules = rules_outside(f, self.domain);
                    let removed = (f.rules.len() - rules.rules.len()) as usize;
                    if removed > 0 {
                        CleanAllStageView::SaveRules { before, rules, removed, stopped }
                    } else {
                        CleanAllStageView::RemoveAgent { before, removed, stopped }
                    }
                },
                _ => CleanAllStageView::Over(Err(error)),
            },
            CleanAllStageView::SaveRules { before, rules, removed, stopped } => if reply is Done {
                CleanAllStageView::RemoveAgent { before, removed, stopped }
            } else {
                CleanAllStageView::Over(Err(error))
            },
            CleanAllStageView::RemoveAgent { before, removed, stopped } => if reply is Done {
                CleanAllStageView::CleanWatches { removed, stopped }
            } else {
                CleanAllStageView::Restore { before, error }
            },
            CleanAllStageView::Restore { before, error } => CleanAllStageView::Over(Err(error)),
            CleanAllStageView::CleanWatches { removed, stopped } => match reply {
                ReplyView::Count(n) => CleanAllStageView::Over(
                    Ok(((removed + n) as usize, stopped)),
                ),
                _ => CleanAllStageView::Over(Err(error)),
            },
            CleanAllStageView::Over(r) => CleanAllStageView::Over(r),
        };
        CleanAllView { stage, ..self }
    }

    /// What the operation asks for; nothing when it is over.
    pub open spec fn asks(self) -> Option<RequestView> {
        match self.stage {
            CleanAllStageView::LoadRules => Some(RequestView::LoadRules),
            CleanAllStageView::Stop { before, managed } => managed.asks(),
            CleanAllStageView::Reload { before, stopped } => Some(RequestView::LoadRules),
            CleanAllStageView::SaveRules { before, rules, removed, stopped } => Some(
                RequestView::SaveRules(rules),
            ),
            CleanAllStageView::RemoveAgent { before, removed, stopped } => Some(
                RequestView::RemoveAgent(self.domain),
            ),
            CleanAllStageView::Restore { before, error } => Some(RequestView::SaveRules(before)),
            CleanAllStageView::CleanWatches { removed, stopped } => Some(
                RequestView::CleanWatches(self.domain),
            ),
            CleanAllStageView::Over(_) => None,
        }
    }
}

impl CleanAll {
    /// Whether the operation can count what a reply says was removed.
    pub fn takes(&self, reply: &Reply) -> (r: bool)
        ensures
            r == self@.accepts(reply@),
    {
        match &self.stage {
            CleanAllStage::CleanWatches { removed, stopped } => match reply {
                Reply::Count(n) => *n <= usize::MAX - *removed,
                _ => true,
            },
            _ => true,
        }
    }

    /// Goes on by a reply.
    pub fn answer(self, reply: Reply) -> (r: CleanAll)
        requires
            self@.well_formed(),
            self@.accepts(reply@),
        ensures
            r@ == self@.answered(reply@),
            r@.well_formed(),
    {
        let domain = self.domain;
        let stage = match self.stage {
            CleanAllStage::LoadRules => match reply {
                Reply::Rules(before) => CleanAllStage::Stop {
                    before,
                    managed: CleanManaged { domain, stage: CleanStage::Load },
                },
                _ => CleanAllStage::Over(Err(error_of(reply))),
            },
            CleanAllStage::Stop { before, managed } => {
                let next = managed.answer(reply);
                match next.stage {
                    CleanStage::Over(Ok(stopped)) => CleanAllStage::Reload { before, stopped },
                    CleanStage::Over(Err(e)) => CleanAllStage::Over(Err(e)),
                    stage => CleanAllStage::Stop {
                        before,
                        managed: CleanManaged { domain, stage },
                    },
                }
            },
            CleanAllStage::Reload { before, stopped } => match reply {
                Reply::Rules(rules) => {
                    let mut rules = rules;
                    let removed = remove_rules_by_domain(&mut rules, domain);
                    if removed > 0 {
                        CleanAllStage::SaveRules { before, rules, removed, stopped }
                    } else {
                        CleanAllStage::RemoveAgent { before, removed, stopped }
                    }
                },
                _ => CleanAllStage::Over(Err(error_of(reply))),
            },
            CleanAllStage::SaveRules { before, rules, removed, stopped } => match reply {
                Reply::Done => CleanAllStage::RemoveAgent { before, removed, stopped },
                _ => CleanAllStage::Over(Err(error_of(reply))),
            },
            CleanAllStage::RemoveAgent { before, removed, stopped } => match reply {
                Reply::Done => CleanAllStage::CleanWatches { removed, stopped },
                _ => CleanAllStage::Restore { before, error: error_of(reply) },
            },
            CleanAllStage::Restore { before, error } => CleanAllStage::Over(Err(error)),
            CleanAllStage::CleanWatches { removed, stopped } => match reply {
                Reply::Count(n) => CleanAllStage::Over(Ok((removed + n, stopped))),
                _ => CleanAllStage::Over(Err(error_of(reply))),
            },
            CleanAllStage::Over(r) => CleanAllStage::Over(r),
        };
        CleanAll { domain, stage }
    }

    /// What the operation asks for; nothing when it is over.
    pub fn request(&self) -> (r: Option<Request>)
        requires
            self@.well_formed(),
        ensures
            match r {
                Some(request) => self@.asks() == Some(request@),
                None => self@.asks() is None,
            },
    {
        match &self.stage {
            CleanAllStage::LoadRules => Some(Request::LoadRules),
            CleanAllStage::Stop { before, managed } => managed.request(),
            CleanAllStage::Reload { before, stopped } => Some(Request::LoadRules),
            CleanAllStage::SaveRules { before, rules, removed, stopped } => Some(
                Request::SaveRules(rules.clone()),
            ),
            CleanAllStage::RemoveAgent { before, removed, stopped } => Some(
                Request::RemoveAgent(self.domain),
            ),
            CleanAllStage::Restore { before, error } => Some(Request::SaveRules(before.clone())),
            CleanAllStage::CleanWatches { removed, stopped } => Some(
                Request::CleanWatches(self.domain),
            ),
            CleanAllStage::Over(_) => None,
        }
    }

    /// The result, once the operation is over: the number of rules and jobs that were removed, and
    /// the number of limiters that were stopped.
    pub fn finish(self) -> (r: Option<Result<(usize, usize), ServiceError>>)
        ensures
            match r {
                Some(result) => self@.stage == CleanAllStageView::Over(
                    dialogue::result_of(result),
                ),
                None => !(self@.stage is Over),
            },
    {
        match self.stage {
            CleanAllStage::Over(result) => Some(result),
            _ => None,
        }
    }
}

} // verus!
